//! Lexicographic ordering of UTF-16 strings by their characters.
use vstd::prelude::*;
use core::cmp::Ordering;
use super::utf16::{Utf16Str, lex_less, str_scalars, str_to_scalars, first_difference};

verus! {

/// The lexicographic ordering of two scalar sequences.
pub open spec fn lex_ordering(a: Seq<u32>, b: Seq<u32>) -> Ordering {
    if a == b {
        Ordering::Equal
    } else if lex_less(a, b) {
        Ordering::Less
    } else {
        Ordering::Greater
    }
}

fn order_scalars(a: &Vec<u32>, b: &Vec<u32>) -> (r: Ordering)
    ensures
        r == lex_ordering(a@, b@),
{
    let i = first_difference(a, b);
    if i < a.len() && i < b.len() {
        if a[i] < b[i] {
            Ordering::Less
        } else {
            Ordering::Greater
        }
    } else if a.len() == b.len() {
        Ordering::Equal
    } else if a.len() < b.len() {
        Ordering::Less
    } else {
        Ordering::Greater
    }
}

impl<'a> Utf16Str<'a> {
    /// Orders this string against another by their characters, whatever the byte orders.
    pub fn partial_cmp_utf16(&self, other: &Utf16Str) -> (r: Option<Ordering>)
        ensures
            r == Some(lex_ordering(self.scalars(), other.scalars())),
    {
        let a = self.scalar_values();
        let b = other.scalar_values();
        Some(order_scalars(&a, &b))
    }

    /// Orders this string against a UTF-8 string by their characters.
    pub fn partial_cmp_str(&self, other: &str) -> (r: Option<Ordering>)
        ensures
            r == Some(lex_ordering(self.scalars(), str_scalars(other@))),
    {
        let a = self.scalar_values();
        let b = str_to_scalars(other);
        Some(order_scalars(&a, &b))
    }
}

} // verus!
