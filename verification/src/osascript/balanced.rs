//! Which brackets, quotes and escapes a script leaves open.
//!
//! Text is scanned character by character with a stack of open regions; inside a quote,
//! brackets are literal, and inside a template string `${` opens an interpolation.
use vstd::prelude::*;
use super::Language;

verus! {

/// A region of script text that must be closed.
#[derive(Clone, Copy, PartialEq, Eq, Debug, Structural)]
pub enum Region {
    SingleQuote,
    DoubleQuote,
    Parenthesis,
    SquareBracket,
    CurlyBracket,
    TemplateString,
    Escaping,
}

/// Whether a region is a quote: its opener is its closer, and escapes work inside it.
pub open spec fn quote(r: Region) -> bool {
    r == Region::SingleQuote || r == Region::DoubleQuote || r == Region::TemplateString
}

/// The region a character opens, if any.
pub open spec fn opened_by(c: char) -> Option<Region> {
    if c == '\'' {
        Some(Region::SingleQuote)
    } else if c == '"' {
        Some(Region::DoubleQuote)
    } else if c == '(' {
        Some(Region::Parenthesis)
    } else if c == '[' {
        Some(Region::SquareBracket)
    } else if c == '{' {
        Some(Region::CurlyBracket)
    } else if c == '`' {
        Some(Region::TemplateString)
    } else if c == '\\' {
        Some(Region::Escaping)
    } else {
        None
    }
}

/// The region a character closes, if any.
pub open spec fn closed_by(c: char) -> Option<Region> {
    if c == '\'' {
        Some(Region::SingleQuote)
    } else if c == '"' {
        Some(Region::DoubleQuote)
    } else if c == ')' {
        Some(Region::Parenthesis)
    } else if c == ']' {
        Some(Region::SquareBracket)
    } else if c == '}' {
        Some(Region::CurlyBracket)
    } else if c == '`' {
        Some(Region::TemplateString)
    } else {
        None
    }
}

impl Region {
    /// Whether a character can be escaped within this region.
    pub fn can_escape_within(self) -> (r: bool)
        ensures
            r == quote(self),
    {
        self.is_quote()
    }

    /// Whether this region is a quote.
    pub fn is_quote(self) -> (r: bool)
        ensures
            r == quote(self),
    {
        match self {
            Region::SingleQuote | Region::DoubleQuote | Region::TemplateString => true,
            _ => false,
        }
    }

    /// The region that `opener` opens, if any.
    pub fn get_from_opener(opener: char) -> (r: Option<Region>)
        ensures
            r == opened_by(opener),
    {
        match opener {
            '\'' => Some(Region::SingleQuote),
            '"' => Some(Region::DoubleQuote),
            '(' => Some(Region::Parenthesis),
            '[' => Some(Region::SquareBracket),
            '{' => Some(Region::CurlyBracket),
            '`' => Some(Region::TemplateString),
            '\\' => Some(Region::Escaping),
            _ => None,
        }
    }

    /// The region that `closer` closes, if any.
    pub fn get_from_closer(closer: char) -> (r: Option<Region>)
        ensures
            r == closed_by(closer),
    {
        match closer {
            '\'' => Some(Region::SingleQuote),
            '"' => Some(Region::DoubleQuote),
            ')' => Some(Region::Parenthesis),
            ']' => Some(Region::SquareBracket),
            '}' => Some(Region::CurlyBracket),
            '`' => Some(Region::TemplateString),
            _ => None,
        }
    }
}

/// A closer appeared where nothing it closes is open, or a template string where none is allowed.
#[derive(Debug, PartialEq, Eq, Clone, Copy, Structural)]
pub struct InvalidCharacterPlacementError;

/// The innermost open region.
pub open spec fn top(stack: Seq<Region>) -> Option<Region> {
    if stack.len() > 0 {
        Some(stack.last())
    } else {
        None
    }
}

/// Whether the innermost open region is a quote.
pub open spec fn in_quote(stack: Seq<Region>) -> bool {
    top(stack) matches Some(r) && quote(r)
}

/// One character of scanning: the open regions and whether `$` was just seen in a template
/// string, before and after `c`.
pub open spec fn step(
    stack: Seq<Region>,
    interpolating: bool,
    c: char,
    allow_template_strings: bool,
) -> Result<(Seq<Region>, bool), InvalidCharacterPlacementError> {
    let recent = top(stack);
    if recent == Some(Region::Escaping) {
        Ok((stack.drop_last(), interpolating))
    } else if c == '\\' && in_quote(stack) {
        Ok((stack.push(Region::Escaping), interpolating))
    } else {
        let interp = if recent == Some(Region::TemplateString) && c == '$' {
            true
        } else {
            interpolating
        };
        match closed_by(c) {
            Some(region) => if recent == Some(region) {
                Ok((stack.drop_last(), interp))
            } else if quote(region) {
                if in_quote(stack) {
                    Ok((stack, interp))
                } else if !allow_template_strings && region == Region::TemplateString {
                    Err(InvalidCharacterPlacementError)
                } else {
                    Ok((stack.push(region), interp))
                }
            } else {
                Err(InvalidCharacterPlacementError)
            },
            None => match opened_by(c) {
                Some(region) => if recent == Some(Region::TemplateString) && region
                    == Region::CurlyBracket {
                    if interp {
                        Ok((stack.push(region), false))
                    } else {
                        Ok((stack, interp))
                    }
                } else if in_quote(stack) {
                    Ok((stack, interp))
                } else {
                    Ok((stack.push(region), interp))
                },
                None => Ok((stack, interp)),
            },
        }
    }
}

/// Scanning the characters `s` from nothing open.
pub open spec fn scan(s: Seq<char>, allow_template_strings: bool) -> Result<
    (Seq<Region>, bool),
    InvalidCharacterPlacementError,
>
    decreases s.len(),
{
    if s.len() == 0 {
        Ok((Seq::empty(), false))
    } else {
        match scan(s.drop_last(), allow_template_strings) {
            Err(e) => Err(e),
            Ok((stack, interpolating)) => step(stack, interpolating, s.last(), allow_template_strings),
        }
    }
}

/// Once scanning fails, scanning more text fails the same way.
proof fn lemma_scan_error_persists(s: Seq<char>, k: int, allow_template_strings: bool)
    requires
        0 <= k <= s.len(),
        scan(s.subrange(0, k), allow_template_strings) is Err,
    ensures
        scan(s, allow_template_strings) == scan(s.subrange(0, k), allow_template_strings),
    decreases s.len() - k,
{
    if k == s.len() {
        assert(s.subrange(0, k) =~= s);
    } else {
        assert(s.subrange(0, k + 1).drop_last() =~= s.subrange(0, k));
        lemma_scan_error_persists(s, k + 1, allow_template_strings);
    }
}

/// Whether template strings are allowed in a language.
pub open spec fn allows_templates(language: Language) -> bool {
    language == Language::JavaScript
}

/// The regions that `input` leaves open, innermost last.
pub fn internal_get_imbalanced_stack(input: &str, allow_template_strings: bool) -> (r: Result<
    Vec<Region>,
    InvalidCharacterPlacementError,
>)
    ensures
        match scan(input@, allow_template_strings) {
            Ok((stack, _)) => r matches Ok(v) && v@ == stack,
            Err(e) => r == Err::<Vec<Region>, InvalidCharacterPlacementError>(e),
        },
{
    let n = input.unicode_len();
    let mut interpolating = false;
    let mut stack: Vec<Region> = Vec::new();
    let mut i: usize = 0;
    while i < n
        invariant
            n == input@.len(),
            i <= n,
            scan(input@.subrange(0, i as int), allow_template_strings) == Ok::<
                (Seq<Region>, bool),
                InvalidCharacterPlacementError,
            >((stack@, interpolating)),
        decreases n - i,
    {
        let c = input.get_char(i);
        let ghost before = input@.subrange(0, i as int);
        assert(input@.subrange(0, i + 1).drop_last() =~= before);
        let len = stack.len();
        let recent = if len > 0 {
            Some(stack[len - 1])
        } else {
            None
        };
        if recent == Some(Region::Escaping) {
            stack.pop();
        } else if c == '\\' && recent.is_some() && recent.unwrap().can_escape_within() {
            stack.push(Region::Escaping);
        } else {
            if recent == Some(Region::TemplateString) && c == '$' {
                interpolating = true;
            }
            match Region::get_from_closer(c) {
                Some(region) => {
                    if recent == Some(region) {
                        stack.pop();
                    } else if region.is_quote() {
                        if recent.is_some() && recent.unwrap().is_quote() {
                        } else if !allow_template_strings && region == Region::TemplateString {
                            proof { lemma_scan_error_persists(input@, i + 1, allow_template_strings); }
                            return Err(InvalidCharacterPlacementError);
                        } else {
                            stack.push(region);
                        }
                    } else {
                        proof { lemma_scan_error_persists(input@, i + 1, allow_template_strings); }
                        return Err(InvalidCharacterPlacementError);
                    }
                },
                None => match Region::get_from_opener(c) {
                    Some(region) => {
                        if recent == Some(Region::TemplateString) && region == Region::CurlyBracket {
                            if interpolating {
                                stack.push(region);
                                interpolating = false;
                            }
                        } else if recent.is_some() && recent.unwrap().is_quote() {
                        } else {
                            stack.push(region);
                        }
                    },
                    None => {},
                },
            }
        }
        i = i + 1;
    }
    assert(input@.subrange(0, n as int) =~= input@);
    Ok(stack)
}

/// The regions that `input` leaves open when read as a script in `language`.
pub fn get_imbalanced_stack(input: &str, language: Language) -> (r: Result<
    Vec<Region>,
    InvalidCharacterPlacementError,
>)
    ensures
        match scan(input@, allows_templates(language)) {
            Ok((stack, _)) => r matches Ok(v) && v@ == stack,
            Err(e) => r == Err::<Vec<Region>, InvalidCharacterPlacementError>(e),
        },
{
    internal_get_imbalanced_stack(
        input,
        match language {
            Language::JavaScript => true,
            Language::AppleScript => false,
        },
    )
}

/// Whether `input` closes every region it opens, as a script in `language`.
pub fn is_balanced(input: &str, language: Language) -> (r: Result<bool, InvalidCharacterPlacementError>)
    ensures
        match scan(input@, allows_templates(language)) {
            Ok((stack, _)) => r == Ok::<bool, InvalidCharacterPlacementError>(stack.len() == 0),
            Err(e) => r == Err::<bool, InvalidCharacterPlacementError>(e),
        },
{
    match get_imbalanced_stack(input, language) {
        Ok(stack) => Ok(stack.len() == 0),
        Err(e) => Err(e),
    }
}

/// An escape is only ever open innermost: no region below the top of the stack is an escape.
pub proof fn law_escape_only_innermost(s: Seq<char>, allow_template_strings: bool)
    ensures
        scan(s, allow_template_strings) matches Ok((stack, _)) ==> forall|i: int|
            0 <= i < stack.len() - 1 ==> stack[i] != Region::Escaping,
    decreases s.len(),
{
    if s.len() > 0 {
        law_escape_only_innermost(s.drop_last(), allow_template_strings);
    }
}

/// Scanning text in two pieces is scanning the second piece from where the first left off.
pub proof fn law_scan_append(a: Seq<char>, c: char, allow_template_strings: bool)
    ensures
        scan(a.push(c), allow_template_strings) == match scan(a, allow_template_strings) {
            Err(e) => Err(e),
            Ok((stack, interpolating)) => step(stack, interpolating, c, allow_template_strings),
        },
{
    assert(a.push(c).drop_last() =~= a);
}

/// Text that leaves nothing open and then an escape character outside any quote leaves
/// exactly an escape open.
pub proof fn law_escape_opens(a: Seq<char>, allow_template_strings: bool)
    requires
        scan(a, allow_template_strings) matches Ok((stack, _)) && stack.len() == 0,
    ensures
        scan(a.push('\\'), allow_template_strings) matches Ok((stack, _)) && stack == seq![
            Region::Escaping,
        ],
{
    assert(a.push('\\').drop_last() =~= a);
}

/// Inside an open quote (single, double or template), a backslash escapes the character
/// after it, whatever that is: the two leave the scan exactly as it was, so an escaped quote
/// does not close its string and an escaped backslash does not escape what follows.
pub proof fn law_escape_within_quote(a: Seq<char>, x: char, allow_template_strings: bool)
    requires
        scan(a, allow_template_strings) matches Ok((stack, _)) && in_quote(stack),
    ensures
        scan(a.push('\\').push(x), allow_template_strings) == scan(a, allow_template_strings),
{
    law_scan_append(a, '\\', allow_template_strings);
    law_scan_append(a.push('\\'), x, allow_template_strings);
    let (stack, interpolating) = scan(a, allow_template_strings)->Ok_0;
    assert(stack.push(Region::Escaping).drop_last() =~= stack);
}

/// Outside any quote, a quote opened and then closed by the same character leaves the open
/// regions as they were; and inside it, the opening character of another region is text.
pub proof fn law_quote_pair_closes(a: Seq<char>, q: char, x: char, allow_template_strings: bool)
    requires
        opened_by(q) matches Some(r) && quote(r) && (r != Region::TemplateString || allow_template_strings),
        opened_by(x) matches Some(r) && !quote(r) && r != Region::Escaping && r != Region::CurlyBracket,
        scan(a, allow_template_strings) matches Ok((stack, _)) && top(stack) != Some(Region::Escaping) && !in_quote(
            stack,
        ),
    ensures
        scan(a.push(q).push(q), allow_template_strings) matches Ok((stack, _)) && scan(a, allow_template_strings) matches Ok((
            before,
            _,
        )) && stack == before,
        scan(a.push(q).push(x).push(q), allow_template_strings) matches Ok((stack, _)) && scan(a, allow_template_strings) matches Ok((
            before,
            _,
        )) && stack == before,
{
    law_scan_append(a, q, allow_template_strings);
    law_scan_append(a.push(q), q, allow_template_strings);
    law_scan_append(a.push(q), x, allow_template_strings);
    law_scan_append(a.push(q).push(x), q, allow_template_strings);
    let before = scan(a, allow_template_strings)->Ok_0.0;
    let r = opened_by(q)->Some_0;
    assert(closed_by(q) == Some(r));
    assert(q != '\\');
    assert(x != '\\');
    assert(closed_by(x) is None);
    assert(scan(a.push(q), allow_template_strings)->Ok_0.0 == before.push(r));
    assert(before.push(r).drop_last() =~= before);
}

/// Whether a character neither opens nor closes anything.
pub open spec fn plain_char(c: char) -> bool {
    opened_by(c) is None && closed_by(c) is None
}

/// Characters that open and close nothing leave the open regions as they were, unless an
/// escape is open, which the first of them closes.
pub proof fn law_plain_text_keeps_stack(a: Seq<char>, t: Seq<char>, allow_template_strings: bool)
    requires
        forall|i: int| 0 <= i < t.len() ==> plain_char(#[trigger] t[i]),
        scan(a, allow_template_strings) matches Ok((stack, _)) && top(stack) != Some(Region::Escaping),
    ensures
        scan(a + t, allow_template_strings) matches Ok((stack, _)) && scan(a, allow_template_strings) matches Ok((
            before,
            _,
        )) && stack == before,
    decreases t.len(),
{
    if t.len() == 0 {
        assert(a + t =~= a);
    } else {
        let u = t.drop_last();
        law_plain_text_keeps_stack(a, u, allow_template_strings);
        assert((a + t).drop_last() =~= a + u);
        assert(plain_char(t[t.len() - 1]));
    }
}

/// Outside any quote, a bracket opened and then closed leaves the open regions as they were.
pub proof fn law_bracket_pair_closes(a: Seq<char>, open: char, close: char, allow_template_strings: bool)
    requires
        opened_by(open) matches Some(r) && !quote(r) && r != Region::Escaping && closed_by(close) == Some(r),
        scan(a, allow_template_strings) matches Ok((stack, _)) && top(stack) != Some(Region::Escaping)
            && !in_quote(stack) && top(stack) != Some(Region::TemplateString),
    ensures
        scan(a.push(open).push(close), allow_template_strings) matches Ok((stack, _))
            && scan(a, allow_template_strings) matches Ok((before, _)) && stack == before,
{
    law_scan_append(a, open, allow_template_strings);
    law_scan_append(a.push(open), close, allow_template_strings);
    let before = scan(a, allow_template_strings)->Ok_0.0;
    let r = opened_by(open)->Some_0;
    assert(closed_by(open) is None);
    assert(open != '\\');
    assert(scan(a.push(open), allow_template_strings)->Ok_0.0 == before.push(r));
    assert(before.push(r).drop_last() =~= before);
}

} // verus!
