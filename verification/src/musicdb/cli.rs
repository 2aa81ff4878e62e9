//! Reading the ids given on the command line of the library exporter.
use vstd::prelude::*;
use crate::num::{parse_i64, parse_i64_spec, parse_result, parse_uint, ParseIntError};
use crate::text::{ascii_cut, bytes_of, substr_ascii, starts_with};

verus! {

/// Why an id given on the command line could not be read.
#[derive(Debug, Clone, Copy, PartialEq, Eq, Structural)]
pub enum AmbiguousIdError {
    /// The number did not parse in the base it was given in.
    Parse(ParseIntError),
    /// Nothing tells whether the number is hexadecimal or decimal.
    UnknownBase,
}

/// An unsigned parse result as an id.
pub open spec fn unsigned(r: Result<nat, ParseIntError>) -> Result<u64, AmbiguousIdError> {
    match r {
        Ok(v) => Ok(v as u64),
        Err(e) => Err(AmbiguousIdError::Parse(e)),
    }
}

/// A signed parse result as an id: its 64 bits read unsigned.
pub open spec fn signed(r: Result<int, ParseIntError>) -> Result<u64, AmbiguousIdError> {
    match r {
        Ok(v) => Ok(v as i64 as u64),
        Err(e) => Err(AmbiguousIdError::Parse(e)),
    }
}

/// Whether `b` ends with the letter `i`.
pub open spec fn ends_with_i(b: Seq<u8>) -> bool {
    b.len() > 0 && b.last() == 105
}

/// The id that `b` denotes: hexadecimal after `0x`; decimal after `0d`, signed where it ends
/// in `i`; signed decimal where it ends in `i`; hexadecimal where it holds a non-digit;
/// decimal where it is longer than sixteen digits; else of unknown base.
pub open spec fn ambiguous_id(b: Seq<u8>) -> Result<u64, AmbiguousIdError> {
    if starts_with(b, seq![48u8, 120]) || starts_with(b, seq![48u8, 88]) {
        unsigned(parse_result(b.skip(2), 16, u64::MAX as nat))
    } else if starts_with(b, seq![48u8, 100]) || starts_with(b, seq![48u8, 68]) {
        let d = b.skip(2);
        if ends_with_i(d) {
            signed(parse_i64_spec(d.drop_last()))
        } else {
            unsigned(parse_result(d, 10, u64::MAX as nat))
        }
    } else if ends_with_i(b) {
        signed(parse_i64_spec(b.drop_last()))
    } else if !crate::text::all_digits(b) {
        unsigned(parse_result(b, 16, u64::MAX as nat))
    } else if b.len() > 16 {
        unsigned(parse_result(b, 10, u64::MAX as nat))
    } else {
        Err(AmbiguousIdError::UnknownBase)
    }
}

/// Parses an unsigned number in `radix`.
fn as_unsigned(s: &[u8], radix: u64) -> (r: Result<u64, AmbiguousIdError>)
    requires
        radix == 10 || radix == 16,
    ensures
        r == unsigned(parse_result(s@, radix as nat, u64::MAX as nat)),
{
    match parse_uint(s, radix, u64::MAX) {
        Ok(v) => Ok(v),
        Err(e) => Err(AmbiguousIdError::Parse(e)),
    }
}

/// Parses a signed decimal number, keeping its 64 bits.
fn as_signed(s: &str) -> (r: Result<u64, AmbiguousIdError>)
    ensures
        r == signed(parse_i64_spec(bytes_of(s))),
{
    match parse_i64(s) {
        Ok(v) => Ok(v as u64),
        Err(e) => Err(AmbiguousIdError::Parse(e)),
    }
}

/// Reads an id given on the command line, in the base its form tells.
pub fn parse_ambiguous_id(id: &str) -> (r: Result<u64, AmbiguousIdError>)
    ensures
        r == ambiguous_id(bytes_of(id)),
{
    let b = id.as_bytes();
    let n = b.len();
    if n >= 2 && b[0] == 48 && (b[1] == 120 || b[1] == 88) {
        proof { assert(b@.subrange(0, 2) =~= seq![48u8, b@[1]]); }
        let hex = vstd::slice::slice_subrange(b, 2, n);
        assert(hex@ =~= b@.skip(2));
        return as_unsigned(hex, 16);
    }
    proof {
        if starts_with(b@, seq![48u8, 120]) || starts_with(b@, seq![48u8, 88]) {
            assert(b@.subrange(0, 2)[1] == b@[1]);
            assert(b@.subrange(0, 2)[0] == b@[0]);
        }
    }
    if n >= 2 && b[0] == 48 && (b[1] == 100 || b[1] == 68) {
        proof { assert(b@.subrange(0, 2) =~= seq![48u8, b@[1]]); }
        if b[n - 1] == 105 && n > 2 {
            proof { assert(ascii_cut(b@, 2)); assert(ascii_cut(b@, n - 1)); }
            let dec = substr_ascii(id, 2, n - 1);
            assert(bytes_of(dec) =~= b@.skip(2).drop_last());
            return as_signed(dec);
        }
        let dec = vstd::slice::slice_subrange(b, 2, n);
        assert(dec@ =~= b@.skip(2));
        return as_unsigned(dec, 10);
    }
    proof {
        if starts_with(b@, seq![48u8, 100]) || starts_with(b@, seq![48u8, 68]) {
            assert(b@.subrange(0, 2)[1] == b@[1]);
            assert(b@.subrange(0, 2)[0] == b@[0]);
        }
    }
    if n > 0 && b[n - 1] == 105 {
        proof { assert(ascii_cut(b@, n - 1)); assert(ascii_cut(b@, 0)); }
        let dec = substr_ascii(id, 0, n - 1);
        assert(bytes_of(dec) =~= b@.drop_last());
        return as_signed(dec);
    }
    if !crate::text::all_digit_bytes(b) {
        return as_unsigned(b, 16);
    }
    if n > 16 {
        return as_unsigned(b, 10);
    }
    Err(AmbiguousIdError::UnknownBase)
}

/// Whether a byte is ASCII whitespace.
pub open spec fn is_ascii_space(c: u8) -> bool {
    c == 32 || c == 9 || c == 10 || c == 12 || c == 13
}

/// `b` without its leading ASCII whitespace.
pub open spec fn trim_start(b: Seq<u8>) -> Seq<u8>
    decreases b.len(),
{
    if b.len() > 0 && is_ascii_space(b[0]) {
        trim_start(b.drop_first())
    } else {
        b
    }
}

/// `b` without its trailing ASCII whitespace.
pub open spec fn trim_end(b: Seq<u8>) -> Seq<u8>
    decreases b.len(),
{
    if b.len() > 0 && is_ascii_space(b.last()) {
        trim_end(b.drop_last())
    } else {
        b
    }
}

/// `b` without its leading and trailing ASCII whitespace.
pub open spec fn trimmed(b: Seq<u8>) -> Seq<u8> {
    trim_end(trim_start(b))
}

/// `s` without its leading and trailing ASCII whitespace.
pub fn trim_ascii(s: &str) -> (r: &str)
    ensures
        bytes_of(r) == trimmed(bytes_of(s)),
{
    let b = s.as_bytes();
    let n = b.len();
    let mut a: usize = 0;
    assert(b@.skip(0) =~= b@);
    while a < n && (b[a] == 32 || b[a] == 9 || b[a] == 10 || b[a] == 12 || b[a] == 13)
        invariant
            a <= n,
            n == b@.len(),
            trim_start(b@) == trim_start(b@.skip(a as int)),
            forall|i: int| 0 <= i < a ==> is_ascii_space(#[trigger] b@[i]),
        decreases n - a,
    {
        assert(b@.skip(a as int).drop_first() =~= b@.skip(a + 1));
        a = a + 1;
    }
    assert(trim_start(b@.skip(a as int)) == b@.skip(a as int));
    assert(b@.skip(a as int) =~= b@.subrange(a as int, n as int));
    let mut z: usize = n;
    while z > a && (b[z - 1] == 32 || b[z - 1] == 9 || b[z - 1] == 10 || b[z - 1] == 12 || b[z - 1] == 13)
        invariant
            a <= z <= n,
            n == b@.len(),
            trim_end(b@.subrange(a as int, n as int)) == trim_end(b@.subrange(a as int, z as int)),
            forall|i: int| z <= i < n ==> is_ascii_space(#[trigger] b@[i]),
        decreases z - a,
    {
        assert(b@.subrange(a as int, z as int).drop_last() =~= b@.subrange(a as int, z - 1));
        z = z - 1;
    }
    proof {
        assert(ascii_cut(b@, a as int));
        assert(ascii_cut(b@, z as int));
    }
    substr_ascii(s, a, z)
}

/// The pieces of `b` between commas.
pub open spec fn comma_pieces(b: Seq<u8>) -> Seq<Seq<u8>>
    decreases b.len(),
{
    match crate::text::find(b, 44) {
        Some(i) => if 0 <= i < b.len() {
            seq![b.take(i)] + comma_pieces(b.skip(i + 1))
        } else {
            seq![b]
        },
        None => seq![b],
    }
}

/// The pieces of every argument, in order.
pub open spec fn argument_pieces(args: Seq<Seq<u8>>) -> Seq<Seq<u8>>
    decreases args.len(),
{
    if args.len() == 0 {
        Seq::empty()
    } else {
        argument_pieces(args.drop_last()) + comma_pieces(args.last())
    }
}

/// The ids that trimmed pieces denote, or the error of the first that denotes none.
pub open spec fn piece_ids(ps: Seq<Seq<u8>>) -> Result<Seq<u64>, AmbiguousIdError>
    decreases ps.len(),
{
    if ps.len() == 0 {
        Ok(Seq::empty())
    } else {
        match piece_ids(ps.drop_last()) {
            Err(e) => Err(e),
            Ok(v) => match ambiguous_id(trimmed(ps.last())) {
                Ok(x) => Ok(v.push(x)),
                Err(e) => Err(e),
            },
        }
    }
}

/// Once a piece fails, later pieces do not change the error.
proof fn lemma_piece_ids_error_stays(a: Seq<Seq<u8>>, b: Seq<Seq<u8>>)
    requires
        piece_ids(a) is Err,
    ensures
        piece_ids(a + b) == piece_ids(a),
    decreases b.len(),
{
    if b.len() > 0 {
        lemma_piece_ids_error_stays(a, b.drop_last());
        assert((a + b).drop_last() =~= a + b.drop_last());
    }
}

/// The pieces that start where a comma-free stretch ends in a comma.
proof fn lemma_comma_step(b: Seq<u8>, start: int, i: int)
    requires
        0 <= start <= i < b.len(),
        b[i] == 44,
        forall|j: int| start <= j < i ==> b[j] != 44,
    ensures
        comma_pieces(b.skip(start)) == seq![b.subrange(start, i)] + comma_pieces(b.skip(i + 1)),
{
    let t = b.skip(start);
    crate::text::lemma_find_from_props(t, 44, 0);
    assert(t[i - start] == 44);
    match crate::text::find(t, 44) {
        Some(k) => {
            if k < i - start {
                assert(t[k] == b[start + k]);
            }
            if k > i - start {
                assert(t[i - start] == 44);
            }
            assert(k == i - start);
        },
        None => {
            assert(t[i - start] != 44);
        },
    }
    assert(t.take(i - start) =~= b.subrange(start, i));
    assert(t.skip(i - start + 1) =~= b.skip(i + 1));
}

/// The last piece: a stretch with no comma.
proof fn lemma_comma_last(b: Seq<u8>, start: int)
    requires
        0 <= start <= b.len(),
        forall|j: int| start <= j < b.len() ==> b[j] != 44,
    ensures
        comma_pieces(b.skip(start)) == seq![b.skip(start)],
{
    let t = b.skip(start);
    crate::text::lemma_find_from_props(t, 44, 0);
    match crate::text::find(t, 44) {
        Some(k) => {
            assert(t[k] == b[start + k]);
        },
        None => {},
    }
}

/// The bytes of each argument.
pub open spec fn argument_bytes(passed: Seq<String>) -> Seq<Seq<u8>> {
    passed.map_values(|s: String| vstd::utf8::encode_utf8(s@))
}

/// Reads the ids given on the command line: each argument may hold several, separated by
/// commas and surrounded by whitespace. The first piece that denotes no id gives its error,
/// which the caller reports; a piece that reads as no id does not stop the program here.
#[verifier::rlimit(40)]
pub fn parse_ambiguous_ids(passed: Vec<String>) -> (r: Result<Vec<u64>, AmbiguousIdError>)
    ensures
        match piece_ids(argument_pieces(argument_bytes(passed@))) {
            Ok(v) => r matches Ok(w) && w@ == v,
            Err(e) => r == Err::<Vec<u64>, AmbiguousIdError>(e),
        },
{
    let ghost args = argument_bytes(passed@);
    let mut out: Vec<u64> = Vec::new();
    let mut k: usize = 0;
    while k < passed.len()
        invariant
            k <= passed@.len(),
            args == argument_bytes(passed@),
            piece_ids(argument_pieces(args.take(k as int))) == Ok::<Seq<u64>, AmbiguousIdError>(out@),
        decreases passed@.len() - k,
    {
        let given = passed[k].as_str();
        let b = given.as_bytes();
        let n = b.len();
        let ghost before = argument_pieces(args.take(k as int));
        proof {
            assert(args[k as int] == b@);
            assert(args.take(k + 1).drop_last() =~= args.take(k as int));
            assert(args.take(k + 1).last() == b@);
            assert(b@.skip(0) =~= b@);
            assert(argument_pieces(args.take(k + 1)) =~= before + comma_pieces(b@));
            lemma_argument_pieces_prefix(args, k as int);
        }
        let mut start: usize = 0;
        let mut i: usize = 0;
        let ghost mut done: Seq<Seq<u8>> = Seq::empty();
        while i < n
            invariant
                n == b@.len(),
                b@ == bytes_of(given),
                start <= i <= n,
                start == 0 || b@[start - 1] == 44,
                forall|j: int| start <= j < i ==> b@[j] != 44,
                k < passed@.len(),
                args == argument_bytes(passed@),
                argument_pieces(args) == before + comma_pieces(b@) + argument_pieces_from(args, k + 1),
                comma_pieces(b@) == done + comma_pieces(b@.skip(start as int)),
                piece_ids(before + done) == Ok::<Seq<u64>, AmbiguousIdError>(out@),
            decreases n - i,
        {
            if b[i] == 44 {
                proof {
                    assert(ascii_cut(b@, start as int));
                    assert(ascii_cut(b@, i as int));
                    lemma_comma_step(b@, start as int, i as int);
                }
                let piece = substr_ascii(given, start, i);
                let trimmed_piece = trim_ascii(piece);
                let ghost p = b@.subrange(start as int, i as int);
                proof {
                    assert(bytes_of(piece) == p);
                    assert((before + done).push(p).drop_last() =~= before + done);
                }
                match parse_ambiguous_id(trimmed_piece) {
                    Ok(x) => {
                        out.push(x);
                    },
                    Err(e) => {
                        proof {
                            let full = argument_pieces(args);
                            let so_far = (before + done).push(p);
                            assert(piece_ids(so_far) == Err::<Seq<u64>, AmbiguousIdError>(e));
                            assert(comma_pieces(b@) == done + seq![p] + comma_pieces(b@.skip(i + 1)));
                            let rest_here = comma_pieces(b@.skip(i + 1));
                            let later = argument_pieces_from(args, k + 1);
                            assert(full =~= so_far + (rest_here + later));
                            lemma_piece_ids_error_stays(so_far, rest_here + later);
                        }
                        return Err(e);
                    },
                }
                proof {
                    assert(comma_pieces(b@) =~= done.push(p) + comma_pieces(b@.skip(i + 1)));
                    assert(before + done.push(p) =~= (before + done).push(p));
                    done = done.push(p);
                }
                start = i + 1;
            }
            i = i + 1;
        }
        proof {
            assert(ascii_cut(b@, start as int));
            assert(ascii_cut(b@, n as int));
            lemma_comma_last(b@, start as int);
        }
        let piece = substr_ascii(given, start, n);
        let ghost p = b@.subrange(start as int, n as int);
        proof {
            assert(b@.skip(start as int) =~= p);
            assert(comma_pieces(b@) =~= done.push(p));
            assert((before + done).push(p).drop_last() =~= before + done);
            assert(argument_pieces(args.take(k + 1)) =~= before + done.push(p));
            assert(before + done.push(p) =~= (before + done).push(p));
        }
        match parse_ambiguous_id(trim_ascii(piece)) {
            Ok(x) => {
                out.push(x);
            },
            Err(e) => {
                proof {
                    let so_far = (before + done).push(p);
                    let later = argument_pieces_from(args, k + 1);
                    assert(argument_pieces(args) =~= so_far + later);
                    lemma_piece_ids_error_stays(so_far, later);
                }
                return Err(e);
            },
        }
        k = k + 1;
    }
    proof {
        assert(args.take(passed@.len() as int) =~= args);
    }
    Ok(out)
}

/// The pieces of the arguments from index `k` on.
pub open spec fn argument_pieces_from(args: Seq<Seq<u8>>, k: int) -> Seq<Seq<u8>>
    decreases args.len() - k,
{
    if k < 0 || k >= args.len() {
        Seq::empty()
    } else {
        comma_pieces(args[k]) + argument_pieces_from(args, k + 1)
    }
}

/// The pieces of all arguments are those of the first `k + 1`, then those after.
proof fn lemma_argument_pieces_prefix(args: Seq<Seq<u8>>, k: int)
    requires
        0 <= k < args.len(),
    ensures
        argument_pieces(args) == argument_pieces(args.take(k + 1)) + argument_pieces_from(args, k + 1),
    decreases args.len(),
{
    if k + 1 == args.len() {
        assert(args.take(k + 1) =~= args);
        assert(argument_pieces(args) + Seq::<Seq<u8>>::empty() =~= argument_pieces(args));
    } else {
        let d = args.drop_last();
        lemma_argument_pieces_prefix(d, k);
        assert(d.take(k + 1) =~= args.take(k + 1));
        lemma_pieces_from_split(args, k + 1);
        lemma_pieces_from_drop_last(args, k + 1);
        assert(argument_pieces(args) =~= argument_pieces(d) + comma_pieces(args.last()));
    }
}

/// Dropping the last argument drops its pieces from the end.
proof fn lemma_pieces_from_drop_last(args: Seq<Seq<u8>>, k: int)
    requires
        0 <= k < args.len(),
    ensures
        argument_pieces_from(args, k) == argument_pieces_from(args.drop_last(), k) + comma_pieces(args.last()),
    decreases args.len() - k,
{
    if k == args.len() - 1 {
        assert(argument_pieces_from(args, k + 1) == Seq::<Seq<u8>>::empty());
        assert(argument_pieces_from(args.drop_last(), k) == Seq::<Seq<u8>>::empty());
        assert(comma_pieces(args[k]) + Seq::<Seq<u8>>::empty() =~= comma_pieces(args[k]));
        assert(Seq::<Seq<u8>>::empty() + comma_pieces(args.last()) =~= comma_pieces(args.last()));
    } else {
        lemma_pieces_from_drop_last(args, k + 1);
        assert(args.drop_last()[k] == args[k]);
        assert(argument_pieces_from(args, k) =~= comma_pieces(args[k]) + argument_pieces_from(args, k + 1));
        assert(argument_pieces_from(args.drop_last(), k) =~= comma_pieces(args[k]) + argument_pieces_from(args.drop_last(), k + 1));
    }
}

/// The pieces from argument `k` on: those of argument `k`, then those after it.
proof fn lemma_pieces_from_split(args: Seq<Seq<u8>>, k: int)
    requires
        0 <= k < args.len(),
    ensures
        argument_pieces_from(args, k) == comma_pieces(args[k]) + argument_pieces_from(args, k + 1),
{
}

/// Where the exporter writes.
#[derive(Debug, Clone, PartialEq, Eq)]
pub enum Destination {
    /// The standard output.
    Stdout,
    /// The file at a path.
    Path(String),
}

impl Destination {
    /// The destination a command-line argument names: `-` for the standard output, anything
    /// else a path.
    pub fn from_argument(s: &str) -> (r: Destination)
        ensures
            s@ == "-"@ ==> r is Stdout,
            s@ != "-"@ ==> (r matches Destination::Path(p) && p@ == s@),
    {
        if crate::text::str_eq(s, "-") {
            Destination::Stdout
        } else {
            Destination::Path(String::from_str(s))
        }
    }

    /// Whether this is the standard output.
    pub fn is_stdout(&self) -> (r: bool)
        ensures
            r == (self is Stdout),
    {
        match self {
            Destination::Stdout => true,
            Destination::Path(_) => false,
        }
    }
}

impl Default for Destination {
    fn default() -> (r: Self)
        ensures
            r is Stdout,
    {
        Destination::Stdout
    }
}

/// What the exporter is asked to do.
#[derive(Debug, Clone)]
pub enum Command {
    /// Write the unpacked bytes of a library file.
    Unpack {
        /// The library file; the current user's where absent.
        path: Option<String>,
        /// Where to write.
        output: Option<Destination>,
    },
    /// Write the decoded library, keeping only the entities of the ids given, where given.
    Export {
        path: Option<String>,
        output: Option<Destination>,
        /// Ids in decimal or hexadecimal, comma-separated or one per argument.
        ids: Option<Vec<String>>,
    },
    /// Print how much each library file under the paths grows when unpacked.
    Ratios {
        paths: Option<Vec<String>>,
    },
}

/// The exporter's command line.
#[derive(Debug, Clone)]
pub struct Arguments {
    pub command: Command,
}

} // verus!
