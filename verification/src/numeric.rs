//! Decimal text for byte values: rendering a cell as decimal digits for the
//! decimal-output instruction, and parsing a line of text as an unsigned
//! decimal integer for the numeric-input instruction.

use vstd::prelude::*;

verus! {

/// The decimal digit characters of `v`, most significant first, with no
/// leading zeros (`0` itself is the single character `'0'`).
pub open spec fn decimal_digits(v: u8) -> Seq<u8> {
    if v < 10 {
        seq![(48 + v) as u8]
    } else if v < 100 {
        seq![(48 + v / 10) as u8, (48 + v % 10) as u8]
    } else {
        seq![(48 + v / 100) as u8, (48 + (v / 10) % 10) as u8, (48 + v % 10) as u8]
    }
}

/// Renders `v` as decimal digit characters.
pub fn format_decimal(v: u8) -> (r: Vec<u8>)
    ensures
        r@ == decimal_digits(v),
{
    let mut out: Vec<u8> = Vec::new();
    if v >= 100 {
        out.push(48 + v / 100);
    }
    if v >= 10 {
        out.push(48 + (v / 10) % 10);
    }
    out.push(48 + v % 10);
    proof {
        assert(out@ =~= decimal_digits(v));
    }
    out
}

/// True of the six one-byte (ASCII) whitespace characters (space, tab, line
/// feed, vertical tab, form feed, carriage return).
pub open spec fn is_ascii_space(b: u8) -> bool {
    b == 32 || (9 <= b && b <= 13)
}

/// True of the decimal digit characters.
pub open spec fn is_digit(b: u8) -> bool {
    48 <= b && b <= 57
}

/// The length in bytes of the white-space character that `s` starts with: 1
/// for the ASCII whitespace characters, 2 or 3 for the UTF-8 encodings of
/// the remaining Unicode white-space characters (next line, no-break space,
/// ogham space mark, the en-quad through hair-space range, the line and
/// paragraph separators, narrow no-break space, medium mathematical space,
/// ideographic space), and 0 when `s` starts with anything else.
pub open spec fn space_prefix_len(s: Seq<u8>) -> int {
    if s.len() >= 1 && is_ascii_space(s[0]) {
        1
    } else if s.len() >= 2 && s[0] == 0xC2 && (s[1] == 0x85 || s[1] == 0xA0) {
        2
    } else if s.len() >= 3 && s[0] == 0xE1 && s[1] == 0x9A && s[2] == 0x80 {
        3
    } else if s.len() >= 3 && s[0] == 0xE2 && s[1] == 0x80 && ((0x80 <= s[2] && s[2] <= 0x8A)
        || s[2] == 0xA8 || s[2] == 0xA9 || s[2] == 0xAF) {
        3
    } else if s.len() >= 3 && s[0] == 0xE2 && s[1] == 0x81 && s[2] == 0x9F {
        3
    } else if s.len() >= 3 && s[0] == 0xE3 && s[1] == 0x80 && s[2] == 0x80 {
        3
    } else {
        0
    }
}

/// The length in bytes of the white-space character that `s` ends with, by
/// the same table as [`space_prefix_len`], and 0 when `s` ends with anything
/// else. On well-formed UTF-8 a lead byte never doubles as a continuation
/// byte, so matching the final bytes finds exactly the final character.
pub open spec fn space_suffix_len(s: Seq<u8>) -> int {
    let n = s.len() as int;
    if n >= 1 && is_ascii_space(s[n - 1]) {
        1
    } else if n >= 2 && s[n - 2] == 0xC2 && (s[n - 1] == 0x85 || s[n - 1] == 0xA0) {
        2
    } else if n >= 3 && s[n - 3] == 0xE1 && s[n - 2] == 0x9A && s[n - 1] == 0x80 {
        3
    } else if n >= 3 && s[n - 3] == 0xE2 && s[n - 2] == 0x80 && ((0x80 <= s[n - 1] && s[n - 1]
        <= 0x8A) || s[n - 1] == 0xA8 || s[n - 1] == 0xA9 || s[n - 1] == 0xAF) {
        3
    } else if n >= 3 && s[n - 3] == 0xE2 && s[n - 2] == 0x81 && s[n - 1] == 0x9F {
        3
    } else if n >= 3 && s[n - 3] == 0xE3 && s[n - 2] == 0x80 && s[n - 1] == 0x80 {
        3
    } else {
        0
    }
}

/// A white-space character's length never exceeds the text it was found in.
proof fn lemma_space_len_bounds(s: Seq<u8>)
    ensures
        0 <= space_prefix_len(s) <= s.len(),
        0 <= space_suffix_len(s) <= s.len(),
{
}

/// `s` without its leading whitespace: the Unicode white-space characters,
/// as trimming text removes them, taken byte by byte over their UTF-8
/// encodings.
pub open spec fn trim_start(s: Seq<u8>) -> Seq<u8>
    decreases s.len(),
    via trim_start_decreases
{
    if space_prefix_len(s) > 0 {
        trim_start(s.skip(space_prefix_len(s)))
    } else {
        s
    }
}

#[via_fn]
proof fn trim_start_decreases(s: Seq<u8>) {
    lemma_space_len_bounds(s);
}

/// `s` without its trailing whitespace, by the same character table as
/// [`trim_start`].
pub open spec fn trim_end(s: Seq<u8>) -> Seq<u8>
    decreases s.len(),
    via trim_end_decreases
{
    if space_suffix_len(s) > 0 {
        trim_end(s.take(s.len() - space_suffix_len(s)))
    } else {
        s
    }
}

#[via_fn]
proof fn trim_end_decreases(s: Seq<u8>) {
    lemma_space_len_bounds(s);
}

/// `s` without leading and trailing whitespace.
pub open spec fn trimmed(s: Seq<u8>) -> Seq<u8> {
    trim_end(trim_start(s))
}

/// The digit characters of a trimmed numeral: everything after one optional
/// leading plus sign.
pub open spec fn digits_part(s: Seq<u8>) -> Seq<u8> {
    if s.len() > 0 && s[0] == 43 {
        s.drop_first()
    } else {
        s
    }
}

/// The numeric value of digit characters read in base ten, most significant
/// first.
pub open spec fn decimal_value(s: Seq<u8>) -> int
    decreases s.len(),
{
    if s.len() == 0 {
        0
    } else {
        decimal_value(s.drop_last()) * 10 + (s.last() - 48)
    }
}

/// True when every character of `s` is a decimal digit.
pub open spec fn all_digits(s: Seq<u8>) -> bool {
    forall|i: int| 0 <= i < s.len() ==> is_digit(#[trigger] s[i])
}

/// A line the numeric-input instruction accepts: after trimming surrounding
/// whitespace (any Unicode white-space characters) and one optional plus
/// sign, one or more decimal digits whose value fits in 64 bits.
pub open spec fn is_valid_u64_text(s: Seq<u8>) -> bool {
    let d = digits_part(trimmed(s));
    &&& d.len() > 0
    &&& all_digits(d)
    &&& decimal_value(d) <= u64::MAX
}

/// The value of a valid numeral line.
pub open spec fn numeric_value(s: Seq<u8>) -> int {
    decimal_value(digits_part(trimmed(s)))
}

/// Digit characters have a value of at least zero.
pub proof fn lemma_decimal_value_nonneg(s: Seq<u8>)
    requires
        all_digits(s),
    ensures
        decimal_value(s) >= 0,
    decreases s.len(),
{
    if s.len() > 0 {
        let t = s.drop_last();
        assert forall|i: int| 0 <= i < t.len() implies is_digit(#[trigger] t[i]) by {
            assert(t[i] == s[i]);
        }
        lemma_decimal_value_nonneg(t);
    }
}

/// Dropping trailing digits never increases the value.
pub proof fn lemma_decimal_value_prefix(s: Seq<u8>, k: int)
    requires
        all_digits(s),
        0 <= k <= s.len(),
    ensures
        decimal_value(s.take(k)) <= decimal_value(s),
    decreases s.len(),
{
    if k == s.len() {
        assert(s.take(k) =~= s);
    } else {
        let t = s.drop_last();
        assert forall|i: int| 0 <= i < t.len() implies is_digit(#[trigger] t[i]) by {
            assert(t[i] == s[i]);
        }
        lemma_decimal_value_prefix(t, k);
        lemma_decimal_value_nonneg(t);
        assert(t.take(k) =~= s.take(k));
    }
}

/// Whether `b` is a one-byte (ASCII) whitespace character.
fn is_ascii_space_byte(b: u8) -> (r: bool)
    ensures
        r == is_ascii_space(b),
{
    b == 32 || (b >= 9 && b <= 13)
}

/// The length of the white-space character that the tail of `s` starting at
/// `i` begins with, 0 if it begins with anything else.
fn space_len_at(s: &[u8], i: usize) -> (k: usize)
    requires
        i <= s@.len(),
    ensures
        k == space_prefix_len(s@.skip(i as int)),
        k <= s@.len() - i,
{
    let n = s.len();
    let ghost t = s@.skip(i as int);
    proof {
        assert(t.len() == n - i);
        assert forall|j: int| 0 <= j < t.len() implies t[j] == s@[i + j] by {}
    }
    if n - i >= 1 && is_ascii_space_byte(s[i]) {
        return 1;
    }
    if n - i >= 2 && s[i] == 0xC2 && (s[i + 1] == 0x85 || s[i + 1] == 0xA0) {
        return 2;
    }
    if n - i >= 3 {
        let b0: u8 = s[i];
        let b1: u8 = s[i + 1];
        let b2: u8 = s[i + 2];
        if b0 == 0xE1 && b1 == 0x9A && b2 == 0x80 {
            return 3;
        }
        if b0 == 0xE2 && b1 == 0x80 && ((b2 >= 0x80 && b2 <= 0x8A) || b2 == 0xA8 || b2 == 0xA9
            || b2 == 0xAF) {
            return 3;
        }
        if b0 == 0xE2 && b1 == 0x81 && b2 == 0x9F {
            return 3;
        }
        if b0 == 0xE3 && b1 == 0x80 && b2 == 0x80 {
            return 3;
        }
    }
    0
}

/// The length of the white-space character that `s[lo..hi]` ends with, 0 if
/// it ends with anything else.
fn space_suffix_at(s: &[u8], lo: usize, hi: usize) -> (k: usize)
    requires
        lo <= hi <= s@.len(),
    ensures
        k == space_suffix_len(s@.subrange(lo as int, hi as int)),
        k <= hi - lo,
{
    let ghost t = s@.subrange(lo as int, hi as int);
    proof {
        assert(t.len() == hi - lo);
        assert forall|j: int| 0 <= j < t.len() implies t[j] == s@[lo + j] by {}
    }
    if hi - lo >= 1 && is_ascii_space_byte(s[hi - 1]) {
        return 1;
    }
    if hi - lo >= 2 && s[hi - 2] == 0xC2 && (s[hi - 1] == 0x85 || s[hi - 1] == 0xA0) {
        return 2;
    }
    if hi - lo >= 3 {
        let b0: u8 = s[hi - 3];
        let b1: u8 = s[hi - 2];
        let b2: u8 = s[hi - 1];
        if b0 == 0xE1 && b1 == 0x9A && b2 == 0x80 {
            return 3;
        }
        if b0 == 0xE2 && b1 == 0x80 && ((b2 >= 0x80 && b2 <= 0x8A) || b2 == 0xA8 || b2 == 0xA9
            || b2 == 0xAF) {
            return 3;
        }
        if b0 == 0xE2 && b1 == 0x81 && b2 == 0x9F {
            return 3;
        }
        if b0 == 0xE3 && b1 == 0x80 && b2 == 0x80 {
            return 3;
        }
    }
    0
}

/// Parses a line of text as an unsigned decimal integer, as the
/// numeric-input instruction reads it: whitespace around the numeral (any
/// Unicode white-space character) and one leading plus sign are accepted;
/// anything else, an empty numeral, or a value beyond 64 bits is rejected.
pub fn parse_decimal(s: &[u8]) -> (r: Option<u64>)
    ensures
        r is Some <==> is_valid_u64_text(s@),
        r matches Some(v) ==> v == numeric_value(s@),
{
    let n = s.len();
    proof {
        assert(s@.subrange(0, n as int) =~= s@);
    }

    let mut lo: usize = 0;
    loop
        invariant_except_break
            0 <= lo <= n,
            n == s@.len(),
            trim_start(s@) == trim_start(s@.skip(lo as int)),
        ensures
            0 <= lo <= n,
            n == s@.len(),
            trim_start(s@) == s@.subrange(lo as int, n as int),
        decreases n - lo,
    {
        let k = space_len_at(s, lo);
        if k == 0 {
            proof {
                assert(s@.skip(lo as int) =~= s@.subrange(lo as int, n as int));
            }
            break;
        }
        proof {
            assert(s@.skip(lo as int).skip(k as int) =~= s@.skip((lo + k) as int));
        }
        lo += k;
    }

    let mut hi: usize = n;
    loop
        invariant_except_break
            lo <= hi <= n,
            n == s@.len(),
            trim_start(s@) == s@.subrange(lo as int, n as int),
            trim_end(s@.subrange(lo as int, n as int)) == trim_end(s@.subrange(lo as int, hi as int)),
        ensures
            lo <= hi <= n,
            n == s@.len(),
            trimmed(s@) == s@.subrange(lo as int, hi as int),
        decreases hi,
    {
        let k = space_suffix_at(s, lo, hi);
        if k == 0 {
            break;
        }
        proof {
            assert(s@.subrange(lo as int, hi as int).take((hi - lo - k) as int) =~= s@.subrange(
                lo as int,
                (hi - k) as int,
            ));
        }
        hi -= k;
    }

    let mut start = lo;
    if start < hi && s[start] == 43 {
        start += 1;
        proof {
            assert(s@.subrange(lo as int, hi as int).drop_first() =~= s@.subrange(
                lo + 1 as int,
                hi as int,
            ));
        }
    }
    let ghost d: Seq<u8> = digits_part(trimmed(s@));
    proof {
        assert(d == s@.subrange(start as int, hi as int));
    }

    if start == hi {
        return None;
    }

    let mut acc: u64 = 0;
    let mut i = start;
    while i < hi
        invariant
            start <= i <= hi <= n,
            n == s@.len(),
            d == s@.subrange(start as int, hi as int),
            d == digits_part(trimmed(s@)),
            all_digits(s@.subrange(start as int, i as int)),
            acc == decimal_value(s@.subrange(start as int, i as int)),
        decreases hi - i,
    {
        let b: u8 = s[i];
        if b < 48 || b > 57 {
            proof {
                assert(d[i - start] == s@[i as int]);
                assert(!all_digits(d));
            }
            return None;
        }
        let dd: u64 = (b - 48) as u64;
        proof {
            assert(s@.subrange(start as int, i + 1 as int).drop_last() =~= s@.subrange(
                start as int,
                i as int,
            ));
            assert(s@.subrange(start as int, i + 1 as int) =~= d.take(i + 1 - start as int));
        }
        if acc > (u64::MAX - dd) / 10 {
            proof {
                if is_valid_u64_text(s@) {
                    lemma_decimal_value_prefix(d, i + 1 - start as int);
                    assert(decimal_value(d.take(i + 1 - start as int)) == acc * 10 + dd);
                    assert(acc * 10 + dd > u64::MAX) by (nonlinear_arith)
                        requires
                            acc > (u64::MAX - dd) / 10,
                            0 <= dd <= 9,
                            acc >= 0,
                    ;
                    assert(false);
                }
            }
            return None;
        }
        proof {
            assert(acc * 10 + dd <= u64::MAX) by (nonlinear_arith)
                requires
                    acc <= (u64::MAX - dd) / 10,
                    0 <= dd <= 9,
                    acc >= 0,
            ;
        }
        acc = acc * 10 + dd;
        proof {
            assert(all_digits(s@.subrange(start as int, i + 1 as int)));
        }
        i += 1;
    }

    proof {
        assert(s@.subrange(start as int, i as int) =~= d);
    }
    Some(acc)
}

} // verus!
