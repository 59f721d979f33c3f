//! Numbers as decimal texts write them, and the whole numbers below them.

use crate::text;
use vstd::prelude::*;
use vstd::string::*;

verus! {

/// The value of a decimal digit; any other character counts as none.
pub open spec fn digit_of(c: char) -> int {
    if '0' <= c <= '9' {
        c as int - '0' as int
    } else {
        0
    }
}

/// The number that the first `n` of some digits write, with zeros for those that are
/// not there.
pub open spec fn leading(digits: Seq<char>, n: int) -> nat
    decreases n,
{
    if n <= 0 {
        0
    } else {
        (10 * leading(digits, n - 1) + if n <= digits.len() {
            digit_of(digits[n - 1])
        } else {
            0
        }) as nat
    }
}

/// Whether any of some digits behind the first `n` is not zero.
pub open spec fn anything_behind(digits: Seq<char>, n: int) -> bool {
    exists|i: int| n <= i < digits.len() && 0 <= i && digit_of(#[trigger] digits[i]) != 0
}

/// The place of a character in a text, or its length where it is not there.
pub open spec fn place_of(s: Seq<char>, c: char) -> int
    decreases s.len(),
{
    if s.len() == 0 || s[0] == c {
        0
    } else {
        1 + place_of(s.drop_first(), c)
    }
}

/// The largest exponent that counts. A double has one of three digits at most.
pub const MAX_EXPONENT: i64 = 9999;

/// The size of an exponent, at most [`MAX_EXPONENT`].
pub open spec fn exponent_size(s: Seq<char>) -> int
    decreases s.len(),
{
    if s.len() == 0 {
        0
    } else {
        let value = 10 * exponent_size(s.drop_last()) + digit_of(s.last());
        if value > MAX_EXPONENT {
            MAX_EXPONENT as int
        } else {
            value
        }
    }
}

/// The exponent that stands behind an `e`, with its sign.
pub open spec fn exponent_of(s: Seq<char>) -> int {
    if s.len() > 0 && s[0] == '-' {
        -exponent_size(s.drop_first())
    } else if s.len() > 0 && s[0] == '+' {
        exponent_size(s.drop_first())
    } else {
        exponent_size(s)
    }
}

/// The largest whole number that is not above what a text without a sign writes, or the
/// smallest that is not below it.
pub open spec fn rounded(s: Seq<char>, up: bool) -> int {
    let end = place_of(s, 'e');
    let mantissa = s.take(end);
    let exponent = if end < s.len() {
        exponent_of(s.skip(end + 1))
    } else {
        0
    };
    let dot = place_of(mantissa, '.');
    let digits = mantissa.take(dot) + mantissa.skip(if dot < mantissa.len() {
        dot + 1
    } else {
        dot
    });
    let whole = leading(digits, dot + exponent) as int;
    if up && anything_behind(digits, dot + exponent) {
        whole + 1
    } else {
        whole
    }
}

/// The largest whole number that is not above what a text writes: digits with a point
/// among them, a sign before them and an exponent behind, as far as they are there.
pub open spec fn floor_spec(s: Seq<char>) -> int {
    if s.len() > 0 && s[0] == '-' {
        -rounded(s.drop_first(), true)
    } else {
        rounded(s, false)
    }
}

/// The smallest whole number that is not below what a text writes.
pub open spec fn ceil_spec(s: Seq<char>) -> int {
    if s.len() > 0 && s[0] == '-' {
        -rounded(s.drop_first(), false)
    } else {
        rounded(s, true)
    }
}

/// The nearest number that fits.
pub open spec fn clamped(n: int) -> i64 {
    if n < i64::MIN {
        i64::MIN
    } else if n > i64::MAX {
        i64::MAX
    } else {
        n as i64
    }
}

/// The value of a decimal digit.
fn read_digit(c: char) -> (r: u64)
    ensures
        r == digit_of(c),
        r <= 9,
{
    if '0' <= c && c <= '9' {
        (c as u8 - '0' as u8) as u64
    } else {
        0
    }
}

/// Characters end somewhere.
proof fn lemma_place(s: Seq<char>, c: char)
    ensures
        0 <= place_of(s, c) <= s.len(),
    decreases s.len(),
{
    if s.len() > 0 && s[0] != c {
        lemma_place(s.drop_first(), c);
    }
}

/// The place of a character in a part of a text.
fn find(v: &Vec<char>, from: usize, to: usize, c: char) -> (r: usize)
    requires
        from <= to <= v@.len(),
    ensures
        from <= r <= to,
        r - from == place_of(v@.subrange(from as int, to as int), c),
{
    let mut at: usize = from;
    let ghost whole = v@.subrange(from as int, to as int);
    while at < to && v[at] != c
        invariant
            from <= at <= to <= v@.len(),
            whole == v@.subrange(from as int, to as int),
            place_of(whole, c) == at - from + place_of(v@.subrange(at as int, to as int), c),
        decreases to - at,
    {
        proof {
            let rest = v@.subrange(at as int, to as int);
            assert(rest[0] == v@[at as int]);
            assert(rest.drop_first() =~= v@.subrange(at + 1, to as int));
        }
        at = at + 1;
    }
    proof {
        let rest = v@.subrange(at as int, to as int);
        if at < to {
            assert(rest[0] == v@[at as int]);
        }
    }
    at
}

/// The exponent in a part of a text.
fn read_exponent(v: &Vec<char>, from: usize) -> (r: i64)
    requires
        from <= v@.len(),
    ensures
        r == exponent_of(v@.skip(from as int)),
        -MAX_EXPONENT <= r <= MAX_EXPONENT,
{
    let ghost s = v@.skip(from as int);
    let negative = from < v.len() && v[from] == '-';
    let signed = negative || (from < v.len() && v[from] == '+');
    let start: usize = if signed {
        from + 1
    } else {
        from
    };
    let ghost digits = v@.skip(start as int);
    proof {
        if from < v@.len() {
            assert(s[0] == v@[from as int]);
        }
        if signed {
            assert(s.drop_first() =~= digits);
        }
        assert(digits.take(0) =~= Seq::empty());
    }
    let mut value: i64 = 0;
    let mut i: usize = start;
    while i < v.len()
        invariant
            start <= i <= v@.len(),
            digits == v@.skip(start as int),
            0 <= value <= MAX_EXPONENT,
            value == exponent_size(digits.take(i - start)),
        decreases v@.len() - i,
    {
        let d = read_digit(v[i]) as i64;
        proof {
            assert(digits.take(i - start + 1).drop_last() =~= digits.take(i - start));
            assert(digits.take(i - start + 1).last() == v@[i as int]);
        }
        let next: i64 = 10 * value + d;
        value = if next > MAX_EXPONENT {
            MAX_EXPONENT
        } else {
            next
        };
        i = i + 1;
    }
    proof {
        assert(digits.take(i - start) =~= digits);
    }
    if negative {
        -value
    } else {
        value
    }
}

/// A number that does not fit, however many digits follow.
pub const TOO_LARGE: u64 = 9_223_372_036_854_775_809;

/// The number that the first of some digits write, or [`TOO_LARGE`] for any from there.
fn read_leading(digits: &Vec<char>, n: i128) -> (r: u64)
    ensures
        r == (if leading(digits@, n as int) >= TOO_LARGE {
            TOO_LARGE as nat
        } else {
            leading(digits@, n as int)
        }),
{
    let mut value: u64 = 0;
    let mut i: i128 = 0;
    while i < n
        invariant
            0 <= i,
            i <= n || i == 0,
            value <= TOO_LARGE,
            value == (if leading(digits@, i as int) >= TOO_LARGE {
                TOO_LARGE as nat
            } else {
                leading(digits@, i as int)
            }),
        decreases n - i,
    {
        let d: u64 = if i < digits.len() as i128 {
            read_digit(digits[i as usize])
        } else {
            0
        };
        let next: u128 = 10 * value as u128 + d as u128;
        proof {
            assert(leading(digits@, i + 1) == 10 * leading(digits@, i as int) + d);
        }
        value = if next >= TOO_LARGE as u128 {
            TOO_LARGE
        } else {
            next as u64
        };
        i = i + 1;
    }
    value
}

/// Tests whether any digit behind the first `n` is not zero.
fn reads_behind(digits: &Vec<char>, n: i128) -> (r: bool)
    ensures
        r == anything_behind(digits@, n as int),
{
    let mut i: usize = 0;
    while i < digits.len()
        invariant
            i <= digits@.len(),
            forall|k: int| 0 <= k < i && n <= k ==> digit_of(#[trigger] digits@[k]) == 0,
        decreases digits@.len() - i,
    {
        if i as i128 >= n && read_digit(digits[i]) != 0 {
            proof {
                assert(digit_of(digits@[i as int]) != 0);
            }
            return true;
        }
        i = i + 1;
    }
    false
}

/// Adds a part of some characters to others.
fn add_part(out: &mut Vec<char>, v: &Vec<char>, from: usize, to: usize)
    requires
        from <= to <= v@.len(),
    ensures
        final(out)@ == old(out)@ + v@.subrange(from as int, to as int),
{
    let ghost part = v@.subrange(from as int, to as int);
    let mut i: usize = from;
    proof {
        assert(out@ + part.take(0) =~= out@);
    }
    while i < to
        invariant
            from <= i <= to <= v@.len(),
            part == v@.subrange(from as int, to as int),
            out@ == old(out)@ + part.take(i - from),
        decreases to - i,
    {
        out.push(v[i]);
        proof {
            assert(part.take(i - from + 1) =~= part.take(i - from).push(v@[i as int]));
            assert(out@ =~= old(out)@ + part.take(i - from + 1));
        }
        i = i + 1;
    }
    proof {
        assert(part.take(i - from) =~= part);
    }
}

/// Rounds what a text without a sign writes to a whole number, or to [`TOO_LARGE`] for
/// any from there.
fn round(v: &Vec<char>, from: usize, up: bool) -> (r: u64)
    requires
        from <= v@.len(),
    ensures
        r == (if rounded(v@.skip(from as int), up) >= TOO_LARGE {
            TOO_LARGE as int
        } else {
            rounded(v@.skip(from as int), up)
        }),
{
    let ghost s = v@.skip(from as int);
    let end = find(v, from, v.len(), 'e');
    proof {
        assert(v@.subrange(from as int, v@.len() as int) =~= s);
        assert(v@.subrange(from as int, end as int) =~= s.take(end - from));
    }
    let exponent: i64 = if end < v.len() {
        proof {
            assert(v@.skip(end + 1) =~= s.skip(end - from + 1));
        }
        read_exponent(v, end + 1)
    } else {
        0
    };
    let dot = find(v, from, end, '.');
    let ghost mantissa = s.take(end - from);
    let start: usize = if dot < end {
        dot + 1
    } else {
        dot
    };
    let mut digits: Vec<char> = Vec::new();
    add_part(&mut digits, v, from, dot);
    add_part(&mut digits, v, start, end);
    proof {
        assert(v@.subrange(from as int, dot as int) =~= mantissa.take(dot - from));
        assert(v@.subrange(start as int, end as int) =~= mantissa.skip(start - from));
        assert(digits@ =~= mantissa.take(dot - from) + mantissa.skip(start - from));
    }
    let point: i128 = (dot - from) as i128 + exponent as i128;
    let whole = read_leading(&digits, point);
    if up && whole < TOO_LARGE && reads_behind(&digits, point) {
        whole + 1
    } else {
        whole
    }
}

/// What a size comes to with a sign, or the nearest to it that fits.
fn with_sign(size: u64, negative: bool) -> (r: i64)
    ensures
        r == clamped(if negative {
            -(size as int)
        } else {
            size as int
        }),
{
    if negative {
        if size >= 9_223_372_036_854_775_808 {
            i64::MIN
        } else {
            -(size as i64)
        }
    } else if size > i64::MAX as u64 {
        i64::MAX
    } else {
        size as i64
    }
}

/// The largest whole number that is not above what a text writes, or the nearest to it
/// that fits.
pub fn floor(s: &str) -> (r: i64)
    ensures
        r == clamped(floor_spec(s@)),
{
    let v = text::chars_of(s);
    proof {
        assert(v@.skip(0) =~= s@);
    }
    if v.len() > 0 && v[0] == '-' {
        proof {
            assert(v@.skip(1) =~= s@.drop_first());
        }
        with_sign(round(&v, 1, true), true)
    } else {
        with_sign(round(&v, 0, false), false)
    }
}

/// The smallest whole number that is not below what a text writes, or the nearest to it
/// that fits.
pub fn ceil(s: &str) -> (r: i64)
    ensures
        r == clamped(ceil_spec(s@)),
{
    let v = text::chars_of(s);
    proof {
        assert(v@.skip(0) =~= s@);
    }
    if v.len() > 0 && v[0] == '-' {
        proof {
            assert(v@.skip(1) =~= s@.drop_first());
        }
        with_sign(round(&v, 1, false), true)
    } else {
        with_sign(round(&v, 0, true), false)
    }
}

} // verus!
