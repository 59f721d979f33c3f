//! What numbers are worth, however they are written.

use crate::clock;
use crate::decimal;
use crate::json::{Json, JsonView};
use vstd::prelude::*;
use vstd::string::*;

verus! {

/// Ten times itself so many times.
pub open spec fn ten(n: nat) -> nat
    decreases n,
{
    if n == 0 {
        1
    } else {
        10 * ten((n - 1) as nat)
    }
}

/// Whether a text is digits and nothing else.
pub open spec fn all_digits(s: Seq<char>) -> bool {
    forall|i: int| 0 <= i < s.len() ==> '0' <= #[trigger] s[i] <= '9'
}

/// The whole number that some digits write.
pub open spec fn worth(s: Seq<char>) -> nat
    decreases s.len(),
{
    if s.len() == 0 {
        0
    } else {
        (10 * worth(s.drop_last()) + (s.last() as int - '0' as int)) as nat
    }
}

proof fn lemma_ten(a: nat, b: nat)
    ensures
        ten(a) > 0,
        ten(a + b) == ten(a) * ten(b),
    decreases a,
{
    if a == 0 {
        assert(1 * ten(b) == ten(b)) by (nonlinear_arith);
    } else {
        let c = (a - 1) as nat;
        lemma_ten(c, b);
        assert((c + b) as nat == (a + b - 1) as nat);
        assert((10 * ten(c)) * ten(b) == 10 * (ten(c) * ten(b))) by (nonlinear_arith);
    }
}

/// A number that digits write is below ten to the power of how many they are.
proof fn lemma_worth(s: Seq<char>)
    requires
        all_digits(s),
    ensures
        worth(s) < ten(s.len()),
    decreases s.len(),
{
    if s.len() > 0 {
        let front = s.drop_last();
        assert forall|i: int| 0 <= i < front.len() implies '0' <= #[trigger] front[i] <= '9' by {
            assert(front[i] == s[i]);
        }
        lemma_worth(front);
        assert('0' <= s[s.len() - 1] <= '9');
    }
}

/// The number that the first of some digits write, against the number that all of them do.
#[verifier::spinoff_prover]
#[verifier::rlimit(50)]
proof fn lemma_leading(s: Seq<char>, n: int)
    requires
        all_digits(s),
        n <= s.len(),
    ensures
        decimal::leading(s, n) * ten((s.len() - n) as nat) <= worth(s),
        worth(s) < (decimal::leading(s, n) + 1) * ten((s.len() - n) as nat),
        decimal::anything_behind(s, n) <==> decimal::leading(s, n) * ten((s.len() - n) as nat)
            < worth(s),
        n == s.len() ==> decimal::leading(s, n) == worth(s),
    decreases s.len(),
{
    let k = (s.len() - n) as nat;
    if n == s.len() {
        lemma_front(s);
        let l = decimal::leading(s, n);
        assert(l * 1 == l && (l + 1) * 1 == l + 1) by (nonlinear_arith);
        assert(!decimal::anything_behind(s, n));
    } else if s.len() == 0 {
        lemma_ten(k, 0);
        assert(decimal::leading(s, n) == 0);
        assert(0 * ten(k) == 0) by (nonlinear_arith);
        assert((0 + 1) * ten(k) == ten(k)) by (nonlinear_arith);
        assert(!decimal::anything_behind(s, n));
    } else {
        let front = s.drop_last();
        assert forall|i: int| 0 <= i < front.len() implies '0' <= #[trigger] front[i] <= '9' by {
            assert(front[i] == s[i]);
        }
        lemma_leading(front, n);
        lemma_shorter(s, n);
        assert('0' <= s[s.len() - 1] <= '9');
        let l = decimal::leading(s, n);
        let j = (k - 1) as nat;
        let w = worth(front);
        let d = s.last() as int - '0' as int;
        assert(ten(k) == 10 * ten(j));
        assert(l * (10 * ten(j)) == 10 * (l * ten(j))) by (nonlinear_arith);
        assert((l + 1) * (10 * ten(j)) == 10 * ((l + 1) * ten(j))) by (nonlinear_arith);
        assert(worth(s) == 10 * w + d);
        assert(decimal::digit_of(s.last()) == d);
        if decimal::anything_behind(front, n) {
            let i = choose|i: int|
                n <= i < front.len() && 0 <= i && decimal::digit_of(#[trigger] front[i]) != 0;
            assert(decimal::digit_of(s[i]) != 0);
        }
        if d != 0 {
            assert(decimal::digit_of(s[s.len() - 1]) != 0);
        }
        if decimal::anything_behind(s, n) {
            let i = choose|i: int|
                n <= i < s.len() && 0 <= i && decimal::digit_of(#[trigger] s[i]) != 0;
            if i < front.len() {
                assert(decimal::digit_of(front[i]) != 0);
            } else {
                assert(s[i] == s.last());
            }
        }
    }
}

/// The first digits of a text are those of the text without its last, as long as they are not
/// all of it.
proof fn lemma_shorter(s: Seq<char>, n: int)
    requires
        n < s.len(),
    ensures
        decimal::leading(s, n) == decimal::leading(s.drop_last(), n),
    decreases n,
{
    if n > 0 {
        lemma_shorter(s, n - 1);
        assert(s.drop_last()[n - 1] == s[n - 1]);
    }
}

/// All digits together write the number they are worth.
proof fn lemma_front(s: Seq<char>)
    requires
        all_digits(s),
    ensures
        decimal::leading(s, s.len() as int) == worth(s),
    decreases s.len(),
{
    if s.len() > 0 {
        let front = s.drop_last();
        assert forall|i: int| 0 <= i < front.len() implies '0' <= #[trigger] front[i] <= '9' by {
            assert(front[i] == s[i]);
        }
        lemma_front(front);
        lemma_shorter(s, s.len() - 1);
        assert('0' <= s[s.len() - 1] <= '9');
    }
}

/// Digits that are not there count as noughts.
proof fn lemma_padded(s: Seq<char>, n: int)
    requires
        all_digits(s),
        n >= s.len(),
    ensures
        decimal::leading(s, n) == worth(s) * ten((n - s.len()) as nat),
        !decimal::anything_behind(s, n),
    decreases n,
{
    if n == s.len() {
        lemma_front(s);
        assert(worth(s) * 1 == worth(s)) by (nonlinear_arith);
    } else {
        lemma_padded(s, n - 1);
        let j = (n - 1 - s.len()) as nat;
        assert(ten((n - s.len()) as nat) == 10 * ten(j));
        assert(worth(s) * (10 * ten(j)) == 10 * (worth(s) * ten(j))) by (nonlinear_arith);
    }
}

/// Where a character stands that no other before it is.
proof fn lemma_place(s: Seq<char>, c: char, at: int)
    requires
        0 <= at <= s.len(),
        at < s.len() ==> s[at] == c,
        forall|k: int| 0 <= k < at ==> s[k] != c,
    ensures
        decimal::place_of(s, c) == at,
    decreases s.len(),
{
    if at > 0 {
        let rest = s.drop_first();
        assert(s[0] != c);
        assert forall|k: int| 0 <= k < at - 1 implies rest[k] != c by {
            assert(rest[k] == s[k + 1]);
        }
        lemma_place(rest, c, at - 1);
    }
}

/// An exponent of some digits is what they are worth, where that is not too much.
proof fn lemma_exponent(s: Seq<char>)
    requires
        all_digits(s),
        worth(s) <= 9999,
    ensures
        decimal::exponent_size(s) == worth(s),
    decreases s.len(),
{
    if s.len() > 0 {
        let front = s.drop_last();
        assert forall|i: int| 0 <= i < front.len() implies '0' <= #[trigger] front[i] <= '9' by {
            assert(front[i] == s[i]);
        }
        assert('0' <= s[s.len() - 1] <= '9');
        lemma_exponent(front);
    }
}

/// How digits with a point among them and an exponent behind are taken apart.
#[verifier::spinoff_prover]
#[verifier::rlimit(50)]
proof fn lemma_parts(whole: Seq<char>, part: Seq<char>, sign: Seq<char>, size: Seq<char>, up: bool)
    requires
        all_digits(whole),
        all_digits(part),
        all_digits(size),
        worth(size) <= 9999,
        sign.len() == 0 || sign == seq!['+'] || sign == seq!['-'],
    ensures
        ({
            let digits = whole + part;
            let exponent = if sign == seq!['-'] {
                -(worth(size) as int)
            } else {
                worth(size) as int
            };
            let at = whole.len() + exponent;
            let f = decimal::leading(digits, at) as int;
            decimal::rounded(whole + seq!['.'] + part + seq!['e'] + sign + size, up) == (if up
                && decimal::anything_behind(digits, at) {
                f + 1
            } else {
                f
            })
        }),
{
    let mantissa = whole + seq!['.'] + part;
    let tail = sign + size;
    let s = whole + seq!['.'] + part + seq!['e'] + sign + size;
    let end = mantissa.len() as int;
    assert(s =~= mantissa + seq!['e'] + tail);
    assert(s[end] == 'e');
    assert forall|k: int| 0 <= k < end implies s[k] != 'e' by {
        assert(s[k] == mantissa[k]);
        if k < whole.len() {
            assert('0' <= whole[k] <= '9');
        } else if k > whole.len() {
            assert(mantissa[k] == part[k - whole.len() - 1]);
            assert('0' <= part[k - whole.len() - 1] <= '9');
        }
    }
    lemma_place(s, 'e', end);
    assert(s.take(end) =~= mantissa);
    assert(s.skip(end + 1) =~= tail);
    let dot = whole.len() as int;
    assert(mantissa[dot] == '.');
    assert forall|k: int| 0 <= k < dot implies mantissa[k] != '.' by {
        assert(mantissa[k] == whole[k]);
        assert('0' <= whole[k] <= '9');
    }
    lemma_place(mantissa, '.', dot);
    assert(mantissa.take(dot) =~= whole);
    assert(mantissa.skip(dot + 1) =~= part);
    lemma_exponent(size);
    if sign.len() == 0 {
        assert(tail =~= size);
        if size.len() > 0 {
            assert('0' <= size[0] <= '9');
        }
        assert(sign != seq!['-']) by {
            assert(seq!['-'].len() == 1);
        }
    } else {
        assert(tail[0] == sign[0]);
        assert(tail.drop_first() =~= size);
        if sign == seq!['+'] {
            assert(sign[0] == '+');
            assert(seq!['-'][0] == '-');
        }
    }
}

/// A number that a text writes with a point and an exponent lies between the whole number
/// that is read as below it and the one that is read as above it, and these are as near as
/// they can be. `whole` and `part` are the digits before and behind the point, `sign`
/// and `size` the sign and the digits of the exponent.
#[verifier::spinoff_prover]
#[verifier::rlimit(50)]
pub proof fn law_what_a_decimal_is_worth(
    s: &str,
    whole: Seq<char>,
    part: Seq<char>,
    sign: Seq<char>,
    size: Seq<char>,
    below: i64,
    above: i64,
)
    requires
        s@ == whole + seq!['.'] + part + seq!['e'] + sign + size,
        whole.len() > 0,
        all_digits(whole),
        all_digits(part),
        all_digits(size),
        worth(size) <= 9999,
        sign.len() == 0 || sign == seq!['+'] || sign == seq!['-'],
        call_ensures(decimal::floor, (s,), below),
        call_ensures(decimal::ceil, (s,), above),
        i64::MIN < below,
        below < i64::MAX,
        above < i64::MAX,
    ensures
        ({
            let n = worth(whole + part) as int;
            let places = part.len() + if sign == seq!['-'] {
                worth(size) as int
            } else {
                -(worth(size) as int)
            };
            if places >= 0 {
                let unit = ten(places as nat) as int;
                &&& below * unit <= n < (below + 1) * unit
                &&& (above - 1) * unit < n <= above * unit
            } else {
                below == n * ten((-places) as nat) && above == below
            }
        }),
{
    let digits = whole + part;
    assert(all_digits(digits)) by {
        assert forall|i: int| 0 <= i < digits.len() implies '0' <= #[trigger] digits[i] <= '9' by {
            if i < whole.len() {
                assert(digits[i] == whole[i]);
            } else {
                assert(digits[i] == part[i - whole.len()]);
            }
        }
    }
    assert('0' <= whole[0] <= '9');
    assert(s@[0] == whole[0]);
    lemma_parts(whole, part, sign, size, false);
    lemma_parts(whole, part, sign, size, true);
    let exponent = if sign == seq!['-'] {
        -(worth(size) as int)
    } else {
        worth(size) as int
    };
    let at = whole.len() + exponent;
    let n = worth(digits) as int;
    let places = part.len() - exponent;
    let f = decimal::leading(digits, at) as int;
    assert(below == f);
    if at <= digits.len() {
        lemma_leading(digits, at);
        let unit = ten((digits.len() - at) as nat) as int;
        assert(digits.len() - at == places);
        assert(f * unit <= n < (f + 1) * unit);
        if decimal::anything_behind(digits, at) {
            assert(above == f + 1);
        } else {
            assert(above == f);
            lemma_ten((digits.len() - at) as nat, 0);
            assert((f - 1) * unit < f * unit) by (nonlinear_arith)
                requires
                    unit > 0,
            ;
        }
    } else {
        lemma_padded(digits, at);
        assert(at - digits.len() == -places);
    }
}

/// A number below nought is rounded the other way: what is below it is what is above the
/// number without the sign, and the other way round.
pub proof fn law_numbers_below_nought(
    s: &str,
    bare: &str,
    below: i64,
    above: i64,
    bare_below: i64,
    bare_above: i64,
)
    requires
        s@ == seq!['-'] + bare@,
        bare@.len() == 0 || bare@[0] != '-',
        call_ensures(decimal::floor, (s,), below),
        call_ensures(decimal::ceil, (s,), above),
        call_ensures(decimal::floor, (bare,), bare_below),
        call_ensures(decimal::ceil, (bare,), bare_above),
        bare_below < i64::MAX,
        bare_above < i64::MAX,
    ensures
        below == -bare_above,
        above == -bare_below,
{
    assert(s@.drop_first() =~= bare@);
}

/// Digits without a point or an exponent are worth what they write.
pub proof fn law_what_digits_are_worth(s: &str, below: i64, above: i64)
    requires
        s@.len() > 0,
        all_digits(s@),
        worth(s@) <= i64::MAX,
        call_ensures(decimal::floor, (s,), below),
        call_ensures(decimal::ceil, (s,), above),
    ensures
        below == worth(s@),
        above == worth(s@),
{
    let t = s@;
    assert forall|k: int| 0 <= k < t.len() implies t[k] != 'e' && t[k] != '.' by {
        assert('0' <= t[k] <= '9');
    }
    assert('0' <= t[0] <= '9');
    lemma_place(t, 'e', t.len() as int);
    lemma_place(t.take(t.len() as int), '.', t.len() as int);
    assert(t.take(t.len() as int) =~= t);
    assert(t + t.skip(t.len() as int) =~= t);
    lemma_padded(t, t.len() as int);
    lemma_front(t);
}

/// The whole number below a value: a whole number itself, or the nearest that fits; what is
/// below a number that is not whole; and none for anything that is no number.
pub proof fn law_what_is_below_a_value(j: Json, s: &str, below: i64, r: Option<i64>)
    requires
        call_ensures(Json::floor, (&j,), r),
        call_ensures(decimal::floor, (s,), below),
    ensures
        j@ matches JsonView::Int(n) ==> (r matches Some(m) && (i64::MIN <= n <= i64::MAX ==> m == n)
            && (n > i64::MAX ==> m == i64::MAX) && (n < i64::MIN ==> m == i64::MIN)),
        j@ == JsonView::Real(s@) ==> r == Some(below),
        !(j@ is Int) && !(j@ is Real) ==> r is None,
{
}

/// A value is not above a number where it is a number and what is above it is not.
pub proof fn law_what_is_not_above_a_number(j: Json, n: i64, s: &str, above: i64, r: bool)
    requires
        call_ensures(Json::is_at_most, (&j, n), r),
        call_ensures(decimal::ceil, (s,), above),
    ensures
        j@ matches JsonView::Int(m) ==> r == (m <= n),
        j@ == JsonView::Real(s@) ==> r == (above <= n),
        !(j@ is Int) && !(j@ is Real) ==> !r,
{
}

/// A value is true or false only where it is a truth value.
pub proof fn law_which_values_are_true(j: Json, r: Option<bool>)
    requires
        call_ensures(Json::as_bool, (&j,), r),
    ensures
        j@ matches JsonView::Bool(b) ==> r == Some(b),
        !(j@ is Bool) ==> r is None,
{
}

/// The calendar reads the seconds since the Unix epoch, and nought before it.
pub proof fn law_what_the_calendar_reads(since: Option<u64>, r: i64)
    requires
        call_ensures(clock::unix_from, (since,), r),
    ensures
        since is None ==> r == 0,
        since matches Some(seconds) ==> (seconds <= i64::MAX ==> r == seconds),
{
}

} // verus!
