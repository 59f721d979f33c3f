//! What becomes of texts.

use crate::plugins::session;
use crate::proxy;
use crate::text;
use vstd::prelude::*;
use vstd::string::*;

verus! {

/// White space is the space and the five characters from the tab to the carriage return, and
/// beyond ASCII the next line, the spaces of fixed widths and the two separators.
pub proof fn law_what_white_space_is(c: char, r: bool)
    requires
        call_ensures(text::space, (c,), r),
    ensures
        ({
            let n = c as u32;
            r <==> n == 0x20 || 0x9 <= n <= 0xd || n == 0x85 || n == 0xa0 || n == 0x1680 || 0x2000
                <= n <= 0x200a || n == 0x2028 || n == 0x2029 || n == 0x202f || n == 0x205f || n
                == 0x3000
        }),
{
}

/// Where leading white space ends.
proof fn lemma_start(s: Seq<char>) -> (a: int)
    ensures
        0 <= a <= s.len(),
        text::trim_start_spec(s) == s.skip(a),
        forall|i: int| 0 <= i < a ==> text::is_space(#[trigger] s[i]),
        a < s.len() ==> !text::is_space(s[a]),
    decreases s.len(),
{
    if s.len() > 0 && text::is_space(s[0]) {
        let a = lemma_start(s.drop_first());
        assert(s.drop_first().skip(a) =~= s.skip(a + 1));
        assert forall|i: int| 0 <= i < a + 1 implies text::is_space(#[trigger] s[i]) by {
            if i > 0 {
                assert(s.drop_first()[i - 1] == s[i]);
            }
        }
        a + 1
    } else {
        assert(s.skip(0) =~= s);
        0
    }
}

/// Where trailing white space begins.
proof fn lemma_end(s: Seq<char>) -> (b: int)
    ensures
        0 <= b <= s.len(),
        text::trim_end_spec(s) == s.take(b),
        forall|i: int| b <= i < s.len() ==> text::is_space(#[trigger] s[i]),
        b > 0 ==> !text::is_space(s[b - 1]),
    decreases s.len(),
{
    if s.len() > 0 && text::is_space(s.last()) {
        let b = lemma_end(s.drop_last());
        assert(s.drop_last().take(b) =~= s.take(b));
        assert forall|i: int| b <= i < s.len() implies text::is_space(#[trigger] s[i]) by {
            if i < s.len() - 1 {
                assert(s.drop_last()[i] == s[i]);
            }
        }
        b
    } else {
        assert(s.take(s.len() as int) =~= s);
        s.len() as int
    }
}

/// What trimming leaves lies between two places, with white space alone outside of them and
/// none at either of its ends.
pub proof fn lemma_trim(s: Seq<char>)
    ensures
        exists|a: int, b: int|
            #![trigger s.subrange(a, b)]
            0 <= a <= b <= s.len() && text::trim_spec(s) == s.subrange(a, b) && (forall|i: int|
                0 <= i < a ==> text::is_space(#[trigger] s[i])) && (forall|i: int|
                b <= i < s.len() ==> text::is_space(#[trigger] s[i])) && (a < b
                ==> !text::is_space(s[a]) && !text::is_space(s[b - 1])),
{
    let a = lemma_start(s);
    let t = s.skip(a);
    let b = lemma_end(t);
    assert(t.take(b) =~= s.subrange(a, a + b));
    assert forall|i: int| a + b <= i < s.len() implies text::is_space(#[trigger] s[i]) by {
        assert(t[i - a] == s[i]);
    }
    if b > 0 {
        assert(t[0] == s[a]);
        assert(t[b - 1] == s[a + b - 1]);
    }
}

/// Trimming takes white space off both ends and touches nothing between them.
pub proof fn law_trimming_takes_off_the_ends(s: &str, r: &str)
    requires
        call_ensures(text::trim, (s,), r),
    ensures
        exists|a: int, b: int|
            #![trigger s@.subrange(a, b)]
            0 <= a <= b <= s@.len() && r@ == s@.subrange(a, b) && (forall|i: int|
                0 <= i < a ==> text::is_space(#[trigger] s@[i])) && (forall|i: int|
                b <= i < s@.len() ==> text::is_space(#[trigger] s@[i])) && (a < b
                ==> !text::is_space(s@[a]) && !text::is_space(s@[b - 1])),
{
    lemma_trim(s@);
}

/// Making letters small changes the capitals of ASCII and nothing else.
pub proof fn law_small_letters(s: &str, r: String, i: int)
    requires
        call_ensures(text::lower, (s,), r),
        0 <= i < s@.len(),
    ensures
        r@.len() == s@.len(),
        'A' <= s@[i] <= 'Z' ==> r@[i] as u32 == s@[i] as u32 + 32,
        !('A' <= s@[i] <= 'Z') ==> r@[i] == s@[i],
{
}

/// Two texts are the same whatever their case where they are of one length and each two
/// characters at one place are the same, or the capital and the small form of one letter.
pub proof fn law_same_whatever_the_case(a: &str, b: &str, r: bool)
    requires
        call_ensures(text::same_ignoring_case, (a, b), r),
    ensures
        r <==> (a@.len() == b@.len() && forall|i: int|
            0 <= i < a@.len() ==> a@[i] == #[trigger] b@[i] || ('A' <= a@[i] <= 'Z' && b@[i] as u32
                == a@[i] as u32 + 32) || ('A' <= b@[i] <= 'Z' && a@[i] as u32 == b@[i] as u32
                + 32)),
{
    let x = text::lower_spec(a@);
    let y = text::lower_spec(b@);
    if r {
        assert(x.len() == a@.len());
        assert forall|i: int| 0 <= i < a@.len() implies a@[i] == #[trigger] b@[i] || ('A' <= a@[i]
            <= 'Z' && b@[i] as u32 == a@[i] as u32 + 32) || ('A' <= b@[i] <= 'Z' && a@[i] as u32
            == b@[i] as u32 + 32) by {
            assert(x[i] == y[i]);
        }
    }
    if a@.len() == b@.len() && forall|i: int|
        0 <= i < a@.len() ==> a@[i] == #[trigger] b@[i] || ('A' <= a@[i] <= 'Z' && b@[i] as u32
            == a@[i] as u32 + 32) || ('A' <= b@[i] <= 'Z' && a@[i] as u32 == b@[i] as u32 + 32) {
        assert forall|i: int| 0 <= i < x.len() implies x[i] == y[i] by {
            assert(a@[i] == b@[i] || ('A' <= a@[i] <= 'Z' && b@[i] as u32 == a@[i] as u32 + 32) || (
            'A' <= b@[i] <= 'Z' && a@[i] as u32 == b@[i] as u32 + 32));
        }
        assert(x =~= y);
    }
}

/// A text is cut at every separator, and only there: without one it is a single piece, and
/// otherwise what stands before the first is the first piece, and the others are those of
/// what stands behind it.
pub proof fn law_where_a_text_is_cut(
    whole: &str,
    head: Seq<char>,
    sep: char,
    rest: &str,
    r: Vec<&str>,
    others: Vec<&str>,
)
    requires
        call_ensures(text::split, (whole, sep), r),
        !head.contains(sep),
    ensures
        whole@ == head ==> text::slices(r@) == seq![head],
        whole@ == head + seq![sep] + rest@ && call_ensures(text::split, (rest, sep), others)
            ==> text::slices(r@) == seq![head] + text::slices(others@),
{
    session::lemma_split_whole(head, sep);
    session::lemma_split_front(head, sep, rest@);
}

/// A text is cut once at its first separator.
pub proof fn law_a_text_is_cut_once(
    whole: &str,
    head: Seq<char>,
    sep: char,
    rest: Seq<char>,
    r: Option<(&str, &str)>,
)
    requires
        call_ensures(text::split_once, (whole, sep), r),
        !head.contains(sep),
    ensures
        whole@ == head ==> r is None,
        whole@ == head + seq![sep] + rest ==> (r matches Some((a, b)) && a@ == head && b@ == rest),
{
    assert forall|k: int| 0 <= k < head.len() implies head[k] != sep by {
        assert(head.contains(head[k]));
    }
    if whole@ == head {
        text::lemma_find_is(whole@, sep, head.len() as int);
    } else if whole@ == head + seq![sep] + rest {
        let s = whole@;
        assert forall|k: int| 0 <= k < head.len() implies s[k] != sep by {
            assert(s[k] == head[k]);
        }
        text::lemma_find_is(s, sep, head.len() as int);
        assert(s.take(head.len() as int) =~= head);
        assert(s.skip(head.len() as int + 1) =~= rest);
    }
}

/// White space in front of a text is nothing to its words.
proof fn lemma_words_front(c: char, s: Seq<char>)
    requires
        text::is_space(c),
    ensures
        text::words_spec(seq![c] + s) == text::words_spec(s),
{
    assert((seq![c] + s).drop_first() =~= s);
    text::lemma_trim_start(seq![c] + s);
    text::lemma_trim_start(s);
}

/// A run without white space ends where white space begins.
proof fn lemma_word_run(word: Seq<char>, rest: Seq<char>)
    requires
        forall|i: int| 0 <= i < word.len() ==> !text::is_space(#[trigger] word[i]),
        rest.len() == 0 || text::is_space(rest[0]),
    ensures
        text::word_len(word + rest) == word.len(),
    decreases word.len(),
{
    let s = word + rest;
    if word.len() == 0 {
        assert(s =~= rest);
    } else {
        assert(s[0] == word[0]);
        assert(s.drop_first() =~= word.drop_first() + rest);
        assert forall|i: int| 0 <= i < word.drop_first().len() implies !text::is_space(
            #[trigger] word.drop_first()[i],
        ) by {
            assert(word.drop_first()[i] == word[i + 1]);
        }
        lemma_word_run(word.drop_first(), rest);
    }
}

/// Words are the runs of what is not white space, in order: white space in front of a text
/// is none, and a run at the front, up to white space or to the end, is the first.
pub proof fn law_what_words_are(
    whole: &str,
    word: Seq<char>,
    c: char,
    rest: &str,
    r: Vec<String>,
    others: Vec<String>,
)
    requires
        call_ensures(text::words, (whole,), r),
        call_ensures(text::words, (rest,), others),
        text::is_space(c),
        forall|i: int| 0 <= i < word.len() ==> !text::is_space(#[trigger] word[i]),
    ensures
        whole@.len() == 0 ==> r@.len() == 0,
        whole@ == seq![c] + rest@ ==> text::texts(r@) == text::texts(others@),
        word.len() > 0 && whole@ == word ==> text::texts(r@) == seq![word],
        word.len() > 0 && whole@ == word + seq![c] + rest@ ==> text::texts(r@) == seq![word]
            + text::texts(others@),
{
    text::lemma_trim_start(whole@);
    lemma_words_front(c, rest@);
    assert(text::texts(r@).len() == r@.len());
    if word.len() > 0 && whole@ == word {
        lemma_word_run(word, Seq::empty());
        assert(word + Seq::<char>::empty() =~= word);
        assert(!text::is_space(word[0]));
        assert(word.take(word.len() as int) =~= word);
        assert(word.skip(word.len() as int) =~= Seq::empty());
        assert(text::words_spec(Seq::<char>::empty()) =~= Seq::empty());
        assert(seq![word] + Seq::<Seq<char>>::empty() =~= seq![word]);
    }
    if word.len() > 0 && whole@ == word + seq![c] + rest@ {
        let tail = seq![c] + rest@;
        assert(whole@ =~= word + tail);
        lemma_word_run(word, tail);
        assert(whole@[0] == word[0]);
        assert(!text::is_space(word[0]));
        assert(whole@.take(word.len() as int) =~= word);
        assert(whole@.skip(word.len() as int) =~= tail);
    }
}

/// Pieces are joined with the separator between each two and nowhere else.
pub proof fn law_how_pieces_are_joined(
    parts: Vec<&str>,
    fewer: Vec<&str>,
    last: &str,
    sep: &str,
    r: String,
    front: String,
)
    requires
        call_ensures(text::join, (&parts, sep), r),
        call_ensures(text::join, (&fewer, sep), front),
    ensures
        parts@.len() == 0 ==> r@.len() == 0,
        parts@ == seq![last] ==> r@ == last@,
        fewer@.len() > 0 && parts@ == fewer@.push(last) ==> r@ == front@ + sep@ + last@,
{
    let all = text::slices(parts@);
    assert(all.len() == parts@.len());
    if parts@ == seq![last] {
        assert(all[0] == last@);
    }
    if fewer@.len() > 0 && parts@ == fewer@.push(last) {
        assert(all.drop_last() =~= text::slices(fewer@));
        assert(all.last() == last@);
    }
}

/// A number is written in decimal: one digit for a number under ten, and otherwise the
/// number without its last digit, and that digit behind it.
pub proof fn law_how_a_number_is_written(n: u64, r: String, tens: String)
    requires
        call_ensures(text::u64_text, (n,), r),
        call_ensures(text::u64_text, ((n / 10) as u64,), tens),
    ensures
        n < 10 ==> r@.len() == 1 && r@[0] as u32 == '0' as u32 + n,
        n >= 10 ==> r@.len() == tens@.len() + 1 && r@.drop_last() == tens@ && r@.last() as u32
            == '0' as u32 + n % 10,
{
    if n >= 10 {
        assert(r@.drop_last() =~= tens@);
    }
}

/// A negative number is written with a minus sign before what is written for its size.
pub proof fn law_how_a_negative_number_is_written(n: i64, size: u64, r: String, digits: String)
    requires
        call_ensures(text::i64_text, (n,), r),
        call_ensures(text::u64_text, (size,), digits),
    ensures
        n >= 0 && size == n ==> r@ == digits@,
        n < 0 && size == -n ==> r@ == seq!['-'] + digits@,
{
}

/// Texts are ordered by the first place where they differ, and a text before every longer
/// one that it begins.
pub proof fn law_how_texts_are_ordered(a: &str, b: &str, r: bool, at: int)
    requires
        call_ensures(text::comes_before, (a, b), r),
        0 <= at <= a@.len(),
        at <= b@.len(),
        a@.take(at) == b@.take(at),
    ensures
        at < a@.len() && at < b@.len() && a@[at] != b@[at] ==> r == (a@[at] < b@[at]),
        at == a@.len() ==> r == (at < b@.len()),
        at == b@.len() ==> !r,
{
    lemma_order(a@, b@, at);
}

/// Where two texts first differ decides which comes first.
proof fn lemma_order(a: Seq<char>, b: Seq<char>, at: int)
    requires
        0 <= at <= a.len(),
        at <= b.len(),
        a.take(at) == b.take(at),
    ensures
        at < a.len() && at < b.len() && a[at] != b[at] ==> text::precedes(a, b) == (a[at] < b[at]),
        at == a.len() ==> text::precedes(a, b) == (at < b.len()),
        at == b.len() ==> !text::precedes(a, b),
    decreases at,
{
    if at > 0 {
        assert forall|k: int| 0 <= k < at implies a[k] == b[k] by {
            assert(a.take(at)[k] == a[k]);
            assert(b.take(at)[k] == b[k]);
        }
        let x = a.drop_first();
        let y = b.drop_first();
        assert forall|k: int| 0 <= k < at - 1 implies x[k] == y[k] by {
            assert(a[k + 1] == b[k + 1]);
        }
        assert(x.take(at - 1) =~= y.take(at - 1));
        lemma_order(x, y, at - 1);
    }
}

/// A number reads back as it was written, and a plus sign before it is nothing.
pub proof fn law_a_number_reads_back(n: u64, written: String, s: &str, r: Option<u64>)
    requires
        call_ensures(text::u64_text, (n,), written),
        call_ensures(proxy::parse_u64, (s,), r),
        s@ == written@ || s@ == seq!['+'] + written@,
    ensures
        r == Some(n),
{
    lemma_digits(n as nat);
    let digits = text::decimal(n as nat);
    if s@ == seq!['+'] + digits {
        assert(s@.drop_first() =~= digits);
    } else {
        assert('0' <= digits[0] <= '9');
    }
}

/// What is written for a number is made of digits that write it.
proof fn lemma_digits(n: nat)
    ensures
        proxy::all_digits(text::decimal(n)),
        proxy::digits_value(text::decimal(n)) == n,
    decreases n,
{
    let d = text::decimal(n);
    if n < 10 {
        assert(d.drop_last() =~= Seq::empty());
        assert(proxy::digits_value(d.drop_last()) == 0);
    } else {
        lemma_digits(n / 10);
        let front = text::decimal(n / 10);
        assert(d.drop_last() =~= front);
        assert forall|i: int| 0 <= i < d.len() implies '0' <= #[trigger] d[i] <= '9' by {
            if i < front.len() {
                assert(d[i] == front[i]);
            }
        }
    }
}

/// Nothing but digits is read as a number, and of two readings the one with a digit more
/// behind is ten times the other and that digit, where it still fits.
pub proof fn law_what_is_read_as_a_number(
    s: &str,
    front: &str,
    r: Option<u64>,
    before: Option<u64>,
)
    requires
        call_ensures(proxy::parse_u64, (s,), r),
        call_ensures(proxy::parse_u64, (front,), before),
    ensures
        s@.len() == 0 ==> r is None,
        r is Some ==> forall|i: int|
            0 < i < s@.len() ==> '0' <= #[trigger] s@[i] <= '9',
        r is Some ==> ('0' <= s@[0] <= '9' || (s@[0] == '+' && s@.len() > 1)),
        (before is Some && s@ == front@.push(s@.last()) && '0' <= s@.last() <= '9') ==> r == (
        if 10 * before->Some_0 + (s@.last() as u32 - '0' as u32) <= u64::MAX {
            Some((10 * before->Some_0 + (s@.last() as u32 - '0' as u32)) as u64)
        } else {
            None
        }),
{
    let d = proxy::unsigned_part(s@);
    if r is Some {
        assert forall|i: int| 0 < i < s@.len() implies '0' <= #[trigger] s@[i] <= '9' by {
            if s@[0] == '+' {
                assert(d[i - 1] == s@[i]);
            } else {
                assert(d[i] == s@[i]);
            }
        }
        if s@[0] != '+' {
            assert(d[0] == s@[0]);
        }
    }
    if before is Some && s@ == front@.push(s@.last()) && '0' <= s@.last() <= '9' {
        let f = proxy::unsigned_part(front@);
        assert(d.drop_last() =~= f);
        assert(d.last() == s@.last());
        assert forall|i: int| 0 <= i < d.len() implies '0' <= #[trigger] d[i] <= '9' by {
            if i < f.len() {
                assert(d[i] == f[i]);
            }
        }
        assert(proxy::all_digits(d));
    }
}

} // verus!
