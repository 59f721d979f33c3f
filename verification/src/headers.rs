//! Header fields as the gateway reads and edits them.

use crate::text;
use vstd::prelude::*;
use vstd::string::*;

verus! {

/// Whether a text can stand as the value of a header: no control character but the
/// tab.
pub open spec fn valid_value(s: Seq<char>) -> bool {
    forall|i: int|
        0 <= i < s.len() ==> s[i] == '\t' || ((#[trigger] s[i]) >= ' ' && s[i] != '\u{7f}')
}

/// Whether a character can stand in the name of a header.
pub open spec fn token_char(c: char) -> bool {
    ||| 'a' <= c <= 'z'
    ||| 'A' <= c <= 'Z'
    ||| '0' <= c <= '9'
    ||| '#' <= c <= '\''
    ||| '^' <= c <= '`'
    ||| c == '!'
    ||| c == '"'
    ||| c == '*'
    ||| c == '+'
    ||| c == '-'
    ||| c == '.'
    ||| c == '|'
    ||| c == '~'
}

/// Whether a text can stand as the name of a header.
pub open spec fn valid_name(s: Seq<char>) -> bool {
    &&& 1 <= s.len() <= 65535
    &&& forall|i: int| 0 <= i < s.len() ==> token_char(#[trigger] s[i])
}

/// `actix_web::http::header::HeaderValue::from_str` succeeds on texts without control
/// characters other than the tab.
#[verifier::external_body]
pub(crate) fn is_value(s: &str) -> (r: bool)
    ensures
        r == valid_value(s@),
{
    actix_web::http::header::HeaderValue::from_str(s).is_ok()
}

/// `actix_web::http::header::HeaderName::from_bytes` succeeds on texts of one to
/// 65535 token characters.
#[verifier::external_body]
pub(crate) fn is_name(s: &str) -> (r: bool)
    ensures
        r == valid_name(s@),
{
    actix_web::http::header::HeaderName::from_bytes(s.as_bytes()).is_ok()
}

/// One header field: its name in small letters and the bytes of its value.
pub struct Header {
    pub name: String,
    pub value: Vec<u8>,
}

/// The header fields of a message, in order; a name may stand more than once.
pub struct HeaderList {
    pub fields: Vec<Header>,
}

/// The name and value of a field.
pub open spec fn field_view(h: Header) -> (Seq<char>, Seq<u8>) {
    (h.name@, h.value@)
}

impl View for HeaderList {
    type V = Seq<(Seq<char>, Seq<u8>)>;

    open spec fn view(&self) -> Seq<(Seq<char>, Seq<u8>)> {
        self.fields@.map_values(|h: Header| field_view(h))
    }
}

/// Whether a byte is visible ASCII or a tab.
pub open spec fn visible(b: u8) -> bool {
    32 <= b < 127 || b == 9
}

/// Whether a value is text: visible ASCII and tabs.
pub open spec fn is_text(v: Seq<u8>) -> bool {
    forall|i: int| 0 <= i < v.len() ==> visible(#[trigger] v[i])
}

/// The text of a value, where it is text.
pub open spec fn value_text(v: Seq<u8>) -> Option<Seq<char>> {
    if is_text(v) {
        Some(v.map_values(|b: u8| b as char))
    } else {
        None
    }
}

/// The text of a value, where it is text.
pub fn text_value(v: &Vec<u8>) -> (r: Option<String>)
    ensures
        text::opt_of(r) == value_text(v@),
{
    let mut out = String::new();
    let mut i: usize = 0;
    while i < v.len()
        invariant
            i <= v@.len(),
            forall|k: int| 0 <= k < i ==> visible(#[trigger] v@[k]),
            out@ == v@.take(i as int).map_values(|b: u8| b as char),
        decreases v@.len() - i,
    {
        let b: u8 = v[i];
        if !((32 <= b && b < 127) || b == 9) {
            return None;
        }
        out.push(b as char);
        proof {
            assert(v@.take(i + 1).map_values(|b: u8| b as char) =~= v@.take(i as int).map_values(
                |b: u8| b as char,
            ).push(b as char));
        }
        i = i + 1;
    }
    proof {
        assert(v@.take(i as int) =~= v@);
    }
    Some(out)
}

/// The values of the fields called `name`, in order.
pub open spec fn all_spec(h: Seq<(Seq<char>, Seq<u8>)>, name: Seq<char>) -> Seq<Seq<u8>>
    decreases h.len(),
{
    if h.len() == 0 {
        Seq::empty()
    } else if h.last().0 == name {
        all_spec(h.drop_last(), name).push(h.last().1)
    } else {
        all_spec(h.drop_last(), name)
    }
}

/// The text of the first field that `key` names in whatever case, where there is one
/// and it is text.
pub open spec fn text_spec(h: Seq<(Seq<char>, Seq<u8>)>, key: Seq<char>) -> Option<Seq<char>> {
    let found = all_spec(h, text::lower_spec(key));
    if found.len() == 0 {
        None
    } else {
        value_text(found[0])
    }
}

/// The texts of the values that are text.
pub open spec fn kept_texts(v: Seq<Seq<u8>>) -> Seq<Seq<char>>
    decreases v.len(),
{
    if v.len() == 0 {
        Seq::empty()
    } else {
        match value_text(v.last()) {
            Some(s) => kept_texts(v.drop_last()).push(s),
            None => kept_texts(v.drop_last()),
        }
    }
}

/// The first field of a list is the first field of every longer one.
proof fn lemma_first(h: Seq<(Seq<char>, Seq<u8>)>, n: int, name: Seq<char>)
    requires
        0 <= n <= h.len(),
        all_spec(h.take(n), name).len() > 0,
    ensures
        all_spec(h, name).len() > 0,
        all_spec(h, name)[0] == all_spec(h.take(n), name)[0],
    decreases h.len(),
{
    if n == h.len() {
        assert(h.take(n) =~= h);
    } else {
        assert(h.drop_last().take(n) =~= h.take(n));
        lemma_first(h.drop_last(), n, name);
    }
}

impl HeaderList {
    /// The text of the first field that `key` names, where there is one and it is
    /// text.
    pub fn text(&self, key: &str) -> (r: Option<String>)
        ensures
            text::opt_of(r) == text_spec(self@, key@),
    {
        let name = text::lower(key);
        let mut i: usize = 0;
        proof {
            assert(self@.take(0) =~= Seq::empty());
        }
        while i < self.fields.len()
            invariant
                i <= self.fields@.len(),
                name@ == text::lower_spec(key@),
                all_spec(self@.take(i as int), name@).len() == 0,
            decreases self.fields@.len() - i,
        {
            proof {
                assert(self@.take(i + 1).drop_last() =~= self@.take(i as int));
                assert(self@.take(i + 1).last() == field_view(self.fields@[i as int]));
            }
            if text::same(self.fields[i].name.as_str(), name.as_str()) {
                proof {
                    lemma_first(self@, i + 1, name@);
                }
                return text_value(&self.fields[i].value);
            }
            i = i + 1;
        }
        proof {
            assert(self@.take(i as int) =~= self@);
        }
        None
    }

    /// The texts of the fields that `key` names, in order, leaving out those that are
    /// not text.
    pub fn texts(&self, key: &str) -> (r: Vec<String>)
        ensures
            text::texts(r@) == kept_texts(all_spec(self@, text::lower_spec(key@))),
    {
        let name = text::lower(key);
        let mut out: Vec<String> = Vec::new();
        let mut i: usize = 0;
        proof {
            assert(self@.take(0) =~= Seq::empty());
            assert(text::texts(out@) =~= Seq::empty());
        }
        while i < self.fields.len()
            invariant
                i <= self.fields@.len(),
                name@ == text::lower_spec(key@),
                text::texts(out@) == kept_texts(all_spec(self@.take(i as int), name@)),
            decreases self.fields@.len() - i,
        {
            let ghost front = all_spec(self@.take(i as int), name@);
            proof {
                assert(self@.take(i + 1).drop_last() =~= self@.take(i as int));
                assert(self@.take(i + 1).last() == field_view(self.fields@[i as int]));
            }
            if text::same(self.fields[i].name.as_str(), name.as_str()) {
                proof {
                    let longer = all_spec(self@.take(i + 1), name@);
                    assert(longer.drop_last() =~= front);
                }
                if let Some(s) = text_value(&self.fields[i].value) {
                    let ghost said = text::texts(out@);
                    out.push(s);
                    proof {
                        assert(text::texts(out@) =~= said.push(s@));
                    }
                }
            }
            i = i + 1;
        }
        proof {
            assert(self@.take(i as int) =~= self@);
        }
        out
    }
}

} // verus!
