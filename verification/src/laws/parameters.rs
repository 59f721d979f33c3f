//! How the parameters of a plugin are read.

use crate::plugins;
use crate::strmap::StrMap;
use crate::text;
use crate::yaml;
use crate::yaml::YamlView;
use vstd::prelude::*;
use vstd::string::*;

verus! {

/// Whether a character may stand in the name of a variable.
pub open spec fn names(c: char) -> bool {
    'a' <= c <= 'z' || 'A' <= c <= 'Z' || '0' <= c <= '9' || c == '_'
}

/// What an expansion comes to does not depend on the text that its errors quote.
proof fn lemma_quoted(a: Seq<char>, b: Seq<char>, s: Seq<char>, env: Map<Seq<char>, String>)
    ensures
        plugins::expand_spec(a, s, env) is Ok <==> plugins::expand_spec(b, s, env) is Ok,
        plugins::expand_spec(a, s, env) is Ok ==> plugins::expand_spec(a, s, env)
            == plugins::expand_spec(b, s, env),
    decreases s.len(),
{
    if s.len() == 0 {
    } else if s[0] != '$' {
        lemma_quoted(a, b, s.drop_first(), env);
    } else {
        let braced = s.len() > 1 && s[1] == '{';
        let u = s.skip(if braced {
            2
        } else {
            1
        });
        plugins::lemma_name_len(u);
        let n = plugins::name_len(u);
        let rest = u.skip(if braced {
            n + 1
        } else {
            n
        });
        if !(braced && !(n < u.len() && u[n] == '}')) {
            lemma_quoted(a, b, rest, env);
        }
    }
}

/// Characters before the first dollar sign are kept.
proof fn lemma_plain(raw: Seq<char>, head: Seq<char>, rest: Seq<char>, env: Map<Seq<char>, String>)
    requires
        !head.contains('$'),
    ensures
        plugins::expand_spec(raw, head + rest, env) == plugins::before(
            head,
            plugins::expand_spec(raw, rest, env),
        ),
    decreases head.len(),
{
    let tail = plugins::expand_spec(raw, rest, env);
    if head.len() == 0 {
        assert(head + rest =~= rest);
        if tail is Ok {
            assert(head + tail->Ok_0 =~= tail->Ok_0);
        }
    } else {
        assert(head.contains(head[0]));
        let more = head.drop_first();
        assert forall|k: int| 0 <= k < more.len() implies more[k] != '$' by {
            assert(head.contains(head[k + 1]));
        }
        lemma_plain(raw, more, rest, env);
        assert((head + rest).drop_first() =~= more + rest);
        assert((head + rest)[0] == head[0]);
        if tail is Ok {
            assert(seq![head[0]] + (more + tail->Ok_0) =~= head + tail->Ok_0);
        }
    }
}

/// The name at the front of a text.
proof fn lemma_name(name: Seq<char>, rest: Seq<char>)
    requires
        forall|k: int| 0 <= k < name.len() ==> names(#[trigger] name[k]),
        rest.len() > 0 ==> !names(rest[0]),
    ensures
        plugins::name_len(name + rest) == name.len(),
    decreases name.len(),
{
    if name.len() == 0 {
        assert(name + rest =~= rest);
    } else {
        let more = name.drop_first();
        assert forall|k: int| 0 <= k < more.len() implies names(#[trigger] more[k]) by {
            assert(names(name[k + 1]));
        }
        lemma_name(more, rest);
        assert((name + rest).drop_first() =~= more + rest);
        assert(names(name[0]));
        assert((name + rest)[0] == name[0]);
    }
}

/// A text without a dollar sign stands for itself.
pub proof fn law_a_plain_text_is_itself(raw: &str, env: StrMap<String>, r: Result<String, String>)
    requires
        !raw@.contains('$'),
        call_ensures(plugins::expand_env, (raw, &env), r),
    ensures
        r matches Ok(s) && s@ == raw@,
{
    lemma_plain(raw@, raw@, Seq::empty(), env@);
    assert(raw@ + Seq::<char>::empty() =~= raw@);
}

/// A variable behind a dollar sign, in braces or not, is replaced by what it holds, and what
/// stands around it is not touched. One that is not set is an error, never nothing.
pub proof fn law_a_variable_is_filled_in(
    raw: &str,
    env: StrMap<String>,
    head: Seq<char>,
    braces: bool,
    name: Seq<char>,
    tail: &str,
    rest: Result<String, String>,
    r: Result<String, String>,
)
    requires
        raw@ == head + (if braces {
            seq!['$', '{'] + name + seq!['}']
        } else {
            seq!['$'] + name
        }) + tail@,
        !head.contains('$'),
        name.len() > 0,
        forall|k: int| 0 <= k < name.len() ==> names(#[trigger] name[k]),
        !braces && tail@.len() > 0 ==> !names(tail@[0]),
        call_ensures(plugins::expand_env, (tail, &env), rest),
        call_ensures(plugins::expand_env, (raw, &env), r),
    ensures
        r is Ok <==> env@.contains_key(name) && rest is Ok,
        r matches Ok(s) ==> s@ == head + env@[name]@ + rest->Ok_0@,
        !env@.contains_key(name) ==> (r matches Err(e) && e@ == "environment variable '"@ + name
            + "' referenced by config is not set"@),
{
    lemma_quoted(raw@, tail@, tail@, env@);
    if braces {
        let behind = seq!['$', '{'] + name + seq!['}'] + tail@;
        assert(raw@ =~= head + behind);
        lemma_plain(raw@, head, behind, env@);
        assert(behind.skip(2) =~= name + (seq!['}'] + tail@));
        lemma_name(name, seq!['}'] + tail@);
        let u = behind.skip(2);
        assert(u.take(name.len() as int) =~= name);
        assert(u.skip(name.len() as int + 1) =~= tail@);
        assert(u[name.len() as int] == '}');
    } else {
        let behind = seq!['$'] + name + tail@;
        assert(raw@ =~= head + behind);
        lemma_plain(raw@, head, behind, env@);
        assert(behind.skip(1) =~= name + tail@);
        lemma_name(name, tail@);
        let u = behind.skip(1);
        assert(u.take(name.len() as int) =~= name);
        assert(u.skip(name.len() as int) =~= tail@);
        assert(behind[1] == name[0]);
        assert(names(name[0]));
    }
    if rest is Ok && env@.contains_key(name) {
        assert(head + (env@[name]@ + rest->Ok_0@) =~= head + env@[name]@ + rest->Ok_0@);
    }
}

/// A dollar sign that no name follows stands for itself.
pub proof fn law_a_lone_dollar_stays(
    raw: &str,
    env: StrMap<String>,
    head: Seq<char>,
    tail: &str,
    rest: Result<String, String>,
    r: Result<String, String>,
)
    requires
        raw@ == head + seq!['$'] + tail@,
        !head.contains('$'),
        tail@.len() > 0 ==> !names(tail@[0]) && tail@[0] != '{',
        call_ensures(plugins::expand_env, (tail, &env), rest),
        call_ensures(plugins::expand_env, (raw, &env), r),
    ensures
        r is Ok <==> rest is Ok,
        r matches Ok(s) ==> s@ == head + seq!['$'] + rest->Ok_0@,
{
    lemma_quoted(raw@, tail@, tail@, env@);
    let behind = seq!['$'] + tail@;
    assert(raw@ =~= head + behind);
    lemma_plain(raw@, head, behind, env@);
    assert(behind.skip(1) =~= tail@);
    lemma_name(Seq::empty(), tail@);
    assert(Seq::<char>::empty() + tail@ =~= tail@);
    assert(tail@.skip(0) =~= tail@);
    reveal_strlit("$");
    assert("$"@ =~= seq!['$']);
    if rest is Ok {
        assert(head + (seq!['$'] + rest->Ok_0@) =~= head + seq!['$'] + rest->Ok_0@);
    }
}

/// A brace that is not closed behind a name is an error.
pub proof fn law_an_open_brace_is_an_error(
    raw: &str,
    env: StrMap<String>,
    head: Seq<char>,
    name: Seq<char>,
    tail: Seq<char>,
    r: Result<String, String>,
)
    requires
        raw@ == head + seq!['$', '{'] + name + tail,
        !head.contains('$'),
        forall|k: int| 0 <= k < name.len() ==> names(#[trigger] name[k]),
        tail.len() > 0 ==> !names(tail[0]) && tail[0] != '}',
        call_ensures(plugins::expand_env, (raw, &env), r),
    ensures
        r matches Err(e) && e@ == "unterminated '${' in '"@ + raw@ + "'"@,
{
    let behind = seq!['$', '{'] + name + tail;
    assert(raw@ =~= head + behind);
    lemma_plain(raw@, head, behind, env@);
    assert(behind.skip(2) =~= name + tail);
    lemma_name(name, tail);
    if tail.len() > 0 {
        assert((name + tail)[name.len() as int] == tail[0]);
    }
}

/// A text parameter: none where it is not given, expanded where it is, and an error where it
/// is no text.
pub proof fn law_how_a_text_is_read(
    params: StrMap<yaml_serde::Value>,
    key: &str,
    env: StrMap<String>,
    raw: &str,
    expanded: Result<String, String>,
    r: Result<Option<String>, String>,
)
    requires
        call_ensures(plugins::string, (&params, key, &env), r),
        call_ensures(plugins::expand_env, (raw, &env), expanded),
    ensures
        ({
            let given = yaml::block_view(params);
            &&& !given.contains_key(key@) ==> (r matches Ok(None))
            &&& given.contains_key(key@) && !(given[key@] is Text) ==> (r matches Err(e) && e@
                == "'"@ + key@ + "' must be a string"@)
            &&& given.contains_key(key@) && given[key@] == YamlView::Text(raw@) ==> (match expanded {
                Ok(s) => r matches Ok(Some(t)) && t@ == s@,
                Err(e) => r matches Err(f) && f@ == e@,
            })
        }),
{
}

/// A list parameter: empty where it is not given, one entry where a single text is given, and
/// otherwise every entry of the list in order, each expanded; an entry that is no text, or
/// cannot be expanded, is an error.
pub proof fn law_how_a_list_is_read(
    params: StrMap<yaml_serde::Value>,
    key: &str,
    env: StrMap<String>,
    raw: &str,
    expanded: Result<String, String>,
    r: Result<Vec<String>, String>,
)
    requires
        call_ensures(plugins::string_list, (&params, key, &env), r),
        call_ensures(plugins::expand_env, (raw, &env), expanded),
    ensures
        ({
            let given = yaml::block_view(params);
            &&& !given.contains_key(key@) ==> (r matches Ok(v) && v@.len() == 0)
            &&& given.contains_key(key@) && given[key@] == YamlView::Text(raw@) ==> (r is Ok
                <==> expanded is Ok)
            &&& given.contains_key(key@) && given[key@] == YamlView::Text(raw@) && r is Ok
                ==> r->Ok_0@.len() == 1 && r->Ok_0@[0]@ == expanded->Ok_0@
            &&& given.contains_key(key@) ==> (given[key@] matches YamlView::Sequence(items) ==> {
                &&& r is Ok <==> forall|i: int|
                    0 <= i < items.len() ==> yaml::as_str_spec(#[trigger] items[i]) is Some
                        && plugins::expand_spec(
                        yaml::as_str_spec(items[i])->Some_0,
                        yaml::as_str_spec(items[i])->Some_0,
                        env@,
                    ) is Ok
                &&& r matches Ok(v) ==> v@.len() == items.len() && forall|i: int|
                    0 <= i < items.len() ==> plugins::expand_spec(
                        yaml::as_str_spec(#[trigger] items[i])->Some_0,
                        yaml::as_str_spec(items[i])->Some_0,
                        env@,
                    ) == Ok::<Seq<char>, Seq<char>>(v@[i]@)
            })
            &&& given.contains_key(key@) && !(given[key@] is Text) && !(given[key@] is Sequence)
                ==> (r matches Err(e) && e@ == "'"@ + key@ + "' must be a list of strings"@)
        }),
{
    let given = yaml::block_view(params);
    if let Ok(v) = r {
        assert(text::texts(v@).len() == v@.len());
        if v@.len() == 1 {
            assert(text::texts(v@)[0] == v@[0]@);
        }
    }
    if given.contains_key(key@) {
        if let YamlView::Sequence(items) = given[key@] {
            lemma_entries(items, key@, env@);
            if let Ok(v) = r {
                assert forall|i: int| 0 <= i < items.len() implies plugins::expand_spec(
                    yaml::as_str_spec(#[trigger] items[i])->Some_0,
                    yaml::as_str_spec(items[i])->Some_0,
                    env@,
                ) == Ok::<Seq<char>, Seq<char>>(v@[i]@) by {
                    assert(text::texts(v@)[i] == v@[i]@);
                }
            }
        }
    }
}

proof fn lemma_entries(items: Seq<YamlView>, key: Seq<char>, env: Map<Seq<char>, String>)
    ensures
        plugins::entries_spec(items, key, env) is Ok <==> forall|i: int|
            0 <= i < items.len() ==> yaml::as_str_spec(#[trigger] items[i]) is Some
                && plugins::expand_spec(
                yaml::as_str_spec(items[i])->Some_0,
                yaml::as_str_spec(items[i])->Some_0,
                env,
            ) is Ok,
        plugins::entries_spec(items, key, env) matches Ok(v) ==> v.len() == items.len() && forall|
            i: int,
        |
            0 <= i < items.len() ==> plugins::expand_spec(
                yaml::as_str_spec(#[trigger] items[i])->Some_0,
                yaml::as_str_spec(items[i])->Some_0,
                env,
            ) == Ok::<Seq<char>, Seq<char>>(v[i]),
    decreases items.len(),
{
    if items.len() > 0 {
        let front = items.drop_last();
        lemma_entries(front, key, env);
        if plugins::entries_spec(front, key, env) is Ok {
            assert forall|i: int| 0 <= i < items.len() - 1 implies yaml::as_str_spec(
                #[trigger] items[i],
            ) is Some && plugins::expand_spec(
                yaml::as_str_spec(items[i])->Some_0,
                yaml::as_str_spec(items[i])->Some_0,
                env,
            ) == Ok::<Seq<char>, Seq<char>>(plugins::entries_spec(front, key, env)->Ok_0[i]) by {
                assert(front[i] == items[i]);
            }
            assert(items[items.len() - 1] == items.last());
        } else {
            let i = choose|i: int|
                0 <= i < front.len() && !(yaml::as_str_spec(#[trigger] front[i]) is Some
                    && plugins::expand_spec(
                    yaml::as_str_spec(front[i])->Some_0,
                    yaml::as_str_spec(front[i])->Some_0,
                    env,
                ) is Ok);
            assert(items[i] == front[i]);
        }
    }
}

/// A number parameter: the usual one where it is not given, and otherwise a whole number that
/// is not negative.
pub proof fn law_how_a_number_is_read(
    params: StrMap<yaml_serde::Value>,
    key: &str,
    usual: u64,
    n: int,
    r: Result<u64, String>,
)
    requires
        call_ensures(plugins::number, (&params, key, usual), r),
    ensures
        ({
            let given = yaml::block_view(params);
            &&& !given.contains_key(key@) ==> r == Ok::<u64, String>(usual)
            &&& given.contains_key(key@) && given[key@] == YamlView::Int(n) ==> (r is Ok <==> 0 <= n
                <= u64::MAX) && (r matches Ok(m) ==> m == n)
            &&& given.contains_key(key@) && !(given[key@] is Int) && !(given[key@] is Tagged)
                ==> (r matches Err(e) && e@ == "'"@ + key@ + "' must be a positive integer"@)
        }),
{
}

/// A flag parameter: the usual one where it is not given, what it says where it is a truth
/// value, and an error where it is anything else.
pub proof fn law_how_a_flag_is_read(
    params: StrMap<yaml_serde::Value>,
    key: &str,
    usual: bool,
    b: bool,
    r: Result<bool, String>,
    off: Result<bool, String>,
)
    requires
        call_ensures(plugins::flag_or, (&params, key, usual), r),
        call_ensures(plugins::flag, (&params, key), off),
    ensures
        ({
            let given = yaml::block_view(params);
            &&& !given.contains_key(key@) ==> r == Ok::<bool, String>(usual) && off == Ok::<
                bool,
                String,
            >(false)
            &&& given.contains_key(key@) && given[key@] == YamlView::Bool(b) ==> r == Ok::<
                bool,
                String,
            >(b) && off == Ok::<bool, String>(b)
            &&& given.contains_key(key@) && !(given[key@] is Bool) ==> r is Err && off is Err
        }),
{
}

/// A value with a tag reads as the value.
pub proof fn law_a_tag_changes_nothing(tag: Seq<char>, inner: YamlView)
    ensures
        yaml::as_str_spec(YamlView::Tagged(tag, Box::new(inner))) == yaml::as_str_spec(inner),
        yaml::as_u64_spec(YamlView::Tagged(tag, Box::new(inner))) == yaml::as_u64_spec(inner),
        inner matches YamlView::Text(s) ==> yaml::as_str_spec(inner) == Some(s),
        !(inner is Text) && !(inner is Tagged) ==> yaml::as_str_spec(inner) is None,
        inner matches YamlView::Int(n) ==> (yaml::as_u64_spec(inner) == if 0 <= n <= u64::MAX {
            Some(n as u64)
        } else {
            None
        }),
        !(inner is Int) && !(inner is Tagged) ==> yaml::as_u64_spec(inner) is None,
{
}

/// A block parameter: none where it is not given, and otherwise its entries by name, the later
/// of two with one name; an entry without a text for a name is an error.
pub proof fn law_how_a_block_is_read(
    params: StrMap<yaml_serde::Value>,
    key: &str,
    entries: Seq<(YamlView, YamlView)>,
    name: Seq<char>,
    at: int,
    r: Result<Option<StrMap<yaml_serde::Value>>, String>,
)
    requires
        call_ensures(plugins::mapping, (&params, key), r),
        -1 <= at < entries.len(),
        at >= 0 ==> yaml::as_str_spec(entries[at].0) == Some(name),
        forall|j: int|
            at < j < entries.len() ==> yaml::as_str_spec((#[trigger] entries[j]).0) != Some(name),
    ensures
        ({
            let given = yaml::block_view(params);
            &&& !given.contains_key(key@) ==> (r matches Ok(None))
            &&& given.contains_key(key@) && !(given[key@] is Mapping) ==> r is Err
            &&& given.contains_key(key@) && given[key@] == YamlView::Mapping(entries) ==> {
                &&& r is Ok <==> forall|i: int|
                    0 <= i < entries.len() ==> yaml::as_str_spec((#[trigger] entries[i]).0) is Some
                &&& r is Ok ==> (r matches Ok(Some(m)) && (yaml::block_view(m).contains_key(name)
                    <==> at >= 0) && (at >= 0 ==> yaml::block_view(m)[name] == entries[at].1))
            }
        }),
{
    lemma_named(entries, key@, name, at);
}

proof fn lemma_named(entries: Seq<(YamlView, YamlView)>, key: Seq<char>, name: Seq<char>, at: int)
    requires
        -1 <= at < entries.len(),
        at >= 0 ==> yaml::as_str_spec(entries[at].0) == Some(name),
        forall|j: int|
            at < j < entries.len() ==> yaml::as_str_spec((#[trigger] entries[j]).0) != Some(name),
    ensures
        plugins::named_spec(entries, key) is Ok <==> forall|i: int|
            0 <= i < entries.len() ==> yaml::as_str_spec((#[trigger] entries[i]).0) is Some,
        plugins::named_spec(entries, key) matches Ok(m) ==> (m.contains_key(name) <==> at >= 0) && (
        at >= 0 ==> m[name] == entries[at].1),
    decreases entries.len(),
{
    if entries.len() > 0 {
        let front = entries.drop_last();
        assert(entries[entries.len() - 1] == entries.last());
        if at == entries.len() - 1 {
            let before = lemma_last_named(front, name);
            lemma_named(front, key, name, before);
        } else {
            assert forall|j: int| at < j < front.len() implies yaml::as_str_spec(
                (#[trigger] front[j]).0,
            ) != Some(name) by {
                assert(front[j] == entries[j]);
            }
            lemma_named(front, key, name, at);
        }
        if plugins::named_spec(front, key) is Ok {
            assert forall|i: int| 0 <= i < entries.len() - 1 implies yaml::as_str_spec(
                (#[trigger] entries[i]).0,
            ) is Some by {
                assert(front[i] == entries[i]);
            }
        } else {
            let i = choose|i: int|
                0 <= i < front.len() && !(yaml::as_str_spec((#[trigger] front[i]).0) is Some);
            assert(entries[i] == front[i]);
        }
    }
}

/// The place of the last entry of a name, or one before the first.
proof fn lemma_last_named(entries: Seq<(YamlView, YamlView)>, name: Seq<char>) -> (at: int)
    ensures
        -1 <= at < entries.len(),
        at >= 0 ==> yaml::as_str_spec(entries[at].0) == Some(name),
        forall|j: int|
            at < j < entries.len() ==> yaml::as_str_spec((#[trigger] entries[j]).0) != Some(name),
    decreases entries.len(),
{
    if entries.len() == 0 {
        -1
    } else if yaml::as_str_spec(entries.last().0) == Some(name) {
        entries.len() - 1
    } else {
        let front = entries.drop_last();
        let at = lemma_last_named(front, name);
        assert forall|j: int| at < j < entries.len() implies yaml::as_str_spec(
            (#[trigger] entries[j]).0,
        ) != Some(name) by {
            if j < entries.len() - 1 {
                assert(front[j] == entries[j]);
            }
        }
        at
    }
}

} // verus!
