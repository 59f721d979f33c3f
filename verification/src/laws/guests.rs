//! What a guest is shown and handed, and what its answers do.

use crate::config::{PluginConfig, PluginReference};
use crate::headers;
use crate::headers::HeaderList;
use crate::json;
use crate::json::{Json, JsonView};
use crate::plugins::guest;
use crate::plugins::guest::{CallFault, Guest};
use crate::plugins::wasm;
use crate::plugins::wasm::{
    Action, EditsView, FilterBinding, FilteredView, RequestLine, ResponseHead, Verdict, WasmFilter,
    WasmPlugin, WasmRuntime,
};
use crate::sorting;
use crate::strmap;
use crate::strmap::StrMap;
use crate::text;
use crate::tree;
use crate::yaml;
use crate::yaml::YamlView;
use vstd::prelude::*;
use vstd::string::*;

verus! {

/// The names under which a guest is shown things differ from each other.
proof fn lemma_names()
    ensures
        "phase"@.len() == 5,
        "route"@.len() == 5,
        "phase"@ != "route"@,
        "path"@.len() == 4,
        "query"@.len() == 5,
        "query"@ != "phase"@,
        "query"@ != "route"@,
        "method"@.len() == 6,
        "status"@.len() == 6,
        "method"@ != "status"@,
        "headers"@.len() == 7,
        "settings"@.len() == 8,
{
    reveal_strlit("phase");
    reveal_strlit("route");
    reveal_strlit("path");
    reveal_strlit("query");
    reveal_strlit("method");
    reveal_strlit("status");
    reveal_strlit("headers");
    reveal_strlit("settings");
    assert("phase"@[0] == 'p' && "route"@[0] == 'r' && "query"@[0] == 'q');
    assert("method"@[0] == 'm' && "status"@[0] == 's');
}

/// Whether an object shows a request: the parts of its line under their names, to the
/// letter, with its headers and the settings, and nothing else.
pub open spec fn shows_request(
    shown: Map<Seq<char>, JsonView>,
    line: RequestLine,
    fields: Map<Seq<char>, JsonView>,
    settings: JsonView,
) -> bool {
    &&& forall|k: Seq<char>| #[trigger]
        shown.contains_key(k) <==> k == "phase"@ || k == "route"@ || k == "method"@ || k == "path"@
            || k == "query"@ || k == "headers"@ || k == "settings"@
    &&& shown["phase"@] == JsonView::Text("request"@)
    &&& shown["route"@] == JsonView::Text(line.route@)
    &&& shown["method"@] == JsonView::Text(line.method@)
    &&& shown["path"@] == JsonView::Text(line.path@)
    &&& shown["query"@] == JsonView::Text(line.query@)
    &&& shown["headers"@] == JsonView::Object(fields)
    &&& shown["settings"@] == settings
}

/// Whether an object shows a response: its route, its status as a number, its headers and
/// the settings, and nothing else.
pub open spec fn shows_response(
    shown: Map<Seq<char>, JsonView>,
    route: Seq<char>,
    status: u16,
    fields: Map<Seq<char>, JsonView>,
    settings: JsonView,
) -> bool {
    &&& forall|k: Seq<char>| #[trigger]
        shown.contains_key(k) <==> k == "phase"@ || k == "route"@ || k == "status"@ || k
            == "headers"@ || k == "settings"@
    &&& shown["phase"@] == JsonView::Text("response"@)
    &&& shown["route"@] == JsonView::Text(route)
    &&& shown["status"@] == JsonView::Int(status as int)
    &&& shown["headers"@] == JsonView::Object(fields)
    &&& shown["settings"@] == settings
}

/// The object that a guest is asked about in the request phase holds the route, the method,
/// the path and the query string of the request's line, exactly as they are.
pub proof fn law_a_guest_is_shown_the_request(
    line: RequestLine,
    fields: StrMap<Json>,
    settings: Json,
    r: Json,
)
    requires
        call_ensures(wasm::request_input, (&line, fields, &settings), r),
    ensures
        r@ matches JsonView::Object(shown) && shows_request(
            shown,
            line,
            json::fields(fields),
            settings@,
        ),
{
    lemma_names();
}

/// Two requests that differ in their route, method, path, query string or headers, or two
/// filters that differ in their settings, are shown to a guest as different objects.
pub proof fn law_different_requests_look_different(
    line: RequestLine,
    fields: StrMap<Json>,
    settings: Json,
    r: Json,
    other_line: RequestLine,
    other_fields: StrMap<Json>,
    other_settings: Json,
    other: Json,
)
    requires
        call_ensures(wasm::request_input, (&line, fields, &settings), r),
        call_ensures(wasm::request_input, (&other_line, other_fields, &other_settings), other),
        line.query@ != other_line.query@ || line.path@ != other_line.path@ || line.method@
            != other_line.method@ || line.route@ != other_line.route@ || json::fields(fields)
            != json::fields(other_fields) || settings@ != other_settings@,
    ensures
        r@ != other@,
{
    law_a_guest_is_shown_the_request(line, fields, settings, r);
    law_a_guest_is_shown_the_request(other_line, other_fields, other_settings, other);
}

/// The object that a guest is asked about in the response phase.
pub proof fn law_a_guest_is_shown_the_response(
    route: &str,
    status: u16,
    fields: StrMap<Json>,
    settings: Json,
    r: Json,
)
    requires
        call_ensures(wasm::response_input, (route, status, fields, &settings), r),
    ensures
        r@ matches JsonView::Object(shown) && shows_response(
            shown,
            route@,
            status,
            json::fields(fields),
            settings@,
        ),
{
    lemma_names();
}

/// Each filter of a chain that has its turn is asked about the request by name: its guest is
/// shown the line of the request as it came, whatever the filters before it did.
pub proof fn law_every_filter_is_shown_the_line<F: Fn(Vec<u8>) -> Result<Verdict, String>>(
    filters: Seq<WasmFilter>,
    line: RequestLine,
    fields: Map<Seq<char>, JsonView>,
    parse: F,
    answers: Seq<Result<Verdict, String>>,
    heard: Seq<Seq<Seq<char>>>,
    at: int,
)
    requires
        wasm::turn(filters, line, fields, parse, answers, heard, at),
    ensures
        exists|shown: Map<Seq<char>, JsonView>, seen: Map<Seq<char>, JsonView>|
            #[trigger] wasm::exchanged(
                *filters[at].plugin,
                "gillnet_on_request"@,
                JsonView::Object(shown),
                parse,
                heard[at],
                answers[at],
            ) && #[trigger] shows_request(shown, line, seen, filters[at].settings@),
{
    reveal(wasm::turn);
    lemma_names();
    let input = wasm::asked_about(filters, line, fields, answers, at);
    let sofar = wasm::ran(filters.take(at), answers.take(at))->Continue_0;
    let shown = input->Object_0;
    assert(shows_request(shown, line, wasm::edited(fields, sofar), filters[at].settings@));
}

/// The first filter of a chain sees the headers as they came.
pub proof fn law_the_first_filter_sees_the_headers<F: Fn(Vec<u8>) -> Result<Verdict, String>>(
    filters: Seq<WasmFilter>,
    line: RequestLine,
    fields: Map<Seq<char>, JsonView>,
    parse: F,
    answers: Seq<Result<Verdict, String>>,
    heard: Seq<Seq<Seq<char>>>,
)
    requires
        wasm::turn(filters, line, fields, parse, answers, heard, 0),
    ensures
        exists|shown: Map<Seq<char>, JsonView>|
            #[trigger] wasm::exchanged(
                *filters[0].plugin,
                "gillnet_on_request"@,
                JsonView::Object(shown),
                parse,
                heard[0],
                answers[0],
            ) && shows_request(shown, line, fields, filters[0].settings@),
{
    reveal(wasm::turn);
    lemma_names();
    let input = wasm::asked_about(filters, line, fields, answers, 0);
    assert(shows_request(input->Object_0, line, fields, filters[0].settings@));
}

/// A filter is asked about a response exactly where its module has a response phase, and is
/// shown the response with the changes that the filters before it made.
pub proof fn law_who_is_shown_a_response<F: Fn(Vec<u8>) -> Result<Verdict, String>>(
    filters: Seq<WasmFilter>,
    head: ResponseHead,
    parse: F,
    answers: Seq<Option<Result<Verdict, String>>>,
    heard: Seq<Seq<Seq<char>>>,
    at: int,
)
    requires
        wasm::response_turn(filters, head, parse, answers, heard, at),
    ensures
        answers[at] is Some <==> filters[at].plugin.has_response_phase,
        answers[at] matches Some(answer) ==> exists|shown: Map<Seq<char>, JsonView>|
            #[trigger] wasm::exchanged(
                *filters[at].plugin,
                "gillnet_on_response"@,
                JsonView::Object(shown),
                parse,
                heard[at],
                answer,
            ) && shows_response(
                shown,
                head.route,
                head.status,
                wasm::edited(head.fields, wasm::responded(answers.take(at))),
                filters[at].settings@,
            ),
{
    reveal(wasm::response_turn);
    lemma_names();
    if let Some(answer) = answers[at] {
        let input = wasm::response_input_spec(
            head.route,
            head.status,
            wasm::edited(head.fields, wasm::responded(answers.take(at))),
            filters[at].settings@,
        );
        assert(shows_response(
            input->Object_0,
            head.route,
            head.status,
            wasm::edited(head.fields, wasm::responded(answers.take(at))),
            filters[at].settings@,
        ));
        assert(input == JsonView::Object(input->Object_0));
    }
}

/// Where a pointer and a length are packed into one wide number, the verdict that is read
/// there is those bytes of the guest's memory. There is none where the length is nought or
/// above the limit, or where the bytes do not all lie in that memory.
pub proof fn law_what_a_packed_range_names(
    guest: Guest,
    pointer: u32,
    length: u32,
    wide: i64,
    r: Result<Vec<u8>, String>,
)
    requires
        call_ensures(wasm::pack, (pointer, length), wide),
        call_ensures(wasm::read_packed, (&guest, wide), r),
    ensures
        r is Ok <==> 0 < length <= 1_048_576 && pointer + length <= guest::guest_bytes(guest).len(),
        r matches Ok(bytes) ==> bytes@.len() == length && forall|i: int|
            0 <= i < length ==> #[trigger] bytes@[i] == guest::guest_bytes(guest)[pointer + i],
        r matches Err(e) ==> e@ == (if length == 0 {
            "the guest returned an empty verdict"@
        } else if length > 1_048_576 {
            "the guest returned "@ + text::decimal(length as nat) + " bytes, over the "@
                + text::decimal(1_048_576) + " byte limit"@
        } else {
            "the guest returned a pointer outside its own memory"@
        }),
{
    wasm::law_a_packed_range_reads_back(pointer, length);
}

/// A guest is handed the payload at the place it gave: its memory holds the payload there
/// and is the same everywhere else, and it is told the place and the length.
pub proof fn law_where_a_payload_is_handed(
    export: Seq<char>,
    payload: Seq<u8>,
    ready: Guest,
    offset: i32,
    asked: Guest,
    done: Guest,
    result: Result<i64, CallFault>,
    i: int,
)
    requires
        wasm::runs_on(export, payload, ready, offset, asked, done, result),
        0 <= offset,
        offset + payload.len() <= guest::guest_bytes(ready).len(),
        0 <= i < guest::guest_bytes(ready).len(),
    ensures
        guest::guest_bytes(asked).len() == guest::guest_bytes(ready).len(),
        guest::guest_bytes(asked)[i] == if offset <= i < offset + payload.len() {
            payload[i - offset]
        } else {
            guest::guest_bytes(ready)[i]
        },
        guest::runs(asked, export, seq![offset, payload.len() as i32], done, result),
        guest::guest_lines(asked) == guest::guest_lines(ready),
{
}

/// Bytes that a guest gave as its answer lie in its memory after it ran on the encoded
/// input, in an instance with the budgets of its plugin, at a place that its own allocator
/// gave for the length of that input.
#[verifier::spinoff_prover]
#[verifier::rlimit(50)]
pub proof fn law_where_an_answer_comes_from(
    plugin: WasmPlugin,
    export: Seq<char>,
    input: JsonView,
    heard: Seq<Seq<char>>,
    bytes: Seq<u8>,
)
    requires
        wasm::called(plugin, export, input, heard, Ok::<Seq<u8>, Seq<char>>(bytes)),
    ensures
        exists|
            payload: Seq<u8>,
            fresh: Guest,
            ready: Guest,
            offset: i32,
            asked: Guest,
            done: Guest,
            wide: i64,
        |
            {
                &&& tree::json_bytes(input) == Ok::<Seq<u8>, Seq<char>>(payload)
                &&& #[trigger] guest::starts(
                    plugin.instance_pre,
                    plugin.name@,
                    "memory"@,
                    plugin.memory_max_bytes,
                    plugin.fuel,
                    Ok(fresh),
                )
                &&& #[trigger] guest::runs(
                    fresh,
                    "gillnet_alloc"@,
                    seq![payload.len() as i32],
                    ready,
                    Ok((offset as i64)),
                )
                &&& #[trigger] wasm::runs_on(
                    export,
                    payload,
                    ready,
                    offset,
                    asked,
                    done,
                    Ok(wide),
                )
                &&& wasm::packed_spec(guest::guest_bytes(done), wide) == Ok::<
                    Seq<u8>,
                    Seq<char>,
                >(bytes)
                &&& heard == guest::guest_lines(done)
            },
{
    let said = Ok::<Seq<u8>, Seq<char>>(bytes);
    let outcome = choose|outcome: Result<Guest, guest::StartFault>| #[trigger]
        wasm::begun(plugin, outcome) && match outcome {
            Ok(fresh) => match tree::json_bytes(input) {
                Ok(payload) => wasm::replies(plugin, export, payload, fresh, heard, said),
                Err(why) => said == Err::<Seq<u8>, Seq<char>>(
                    "could not encode the request for the guest: "@ + why,
                ) && heard == guest::guest_lines(fresh),
            },
            Err(fault) => said == Err::<Seq<u8>, Seq<char>>(wasm::start_text(fault)) && heard
                == wasm::start_lines(fault),
        };
    let fresh = outcome->Ok_0;
    let payload = tree::json_bytes(input)->Ok_0;
    let (ready, got) = choose|ready: Guest, result: Result<i32, CallFault>| #[trigger]
        guest::runs(
            fresh,
            wasm::EXPORT_ALLOC@,
            seq![payload.len() as i32],
            ready,
            guest::widened(result),
        ) && match result {
            Ok(offset) => wasm::comes_to(plugin, export, payload, ready, offset, heard, said),
            Err(fault) => said == Err::<Seq<u8>, Seq<char>>(
                wasm::fault_text(plugin.fuel, wasm::EXPORT_ALLOC@, fault),
            ) && heard == guest::guest_lines(ready),
        };
    let offset = got->Ok_0;
    assert(guest::runs(
        fresh,
        "gillnet_alloc"@,
        seq![payload.len() as i32],
        ready,
        Ok((offset as i64)),
    ));
    let (asked, done, result) = choose|asked: Guest, done: Guest, result: Result<i64, CallFault>|
        #[trigger]
        wasm::runs_on(export, payload, ready, offset, asked, done, result) && said
            == wasm::concludes(plugin, export, done, result) && heard == guest::guest_lines(done);
    assert(result == Ok::<i64, CallFault>(result->Ok_0));
    assert(guest::starts(
        plugin.instance_pre,
        plugin.name@,
        "memory"@,
        plugin.memory_max_bytes,
        plugin.fuel,
        Ok(fresh),
    ));
}

/// The texts that the fields of a name hold, in order; values that are not UTF-8 hold none.
pub open spec fn texts_under(fields: Seq<(Seq<char>, Seq<u8>)>, name: Seq<char>) -> Seq<Seq<char>> {
    fields.filter(
        |f: (Seq<char>, Seq<u8>)| f.0 == name && vstd::utf8::valid_utf8(f.1),
    ).map_values(|f: (Seq<char>, Seq<u8>)| vstd::utf8::decode_utf8(f.1))
}

/// A guest is shown a header under its name where one of its values is text: all the values
/// that are text, in the order they were sent, with a comma and a space between them.
pub proof fn law_which_headers_a_guest_sees(fields: HeaderList, r: StrMap<Json>, name: Seq<char>)
    requires
        call_ensures(wasm::collect_headers, (&fields,), r),
    ensures
        json::fields(r).contains_key(name) <==> texts_under(fields@, name).len() > 0,
        json::fields(r).contains_key(name) ==> json::fields(r)[name] == JsonView::Text(
            text::join_spec(texts_under(fields@, name), seq![',', ' ']),
        ),
{
    lemma_seen(fields@, name);
}

proof fn lemma_seen(h: Seq<(Seq<char>, Seq<u8>)>, name: Seq<char>)
    ensures
        wasm::collected(h).contains_key(name) <==> texts_under(h, name).len() > 0,
        wasm::collected(h).contains_key(name) ==> wasm::collected(h)[name] == JsonView::Text(
            text::join_spec(texts_under(h, name), seq![',', ' ']),
        ),
    decreases h.len(),
{
    reveal(Seq::filter);
    reveal_strlit(", ");
    assert(", "@ =~= seq![',', ' ']);
    let keep = |f: (Seq<char>, Seq<u8>)| f.0 == name && vstd::utf8::valid_utf8(f.1);
    let read = |f: (Seq<char>, Seq<u8>)| vstd::utf8::decode_utf8(f.1);
    if h.len() == 0 {
        assert(texts_under(h, name) =~= Seq::empty());
    } else {
        lemma_seen(h.drop_last(), name);
        let front = h.drop_last().filter(keep);
        if keep(h.last()) {
            assert(front.push(h.last()).map_values(read) =~= front.map_values(read).push(
                read(h.last()),
            ));
            let before = texts_under(h.drop_last(), name);
            let all = texts_under(h, name);
            assert(all == before.push(read(h.last())));
            assert(all.drop_last() =~= before);
            if before.len() == 0 {
                assert(text::join_spec(all, seq![',', ' ']) =~= read(h.last()));
            }
        }
    }
}

/// Of the header fields that a guest asks for, those stay whose name and value a header can
/// carry, each with its value as it is and its name in small letters; they come in the
/// order of their names.
pub proof fn law_which_fields_a_guest_sets(pairs: Seq<(Seq<char>, Seq<char>)>)
    ensures
        ({
            let kept = pairs.filter(
                |p: (Seq<char>, Seq<char>)| headers::valid_name(p.0) && headers::valid_value(p.1),
            ).map_values(|p: (Seq<char>, Seq<char>)| (text::lower_spec(p.0), p.1));
            let asked = wasm::valid_spec(pairs);
            &&& asked.to_multiset() == kept.to_multiset()
            &&& forall|i: int, j: int|
                0 <= i < j < asked.len() ==> !text::precedes(
                    (#[trigger] asked[j]).0,
                    (#[trigger] asked[i]).0,
                )
        }),
{
    lemma_legal(pairs);
    sorting::law_sorting_keeps_everything(wasm::legal(pairs), wasm::pair_key());
    let asked = wasm::valid_spec(pairs);
    assert forall|i: int, j: int| 0 <= i < j < asked.len() implies !text::precedes(
        (#[trigger] asked[j]).0,
        (#[trigger] asked[i]).0,
    ) by {
        assert((wasm::pair_key())(asked[j]) == asked[j].0);
        assert((wasm::pair_key())(asked[i]) == asked[i].0);
    }
}

proof fn lemma_legal(pairs: Seq<(Seq<char>, Seq<char>)>)
    ensures
        wasm::legal(pairs) == pairs.filter(
            |p: (Seq<char>, Seq<char>)| headers::valid_name(p.0) && headers::valid_value(p.1),
        ).map_values(|p: (Seq<char>, Seq<char>)| (text::lower_spec(p.0), p.1)),
    decreases pairs.len(),
{
    reveal(Seq::filter);
    let keep = |p: (Seq<char>, Seq<char>)| headers::valid_name(p.0) && headers::valid_value(p.1);
    let small = |p: (Seq<char>, Seq<char>)| (text::lower_spec(p.0), p.1);
    if pairs.len() == 0 {
        assert(wasm::legal(pairs) =~= pairs.filter(keep).map_values(small));
    } else {
        lemma_legal(pairs.drop_last());
        let front = pairs.drop_last().filter(keep);
        if keep(pairs.last()) {
            assert(front.push(pairs.last()).map_values(small) =~= front.map_values(small).push(
                small(pairs.last()),
            ));
        }
    }
}

/// What a verdict does: to go on makes the changes it asks for; to stop answers with its
/// status, its headers and its body, with 403 where it gives no status. A status that no
/// response can have is a failure of the plugin.
pub proof fn law_what_a_verdict_does(plugin: WasmPlugin, verdict: Verdict)
    ensures
        ({
            let outcome = wasm::decided(plugin, Ok(verdict));
            let status = verdict.status;
            &&& verdict.action == Action::Continue ==> outcome == FilteredView::Continue(
                EditsView {
                    set: wasm::valid_spec(strmap::pairs_of(verdict.set_headers)),
                    remove: verdict.remove_headers@.map_values(|n: String| text::lower_spec(n@)),
                },
            )
            &&& verdict.action == Action::Stop && status is None ==> outcome
                == (FilteredView::Stop {
                status: 403,
                headers: wasm::valid_spec(strmap::pairs_of(verdict.headers)),
                body: verdict.body@,
            })
            &&& verdict.action == Action::Stop && status is Some && 100 <= status->Some_0 <= 599
                ==> outcome == (FilteredView::Stop {
                status: status->Some_0,
                headers: wasm::valid_spec(strmap::pairs_of(verdict.headers)),
                body: verdict.body@,
            })
            &&& verdict.action == Action::Stop && status is Some && !(100 <= status->Some_0 <= 599)
                ==> outcome == wasm::decided(plugin, Err(verdict.body))
        }),
{
    let names = verdict.remove_headers@;
    assert(wasm::lowered(text::texts(names)) =~= names.map_values(
        |n: String| text::lower_spec(n@),
    ));
}

/// A filter that could not run refuses the request, or leaves it as it is where its plugin
/// is declared to fail open.
pub proof fn law_what_a_failure_does(plugin: WasmPlugin, error: String)
    ensures
        wasm::decided(plugin, Err(error)) == if plugin.fail_open {
            FilteredView::Continue(EditsView { set: Seq::empty(), remove: Seq::empty() })
        } else {
            FilteredView::Failed("plugin '"@ + plugin.name@ + "' could not run"@)
        },
{
}

/// The last of some pairs with a name.
proof fn lemma_put(
    m: Map<Seq<char>, JsonView>,
    pairs: Seq<(Seq<char>, Seq<char>)>,
    name: Seq<char>,
    at: int,
)
    requires
        -1 <= at < pairs.len(),
        at >= 0 ==> pairs[at].0 == name,
        forall|j: int| at < j < pairs.len() ==> (#[trigger] pairs[j]).0 != name,
    ensures
        at >= 0 ==> wasm::put(m, pairs).contains_key(name) && wasm::put(m, pairs)[name]
            == JsonView::Text(pairs[at].1),
        at < 0 ==> (wasm::put(m, pairs).contains_key(name) <==> m.contains_key(name)),
        at < 0 && m.contains_key(name) ==> wasm::put(m, pairs)[name] == m[name],
    decreases pairs.len(),
{
    if pairs.len() > 0 && at < pairs.len() - 1 {
        assert(pairs[pairs.len() - 1].0 != name);
        assert forall|j: int| at < j < pairs.drop_last().len() implies (
        #[trigger] pairs.drop_last()[j]).0 != name by {
            assert(pairs.drop_last()[j] == pairs[j]);
        }
        lemma_put(m, pairs.drop_last(), name, at);
    }
}

proof fn lemma_removed(m: Map<Seq<char>, JsonView>, names: Seq<Seq<char>>, name: Seq<char>)
    ensures
        wasm::removed(m, names).contains_key(name) <==> m.contains_key(name) && !names.contains(
            name,
        ),
        wasm::removed(m, names).contains_key(name) ==> wasm::removed(m, names)[name] == m[name],
    decreases names.len(),
{
    if names.len() > 0 {
        lemma_removed(m, names.drop_last(), name);
        if names.contains(name) && names.last() != name {
            let i = choose|i: int| 0 <= i < names.len() && names[i] == name;
            assert(names.drop_last()[i] == name);
        }
        if names.drop_last().contains(name) {
            let i = choose|i: int| 0 <= i < names.drop_last().len() && names.drop_last()[i] == name;
            assert(names[i] == name);
        }
        assert(names.last() == name ==> names.contains(name));
    }
}

/// A guest sees a header as the last change before it set it, not at all where it was
/// removed and not set, and as it came where no change speaks of it. `at` is the place of
/// the last change that sets the header, or one before the first where none does.
pub proof fn law_what_a_later_guest_sees(
    came: Map<Seq<char>, JsonView>,
    edits: EditsView,
    name: Seq<char>,
    at: int,
)
    requires
        -1 <= at < edits.set.len(),
        at >= 0 ==> edits.set[at].0 == name,
        forall|j: int| at < j < edits.set.len() ==> (#[trigger] edits.set[j]).0 != name,
    ensures
        ({
            let seen = wasm::edited(came, edits);
            &&& at >= 0 ==> seen.contains_key(name) && seen[name] == JsonView::Text(
                edits.set[at].1,
            )
            &&& at < 0 && edits.remove.contains(name) ==> !seen.contains_key(name)
            &&& at < 0 && !edits.remove.contains(name) ==> (seen.contains_key(name)
                <==> came.contains_key(name))
            &&& at < 0 && !edits.remove.contains(name) && came.contains_key(name) ==> seen[name]
                == came[name]
        }),
{
    lemma_removed(came, edits.remove, name);
    lemma_put(wasm::removed(came, edits.remove), edits.set, name, at);
}

/// Of two changes one after the other: what the first sets and the second removes is not
/// set, everything else that either sets is, the first's before the second's, and what
/// either removes is removed.
pub proof fn law_how_changes_add_up(a: EditsView, b: EditsView)
    ensures
        wasm::accumulated(a, b).set == a.set.filter(
            |p: (Seq<char>, Seq<char>)| !b.remove.contains(p.0),
        ) + b.set,
        wasm::accumulated(a, b).remove == a.remove + b.remove,
{
    lemma_spared(a.set, b.remove);
}

proof fn lemma_spared(pairs: Seq<(Seq<char>, Seq<char>)>, names: Seq<Seq<char>>)
    ensures
        wasm::spared(pairs, names) == pairs.filter(
            |p: (Seq<char>, Seq<char>)| !names.contains(p.0),
        ),
    decreases pairs.len(),
{
    reveal(Seq::filter);
    if pairs.len() > 0 {
        lemma_spared(pairs.drop_last(), names);
    }
}

/// What a filter does to a request where its guest answered so.
spec fn decided_by(filter: WasmFilter, answer: Result<Verdict, String>) -> FilteredView {
    wasm::decided(*filter.plugin, answer)
}

/// A chain of filters with one more: where the others let the request pass, the last one's
/// changes are added to theirs or it ends the request; where one of them ended it, that
/// stands.
pub proof fn law_one_more_filter(
    filters: Seq<WasmFilter>,
    answers: Seq<Result<Verdict, String>>,
    filter: WasmFilter,
    answer: Result<Verdict, String>,
)
    requires
        answers.len() == filters.len(),
    ensures
        ({
            let before = wasm::ran(filters, answers);
            let after = wasm::ran(filters.push(filter), answers.push(answer));
            let own = wasm::decided(*filter.plugin, answer);
            &&& !(before is Continue) ==> after == before
            &&& before is Continue && !(own is Continue) ==> after == own
            &&& before is Continue && own is Continue ==> after is Continue
                && after->Continue_0.remove == before->Continue_0.remove + own->Continue_0.remove
                && after->Continue_0.set == before->Continue_0.set.filter(
                |p: (Seq<char>, Seq<char>)| !own->Continue_0.remove.contains(p.0),
            ) + own->Continue_0.set
        }),
        wasm::ran(Seq::empty(), Seq::empty()) == FilteredView::Continue(
            EditsView { set: Seq::empty(), remove: Seq::empty() },
        ),
{
    assert(filters.push(filter).drop_last() =~= filters);
    assert(answers.push(answer).drop_last() =~= answers);
    let before = wasm::ran(filters, answers);
    let own = decided_by(filter, answer);
    if before is Continue && own is Continue {
        law_how_changes_add_up(before->Continue_0, own->Continue_0);
    }
}

/// One more answer about a response: a verdict adds its changes, whatever action it names; a
/// guest that failed, or a filter without a response phase, adds nothing.
pub proof fn law_one_more_answer(
    answers: Seq<Option<Result<Verdict, String>>>,
    verdict: Verdict,
    error: String,
)
    ensures
        ({
            let before = wasm::responded(answers);
            let after = wasm::responded(answers.push(Some(Ok(verdict))));
            let gone = verdict.remove_headers@.map_values(|n: String| text::lower_spec(n@));
            &&& after.remove == before.remove + gone
            &&& after.set == before.set.filter(
                |p: (Seq<char>, Seq<char>)| !gone.contains(p.0),
            ) + wasm::valid_spec(strmap::pairs_of(verdict.set_headers))
        }),
        wasm::responded(answers.push(None)) == wasm::responded(answers),
        wasm::responded(answers.push(Some(Err(error)))) == wasm::responded(answers),
        wasm::responded(Seq::empty()) == (EditsView { set: Seq::empty(), remove: Seq::empty() }),
{
    let some = Some(Ok::<Verdict, String>(verdict));
    assert(answers.push(some).drop_last() =~= answers);
    assert(answers.push(None).drop_last() =~= answers);
    assert(answers.push(Some(Err(error))).drop_last() =~= answers);
    let names = verdict.remove_headers@;
    let gone = names.map_values(|n: String| text::lower_spec(n@));
    assert(wasm::lowered(text::texts(names)) =~= gone);
    law_how_changes_add_up(wasm::responded(answers), wasm::edits_spec(verdict@));
}

/// A module is one the gateway can run where it exports its memory, an allocator and the
/// function that decides about requests; it has a response phase where it exports that
/// function too.
pub proof fn law_which_modules_can_run(path: &str, exports: Vec<String>, r: Result<bool, String>)
    requires
        call_ensures(wasm::check_exports, (path, &exports), r),
    ensures
        ({
            let has = |name: Seq<char>| text::texts(exports@).contains(name);
            &&& r is Ok <==> has("memory"@) && has("gillnet_alloc"@) && has("gillnet_on_request"@)
            &&& r matches Ok(phase) ==> phase == has("gillnet_on_response"@)
            &&& r matches Err(e) ==> exists|name: Seq<char>|
                !(#[trigger] text::texts(exports@).contains(name)) && (name == "memory"@ || name
                    == "gillnet_alloc"@ || name == "gillnet_on_request"@) && e@ == "module '"@
                    + path@ + "' does not export '"@ + name + "' (see the wasm-plugin ABI)"@
        }),
{
}

/// The settings of a block: none given are an empty object, and given ones are read as JSON
/// and must be an object.
pub proof fn law_what_settings_are(
    params: StrMap<yaml_serde::Value>,
    context: &str,
    r: Result<Json, String>,
)
    requires
        call_ensures(wasm::settings_of, (&params, context), r),
    ensures
        ({
            let given = yaml::block_view(params);
            let read = yaml::yaml_json(given["settings"@]);
            &&& !given.contains_key("settings"@) ==> (r matches Ok(j) && j@ == JsonView::Object(
                Map::empty(),
            ))
            &&& given.contains_key("settings"@) ==> (r is Ok <==> read is Ok && read->Ok_0 is Object)
            &&& given.contains_key("settings"@) && r is Ok ==> r->Ok_0@ == read->Ok_0
            &&& given.contains_key("settings"@) && read is Err ==> (r matches Err(e) && e@
                == context@ + " 'settings' is not representable as JSON: "@ + read->Err_0)
            &&& given.contains_key("settings"@) && read is Ok && !(read->Ok_0 is Object) ==> (
            r matches Err(e) && e@ == context@ + " 'settings' must be a mapping"@)
        }),
{
}

/// What a declaration sets of a plugin: each budget as it says or else the usual one, and to
/// fail open only where it says so.
pub proof fn law_what_a_declaration_sets(
    params: StrMap<yaml_serde::Value>,
    r: Result<wasm::Setup, String>,
    settings: Result<Json, String>,
)
    requires
        call_ensures(wasm::setup, (&params,), r),
        call_ensures(wasm::settings_of, (&params, "wasm-plugin"), settings),
    ensures
        r matches Ok(s) ==> ({
            let given = yaml::block_view(params);
            &&& settings is Ok && settings->Ok_0@ == s.settings@
            &&& !given.contains_key("fuel"@) ==> s.fuel == 10_000_000
            &&& given.contains_key("fuel"@) ==> yaml::as_u64_spec(given["fuel"@]) == Some(s.fuel)
            &&& !given.contains_key("memory-max-bytes"@) ==> s.memory_max_bytes == 16_777_216
            &&& given.contains_key("memory-max-bytes"@) ==> yaml::as_u64_spec(
                given["memory-max-bytes"@],
            ) is Some && s.memory_max_bytes == yaml::as_u64_spec(
                given["memory-max-bytes"@],
            )->Some_0 as usize
            &&& s.fail_open <==> given.contains_key("fail-open"@) && given["fail-open"@]
                == YamlView::Bool(true)
        }),
        settings is Err ==> r is Err,
{
}

/// The settings that a route's filter sees are the plugin's with the route's own laid over
/// them; what only a guard takes is refused.
pub proof fn law_what_a_routes_filter_sees(
    base: Json,
    reference: PluginReference,
    params: StrMap<yaml_serde::Value>,
    own: Result<Json, String>,
    copy: Json,
    laid: Json,
    r: Result<FilterBinding, String>,
)
    requires
        reference.params == Some(params),
        call_ensures(wasm::settings_of, (&params, "a wasm-plugin route reference"), own),
        own is Ok ==> copy@ == own->Ok_0@ && call_ensures(json::merge, (base, copy), laid),
        call_ensures(FilterBinding::from_reference, (&base, &reference), r),
    ensures
        ({
            let given = yaml::block_view(params);
            let guards = given.contains_key("roles"@) || given.contains_key("insert-headers"@);
            &&& r is Ok <==> !guards && own is Ok
            &&& r matches Ok(b) ==> b.name@ == reference.name@ && b.settings@ == laid@
            &&& guards ==> (r matches Err(e) && e@ == "plugin '"@ + reference.name@ + "' is a "@
                + "wasm-plugin"@
                + "; 'roles' and 'insert-headers' belong to auth plugins, put per-route values under 'settings'"@)
            &&& !guards && own is Err ==> r is Err && r->Err_0@ == own->Err_0@
        }),
{
}

/// Laying one value over another: where both are objects, a field that only one has is as it
/// was, and a field that both have is the one laid over the other in turn; anything else is
/// replaced.
pub proof fn law_what_laying_over_gives(
    base: Json,
    overlay: Json,
    r: Json,
    key: Seq<char>,
    under: Json,
    over: Json,
    both: Json,
)
    requires
        call_ensures(json::merge, (base, overlay), r),
        call_ensures(json::merge, (under, over), both),
    ensures
        !(base@ is Object && overlay@ is Object) ==> r@ == overlay@,
        base@ is Object && overlay@ is Object ==> r@ is Object && ({
            let b = base@->Object_0;
            let o = overlay@->Object_0;
            let m = r@->Object_0;
            &&& m.contains_key(key) <==> b.contains_key(key) || o.contains_key(key)
            &&& b.contains_key(key) && !o.contains_key(key) ==> m[key] == b[key]
            &&& o.contains_key(key) && !b.contains_key(key) ==> m[key] == o[key]
            &&& o.contains_key(key) && b.contains_key(key) && !(o[key] is Object && b[key] is Object)
                ==> m[key] == o[key]
        }),
        base@ is Object && overlay@ is Object && base@->Object_0.contains_key(key)
            && overlay@->Object_0.contains_key(key) && base@->Object_0[key] == under@
            && overlay@->Object_0[key] == over@ ==> r@->Object_0[key] == both@,
{
    reveal_with_fuel(json::merged, 2);
}

/// A message that a guest logs is told with the name of its plugin. One that does not lie in
/// the guest's memory, or is no text, is not told; one that is whole is told whole.
pub proof fn law_what_a_guest_logs(
    plugin: Seq<char>,
    memory: Seq<u8>,
    ptr: i32,
    len: i32,
)
    ensures
        ({
            let told = guest::logged(plugin, Some(memory), ptr, len);
            let said = memory.subrange(ptr as int, ptr + len);
            &&& ptr < 0 || len < 0 ==> told.len() == 0
            &&& told.len() <= 1
            &&& 0 <= ptr && 0 <= len <= guest::MAX_LOG_BYTES && ptr + len > memory.len()
                ==> told.len() == 0
            &&& 0 <= ptr && 0 <= len <= guest::MAX_LOG_BYTES && ptr + len <= memory.len() ==> told
                == (if vstd::utf8::valid_utf8(said) {
                seq!["wasm plugin '"@ + plugin + "': "@ + vstd::utf8::decode_utf8(said)]
            } else {
                Seq::empty()
            })
        }),
        guest::logged(plugin, None, ptr, len).len() == 0,
{
    reveal_with_fuel(guest::whole_front, 2);
}

/// Why a call of a guest gave nothing, in words that tell the three ways apart and name the
/// function, and the budget where that ran out.
pub proof fn law_how_a_failed_call_is_told(
    plugin: WasmPlugin,
    export: &str,
    fault: CallFault,
    r: String,
)
    requires
        call_ensures(wasm::trap, (&plugin, export, fault), r),
    ensures
        fault matches CallFault::Signature(why) ==> r@ == "'"@ + export@
            + "' has the wrong signature: "@ + why@,
        fault matches CallFault::Trapped(why) ==> r@ == "'"@ + export@ + "' trapped: "@ + why@,
        fault is OutOfFuel ==> r@ == "'"@ + export@ + "' exhausted its fuel budget of "@
            + text::decimal(plugin.fuel as nat)
            + " (raise 'fuel' if the module legitimately needs more)"@,
{
}

/// The binding that a service which registers itself asks for: the settings it gives are laid
/// over the plugin's, and it may give nothing that only a guard takes.
pub proof fn law_what_a_registered_filter_sees(
    base: Json,
    name: &str,
    roles: Vec<String>,
    insert_headers: StrMap<String>,
    settings: Option<Json>,
    copy: Json,
    laid: Json,
    r: Result<FilterBinding, String>,
)
    requires
        settings is Some ==> copy@ == settings->Some_0@ && call_ensures(
            json::merge,
            (base, copy),
            laid,
        ),
        call_ensures(
            FilterBinding::from_request,
            (&base, name, &roles, &insert_headers, &settings),
            r,
        ),
    ensures
        ({
            let guards = roles@.len() > 0 || insert_headers.entries().len() > 0;
            &&& r is Ok <==> !guards && (settings is Some ==> settings->Some_0@ is Object)
            &&& r matches Ok(b) ==> b.name@ == name@ && b.settings@ == (if settings is Some {
                laid@
            } else {
                base@
            })
        }),
{
}

/// A message that is longer than what is kept of it is told up to where it is cut, less what
/// the cut left of a character: at most three bytes, and no more than it must.
pub proof fn law_how_a_long_message_is_cut(bytes: Seq<u8>)
    ensures
        match guest::message_of(bytes, true) {
            Some(s) => exists|lost: int|
                0 <= lost <= 3 && lost <= bytes.len() && vstd::utf8::valid_utf8(
                    #[trigger] bytes.take(bytes.len() - lost),
                ) && s == vstd::utf8::decode_utf8(bytes.take(bytes.len() - lost)) && forall|
                    less: int,
                |
                    0 <= less < lost ==> !vstd::utf8::valid_utf8(
                        #[trigger] bytes.take(bytes.len() - less),
                    ),
            None => forall|lost: int|
                0 <= lost <= 3 && lost <= bytes.len() ==> !vstd::utf8::valid_utf8(
                    #[trigger] bytes.take(bytes.len() - lost),
                ),
        },
        guest::message_of(bytes, false) == (if vstd::utf8::valid_utf8(bytes) {
            Some(vstd::utf8::decode_utf8(bytes))
        } else {
            None
        }),
{
    lemma_cut(bytes, 3);
    reveal_with_fuel(guest::whole_front, 2);
}

#[verifier::spinoff_prover]
#[verifier::rlimit(50)]
proof fn lemma_cut(bytes: Seq<u8>, spare: nat)
    ensures
        match guest::whole_front(bytes, spare) {
            Some(s) => exists|lost: int|
                0 <= lost <= spare && lost <= bytes.len() && vstd::utf8::valid_utf8(
                    #[trigger] bytes.take(bytes.len() - lost),
                ) && s == vstd::utf8::decode_utf8(bytes.take(bytes.len() - lost)) && forall|
                    less: int,
                |
                    0 <= less < lost ==> !vstd::utf8::valid_utf8(
                        #[trigger] bytes.take(bytes.len() - less),
                    ),
            None => forall|lost: int|
                0 <= lost <= spare && lost <= bytes.len() ==> !vstd::utf8::valid_utf8(
                    #[trigger] bytes.take(bytes.len() - lost),
                ),
        },
    decreases spare,
{
    let n = bytes.len() as int;
    assert(bytes.take(n) =~= bytes);
    assert(bytes.take(n - 0) =~= bytes);
    if vstd::utf8::valid_utf8(bytes) || spare == 0 || bytes.len() == 0 {
        if !vstd::utf8::valid_utf8(bytes) {
            assert forall|lost: int| 0 <= lost <= spare && lost <= n implies !vstd::utf8::valid_utf8(
                #[trigger] bytes.take(n - lost),
            ) by {
                assert(lost == 0);
            }
        }
    } else {
        let front = bytes.drop_last();
        lemma_cut(front, (spare - 1) as nat);
        assert forall|k: int| 0 <= k <= n - 1 implies #[trigger] front.take(k) == bytes.take(k) by {
            assert(front.take(k) =~= bytes.take(k));
        }
        match guest::whole_front(front, (spare - 1) as nat) {
            Some(s) => {
                let lost = choose|lost: int|
                    0 <= lost <= spare - 1 && lost <= front.len() && vstd::utf8::valid_utf8(
                        #[trigger] front.take(front.len() - lost),
                    ) && s == vstd::utf8::decode_utf8(front.take(front.len() - lost)) && forall|
                        less: int,
                    |
                        0 <= less < lost ==> !vstd::utf8::valid_utf8(
                            #[trigger] front.take(front.len() - less),
                        );
                assert(front.take(front.len() - lost) == bytes.take(n - (lost + 1)));
                assert forall|less: int| 0 <= less < lost + 1 implies !vstd::utf8::valid_utf8(
                    #[trigger] bytes.take(n - less),
                ) by {
                    if less > 0 {
                        assert(front.take(front.len() - (less - 1)) == bytes.take(n - less));
                    }
                }
            },
            None => {
                assert forall|lost: int| 0 <= lost <= spare && lost <= n implies
                    !vstd::utf8::valid_utf8(#[trigger] bytes.take(n - lost)) by {
                    if lost > 0 {
                        assert(front.take(front.len() - (lost - 1)) == bytes.take(n - lost));
                    }
                }
            },
        }
    }
}

/// Of a long message what lies in memory up to the limit is told.
pub proof fn law_how_much_of_a_message_is_told(
    plugin: Seq<char>,
    memory: Seq<u8>,
    ptr: i32,
    len: i32,
)
    requires
        0 <= ptr,
        len > guest::MAX_LOG_BYTES,
    ensures
        ({
            let told = guest::logged(plugin, Some(memory), ptr, len);
            let end = ptr + guest::MAX_LOG_BYTES;
            let said = guest::message_of(memory.subrange(ptr as int, end), true);
            &&& end > memory.len() ==> told.len() == 0
            &&& end <= memory.len() ==> told == (if said is Some {
                seq!["wasm plugin '"@ + plugin + "': "@ + said->Some_0]
            } else {
                Seq::empty()
            })
        }),
{
}

/// Each header that a guest asks for and no header can carry is told of, in order.
pub proof fn law_what_is_said_of_dropped_headers(
    plugin: Seq<char>,
    pairs: Seq<(Seq<char>, Seq<char>)>,
)
    ensures
        wasm::dropped(plugin, pairs) == pairs.filter(
            |p: (Seq<char>, Seq<char>)|
                !(headers::valid_name(p.0) && headers::valid_value(p.1)),
        ).map_values(
            |p: (Seq<char>, Seq<char>)|
                "wasm plugin '"@ + plugin + "' returned an invalid header '"@ + p.0
                    + "'; dropping it"@,
        ),
    decreases pairs.len(),
{
    reveal(Seq::filter);
    let gone = |p: (Seq<char>, Seq<char>)|
        !(headers::valid_name(p.0) && headers::valid_value(p.1));
    let line = |p: (Seq<char>, Seq<char>)|
        "wasm plugin '"@ + plugin + "' returned an invalid header '"@ + p.0 + "'; dropping it"@;
    if pairs.len() == 0 {
        assert(Seq::<Seq<char>>::empty() =~= pairs.filter(gone).map_values(line));
    } else {
        law_what_is_said_of_dropped_headers(plugin, pairs.drop_last());
        let front = pairs.drop_last().filter(gone);
        if gone(pairs.last()) {
            assert(front.push(pairs.last()).map_values(line) =~= front.map_values(line).push(
                line(pairs.last()),
            ));
        }
    }
}

/// What is said of one filter's answer about a request: of its headers that were dropped, or
/// that it failed and why.
pub proof fn law_what_is_said_of_an_answer(plugin: WasmPlugin, verdict: Verdict, error: String)
    ensures
        wasm::decided_lines(plugin, Err(error)) == seq![
            "wasm plugin '"@ + plugin.name@ + "' failed in the "@ + "request"@ + " phase: "@
                + error@,
        ],
        ({
            let said = wasm::decided_lines(plugin, Ok(verdict));
            let status = verdict.status;
            let bad = status is Some && !(100 <= status->Some_0 <= 599);
            &&& verdict.action == Action::Continue ==> said == wasm::dropped(
                plugin.name@,
                strmap::pairs_of(verdict.set_headers),
            )
            &&& verdict.action == Action::Stop && !bad ==> said == wasm::dropped(
                plugin.name@,
                strmap::pairs_of(verdict.headers),
            )
            &&& verdict.action == Action::Stop && bad ==> said == seq![
                "wasm plugin '"@ + plugin.name@ + "' failed in the "@ + "request"@ + " phase: "@
                    + ("returned invalid status "@ + text::decimal(status->Some_0 as nat)),
            ]
        }),
{
}

/// While a chain of filters runs, each guest's own messages are told before what is said of
/// its answer, in the order of the filters.
pub proof fn law_in_what_order_a_chain_is_told_of(
    filters: Seq<WasmFilter>,
    answers: Seq<Result<Verdict, String>>,
    heard: Seq<Seq<Seq<char>>>,
    filter: WasmFilter,
    answer: Result<Verdict, String>,
    lines: Seq<Seq<char>>,
)
    requires
        answers.len() == filters.len(),
        heard.len() == filters.len(),
    ensures
        wasm::ran_lines(filters.push(filter), answers.push(answer), heard.push(lines))
            == wasm::ran_lines(filters, answers, heard) + lines + wasm::decided_lines(
            *filter.plugin,
            answer,
        ),
        wasm::ran_lines(Seq::empty(), Seq::empty(), Seq::empty()).len() == 0,
{
    assert(filters.push(filter).drop_last() =~= filters);
    assert(answers.push(answer).drop_last() =~= answers);
    assert(heard.push(lines).drop_last() =~= heard);
}

/// A module that was loaded is the plugin of its declaration: under its name, from its file,
/// with the budgets and settings that the declaration sets, and with a response phase where
/// the module exports one.
pub proof fn law_what_loading_gives(
    engine: wasmtime::Engine,
    config: PluginConfig,
    path: &str,
    source: Seq<u8>,
    exports: Vec<String>,
    phase: Result<bool, String>,
    set: Result<wasm::Setup, String>,
    r: Result<WasmPlugin, String>,
)
    requires
        wasm::loaded(engine, config, path@, source, r),
        text::texts(exports@) == guest::exports_of(source),
        call_ensures(wasm::check_exports, (path, &exports), phase),
        call_ensures(wasm::setup, (&config.params,), set),
    ensures
        r matches Ok(plugin) ==> {
            &&& plugin.name@ == config.name@
            &&& plugin.module_file@ == path@
            &&& phase == Ok::<bool, String>(plugin.has_response_phase)
            &&& set is Ok
            &&& plugin.settings@ == set->Ok_0.settings@
            &&& plugin.fuel == set->Ok_0.fuel
            &&& plugin.memory_max_bytes == set->Ok_0.memory_max_bytes
            &&& plugin.fail_open == set->Ok_0.fail_open
        },
{
}

/// A module whose file cannot be read is not loaded, and one whose place cannot be told is not
/// looked for.
pub proof fn law_how_a_missing_module_is_told(
    runtime: WasmRuntime,
    config: PluginConfig,
    why: String,
    env: StrMap<String>,
    path: Result<String, String>,
    r: Result<WasmPlugin, String>,
)
    requires
        call_ensures(wasm::module_file, (&config, &env), path),
        call_ensures(WasmRuntime::load, (&runtime, &config, Err(why), &env), r),
    ensures
        r matches Err(e) && e@ == (match path {
            Ok(file) => "could not load module '"@ + file@ + "': "@ + why@,
            Err(wrong) => wrong@,
        }),
{
}

/// What a guest's bytes come to: the verdict they parse to, or an answer that says what was
/// wrong with them and which function gave them.
pub proof fn law_how_an_answer_is_read(
    export: Seq<char>,
    parsed: Result<Verdict, String>,
    answer: Result<Verdict, String>,
)
    requires
        wasm::understood(export, parsed, answer),
    ensures
        parsed matches Ok(v) ==> answer == Ok::<Verdict, String>(v),
        parsed matches Err(why) ==> (answer matches Err(e) && e@ == "'"@ + export
            + "' returned invalid JSON: "@ + why@),
{
}

/// A payload that is too long for a guest to address is not handed over, and neither is one
/// for which the guest gives room that does not lie in its memory.
pub proof fn law_what_cannot_be_handed_over(
    plugin: WasmPlugin,
    export: Seq<char>,
    payload: Seq<u8>,
    guest: Guest,
    offset: i32,
    heard: Seq<Seq<char>>,
    said: Result<Seq<u8>, Seq<char>>,
)
    ensures
        payload.len() > 0x7fff_ffff && wasm::replies(plugin, export, payload, guest, heard, said)
            ==> said == Err::<Seq<u8>, Seq<char>>(
            "the request is too large to pass to a guest"@,
        ) && heard == guest::guest_lines(guest),
        (offset < 0 || offset + payload.len() > guest::guest_bytes(guest).len())
            && wasm::comes_to(plugin, export, payload, guest, offset, heard, said) ==> said
            == Err::<Seq<u8>, Seq<char>>(
            "'"@ + "gillnet_alloc"@ + "' returned unusable memory: "@
                + "out of bounds memory access"@,
        ) && heard == guest::guest_lines(guest),
{
}

/// A request is filtered by its filters in turn, up to the first that ends it: each of them is
/// asked, none is left out, and what they decide together is the outcome.
pub proof fn law_every_filter_has_its_turn<F: Fn(Vec<u8>) -> Result<Verdict, String>>(
    filters: Seq<WasmFilter>,
    line: RequestLine,
    fields: Map<Seq<char>, JsonView>,
    parse: F,
    answers: Seq<Result<Verdict, String>>,
    heard: Seq<Seq<Seq<char>>>,
    outcome: FilteredView,
    said: Seq<Seq<char>>,
    i: int,
)
    requires
        wasm::filtered(filters, line, fields, parse, answers, heard, outcome, said),
    ensures
        answers.len() <= filters.len(),
        outcome is Continue ==> answers.len() == filters.len(),
        outcome == wasm::ran(filters.take(answers.len() as int), answers),
        0 <= i < answers.len() ==> exists|
            shown: Map<Seq<char>, JsonView>,
            seen: Map<Seq<char>, JsonView>,
        |
            #[trigger] wasm::exchanged(
                *filters[i].plugin,
                "gillnet_on_request"@,
                JsonView::Object(shown),
                parse,
                heard[i],
                answers[i],
            ) && #[trigger] shows_request(shown, line, seen, filters[i].settings@),
        said == wasm::ran_lines(filters.take(answers.len() as int), answers, heard),
{
    if 0 <= i < answers.len() {
        assert(wasm::turn(filters, line, fields, parse, answers, heard, i));
        law_every_filter_is_shown_the_line(filters, line, fields, parse, answers, heard, i);
    }
}

/// A response is edited by every filter in turn, and what they change together is what is
/// changed.
pub proof fn law_every_filter_may_edit_a_response<F: Fn(Vec<u8>) -> Result<Verdict, String>>(
    filters: Seq<WasmFilter>,
    head: ResponseHead,
    parse: F,
    answers: Seq<Option<Result<Verdict, String>>>,
    heard: Seq<Seq<Seq<char>>>,
    edits: EditsView,
    said: Seq<Seq<char>>,
    i: int,
)
    requires
        wasm::responses(filters, head, parse, answers, heard, edits, said),
        0 <= i < filters.len(),
    ensures
        answers.len() == filters.len(),
        edits == wasm::responded(answers),
        answers[i] is Some <==> filters[i].plugin.has_response_phase,
        said == wasm::response_lines(filters, head.route, answers, heard),
{
    assert(wasm::response_turn(filters, head, parse, answers, heard, i));
    law_who_is_shown_a_response(filters, head, parse, answers, heard, i);
}

/// While a response is edited, each guest's own messages are told before what is said of its
/// answer: of headers that were dropped, or that it failed, for which route and why.
pub proof fn law_in_what_order_edits_are_told_of(
    filters: Seq<WasmFilter>,
    route: Seq<char>,
    answers: Seq<Option<Result<Verdict, String>>>,
    heard: Seq<Seq<Seq<char>>>,
    filter: WasmFilter,
    verdict: Verdict,
    error: String,
    lines: Seq<Seq<char>>,
)
    requires
        answers.len() == filters.len(),
        heard.len() == filters.len(),
    ensures
        wasm::response_lines(
            filters.push(filter),
            route,
            answers.push(Some(Err(error))),
            heard.push(lines),
        ) == wasm::response_lines(filters, route, answers, heard) + lines + seq![
            "wasm plugin '"@ + filter.plugin.name@ + "' failed in the response phase for route '"@
                + route + "': "@ + error@,
        ],
        wasm::response_lines(
            filters.push(filter),
            route,
            answers.push(Some(Ok(verdict))),
            heard.push(lines),
        ) == wasm::response_lines(filters, route, answers, heard) + lines + wasm::dropped(
            filter.plugin.name@,
            strmap::pairs_of(verdict.set_headers),
        ),
{
    assert(filters.push(filter).drop_last() =~= filters);
    assert(answers.push(Some(Err(error))).drop_last() =~= answers);
    assert(answers.push(Some(Ok(verdict))).drop_last() =~= answers);
    assert(heard.push(lines).drop_last() =~= heard);
}

/// A payload for which the guest gives room in its memory is handed over there and the guest is
/// run on it: its answer is read where it says, or the call's fault is told.
pub proof fn law_what_is_handed_over_is_run(
    plugin: WasmPlugin,
    export: Seq<char>,
    payload: Seq<u8>,
    ready: Guest,
    offset: i32,
    heard: Seq<Seq<char>>,
    said: Result<Seq<u8>, Seq<char>>,
)
    requires
        0 <= offset,
        offset + payload.len() <= guest::guest_bytes(ready).len(),
        wasm::comes_to(plugin, export, payload, ready, offset, heard, said),
    ensures
        exists|asked: Guest, done: Guest, result: Result<i64, CallFault>| #[trigger]
            wasm::runs_on(export, payload, ready, offset, asked, done, result) && heard
                == guest::guest_lines(done) && match result {
                Ok(wide) => said == wasm::packed_spec(guest::guest_bytes(done), wide),
                Err(fault) => said == Err::<Seq<u8>, Seq<char>>(
                    wasm::fault_text(plugin.fuel, export, fault),
                ),
            },
{
}

/// Why a module was not loaded: it does not compile, it lacks an export, it cannot be linked, or
/// its declaration is wrong.
pub proof fn law_why_a_module_is_not_loaded(
    engine: wasmtime::Engine,
    config: PluginConfig,
    path: &str,
    source: Seq<u8>,
    exports: Vec<String>,
    phase: Result<bool, String>,
    set: Result<wasm::Setup, String>,
    e: String,
)
    requires
        wasm::loaded(engine, config, path@, source, Err(e)),
        text::texts(exports@) == guest::exports_of(source),
        call_ensures(wasm::check_exports, (path, &exports), phase),
        call_ensures(wasm::setup, (&config.params,), set),
    ensures
        ({
            ||| exists|why: Seq<char>| #[trigger]
                guest::compiles(engine, source, Err(why)) && e@ == "could not load module '"@
                    + path@ + "': "@ + why
            ||| phase is Err && phase->Err_0@ == e@
            ||| exists|fault: guest::LinkFault| #[trigger]
                wasm::made_of(engine, source, Err(fault)) && e@ == (match fault {
                    guest::LinkFault::Host(why) =>
                        "could not define the host 'gillnet.log' function: "@ + why@,
                    guest::LinkFault::Import(why) => "module '"@ + path@
                        + "' could not be linked: "@ + why@,
                })
            ||| set is Err && set->Err_0@ == e@
        }),
{
}

/// A plugin that was loaded is the linked form of what its source compiled to, with the one
/// function that the host lends a guest.
pub proof fn law_what_a_plugin_is_made_of(
    engine: wasmtime::Engine,
    config: PluginConfig,
    path: Seq<char>,
    source: Seq<u8>,
    plugin: WasmPlugin,
)
    requires
        wasm::loaded(engine, config, path, source, Ok(plugin)),
    ensures
        exists|module: wasmtime::Module|
            #[trigger] guest::links(module, "gillnet"@, "log"@, Ok(plugin.instance_pre))
                && guest::compiles(engine, source, Ok(module)),
{
}

/// A payload that a guest can address is announced to it: its allocator is asked for room of
/// that length.
pub proof fn law_room_is_asked_for(
    plugin: WasmPlugin,
    export: Seq<char>,
    payload: Seq<u8>,
    fresh: Guest,
    heard: Seq<Seq<char>>,
    said: Result<Seq<u8>, Seq<char>>,
)
    requires
        payload.len() <= 0x7fff_ffff,
        wasm::replies(plugin, export, payload, fresh, heard, said),
    ensures
        exists|ready: Guest, result: Result<i32, CallFault>| #[trigger]
            guest::runs(
                fresh,
                "gillnet_alloc"@,
                seq![payload.len() as i32],
                ready,
                guest::widened(result),
            ) && match result {
                Ok(offset) => wasm::comes_to(plugin, export, payload, ready, offset, heard, said),
                Err(fault) => said == Err::<Seq<u8>, Seq<char>>(
                    wasm::fault_text(plugin.fuel, "gillnet_alloc"@, fault),
                ) && heard == guest::guest_lines(ready),
            },
{
}

} // verus!
