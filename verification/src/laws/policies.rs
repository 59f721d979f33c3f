//! The policy on headers that a guest can enforce.

use crate::header_policy;
use crate::header_policy::{Request, Settings};
use crate::plugins::wasm::{Action, Verdict};
use crate::strmap;
use crate::text;
use vstd::prelude::*;
use vstd::string::*;

verus! {

/// Whether a request has a header as a route requires it: it is there under its name in small
/// letters, and holds the required value unless any will do.
pub open spec fn meets(request: Request, header: Seq<char>, expected: Seq<char>) -> bool {
    let name = text::lower_spec(header);
    request.headers@.contains_key(name) && (expected == seq!['*'] || request.headers@[name]@
        == expected)
}

/// A request is as required where every header is; otherwise the first that is not is named,
/// in small letters.
pub proof fn law_which_header_is_missing(request: Request, r: Option<String>)
    requires
        call_ensures(header_policy::first_unmet, (&request,), r),
    ensures
        ({
            let require = strmap::pairs_of(request.settings.require);
            &&& r is None <==> forall|i: int|
                0 <= i < require.len() ==> meets(
                    request,
                    (#[trigger] require[i]).0,
                    require[i].1,
                )
            &&& r matches Some(h) ==> exists|i: int|
                0 <= i < require.len() && !meets(request, (#[trigger] require[i]).0, require[i].1)
                    && (forall|j: int|
                    0 <= j < i ==> meets(request, (#[trigger] require[j]).0, require[j].1)) && h@
                    == text::lower_spec(require[i].0)
        }),
{
    lemma_unmet(request, strmap::pairs_of(request.settings.require));
}

proof fn lemma_unmet(request: Request, require: Seq<(Seq<char>, Seq<char>)>)
    ensures
        match header_policy::unmet(request.headers@, require) {
            None => forall|i: int|
                0 <= i < require.len() ==> meets(request, (#[trigger] require[i]).0, require[i].1),
            Some(h) => exists|i: int|
                0 <= i < require.len() && !meets(request, (#[trigger] require[i]).0, require[i].1)
                    && (forall|j: int|
                    0 <= j < i ==> meets(request, (#[trigger] require[j]).0, require[j].1)) && h
                    == text::lower_spec(require[i].0),
        },
    decreases require.len(),
{
    reveal_strlit("*");
    assert("*"@ =~= seq!['*']);
    if require.len() > 0 {
        let front = require.drop_last();
        let n = require.len() - 1;
        lemma_unmet(request, front);
        assert(forall|i: int| 0 <= i < n ==> front[i] == #[trigger] require[i]);
        assert(require[n] == require.last());
        match header_policy::unmet(request.headers@, front) {
            None => {
                assert forall|i: int| 0 <= i < n implies meets(
                    request,
                    (#[trigger] require[i]).0,
                    require[i].1,
                ) by {
                    assert(front[i] == require[i]);
                }
            },
            Some(h) => {
                let i = choose|i: int|
                    0 <= i < front.len() && !meets(request, (#[trigger] front[i]).0, front[i].1)
                        && (forall|j: int|
                        0 <= j < i ==> meets(request, (#[trigger] front[j]).0, front[j].1)) && h
                        == text::lower_spec(front[i].0);
                assert(require[i] == front[i]);
                assert forall|j: int| 0 <= j < i implies meets(
                    request,
                    (#[trigger] require[j]).0,
                    require[j].1,
                ) by {
                    assert(front[j] == require[j]);
                }
            },
        }
    }
}

/// A request that is as required goes on, with the headers that the route sets and without
/// those it strips; one that is not is denied, with the route's status or with 403, in words
/// that name the header; one that cannot be read is answered with 500.
pub proof fn law_what_the_policy_decides(
    request: Request,
    missing: Option<String>,
    status: u16,
)
    requires
        call_ensures(header_policy::first_unmet, (&request,), missing),
        call_ensures(Settings::deny_status, (&request.settings,), status),
    ensures
        status == (if request.settings.deny_status == 0 {
            403
        } else {
            request.settings.deny_status
        }),
        ({
            let verdict = header_policy::decision(Some(request));
            &&& missing is None ==> verdict.action == Action::Continue && verdict.set_headers
                == strmap::pairs_of(request.settings.set) && verdict.remove_headers == text::texts(
                request.settings.strip@,
            ) && verdict.status is None
            &&& missing matches Some(h) ==> verdict.action == Action::Stop && verdict.status
                == Some(status) && verdict.headers.len() == 0 && verdict.body == "'"@ + h@
                + "' is required on this route\n"@
        }),
        header_policy::decision(None).action == Action::Stop,
        header_policy::decision(None).status == Some(500u16),
        header_policy::decision(None).set_headers.len() == 0,
{
}

/// A response goes on with the headers that the route adds, and as it is where the settings
/// cannot be read.
pub proof fn law_what_the_policy_adds(settings: Option<Settings>, r: Verdict)
    requires
        call_ensures(header_policy::on_response, (settings,), r),
    ensures
        r@.action == Action::Continue,
        r@.remove_headers.len() == 0,
        settings is None ==> r@.set_headers.len() == 0,
        settings matches Some(s) ==> r@.set_headers == strmap::pairs_of(s.response_set),
{
}

/// What the policy says in the log of a request that it denies: where it went and which header
/// is not as required; of one that passes it says nothing.
pub proof fn law_what_the_policy_says(request: Request, missing: Option<String>)
    requires
        call_ensures(header_policy::first_unmet, (&request,), missing),
    ensures
        missing is None ==> header_policy::remarks(Some(request)).len() == 0,
        missing matches Some(h) ==> header_policy::remarks(Some(request)) == seq![
            request.path@ + " rejected: '"@ + h@ + "' is not as required"@,
        ],
        header_policy::remarks(None).len() == 1,
{
}

} // verus!
