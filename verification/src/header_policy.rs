//! A filter in the small: header policy.
//!
//! What a guest decides when it requires headers on the way in, stamps headers onto the
//! upstream request and adds headers to the response. Everything comes from the
//! settings it is handed, so one module serves every route that references it.

use crate::plugins::wasm::{Action, Verdict, VerdictView};
use crate::strmap;
use crate::strmap::StrMap;
use crate::text;
use vstd::prelude::*;
use vstd::string::*;

verus! {

/// The settings of the policy on a route.
pub struct Settings {
    /// The value a header must have, or `*` for one that must only be there.
    pub require: StrMap<String>,
    /// Headers stamped onto the request before it goes upstream.
    pub set: StrMap<String>,
    /// Headers stripped from the request.
    pub strip: Vec<String>,
    /// Headers added to the response on the way back.
    pub response_set: StrMap<String>,
    /// The status a request is denied with; 0 where none is given.
    pub deny_status: u16,
}

impl Default for Settings {
    fn default() -> (r: Settings)
        ensures
            r.require@ == Map::<Seq<char>, String>::empty(),
            r.set@ == Map::<Seq<char>, String>::empty(),
            r.strip@ == Seq::<String>::empty(),
            r.response_set@ == Map::<Seq<char>, String>::empty(),
            r.deny_status == 0,
    {
        Settings {
            require: StrMap::new(),
            set: StrMap::new(),
            strip: Vec::new(),
            response_set: StrMap::new(),
            deny_status: 0,
        }
    }
}

impl Settings {
    /// The status a request is denied with: 0 is none that a gateway can send.
    pub open spec fn denied(self) -> u16 {
        if self.deny_status == 0 {
            403
        } else {
            self.deny_status
        }
    }

    /// The status a request is denied with.
    pub fn deny_status(&self) -> (r: u16)
        ensures
            r == self.denied(),
    {
        if self.deny_status == 0 {
            403
        } else {
            self.deny_status
        }
    }
}

/// What the policy reads of a request.
pub struct Request {
    pub path: String,
    pub headers: StrMap<String>,
    pub settings: Settings,
}

/// Whether a header is as required.
pub open spec fn satisfied(
    fields: Map<Seq<char>, String>,
    header: Seq<char>,
    expected: Seq<char>,
) -> bool {
    let name = text::lower_spec(header);
    fields.contains_key(name) && (expected == "*"@ || fields[name]@ == expected)
}

/// The first header that is not as required.
pub open spec fn unmet(
    fields: Map<Seq<char>, String>,
    require: Seq<(Seq<char>, Seq<char>)>,
) -> Option<Seq<char>>
    decreases require.len(),
{
    if require.len() == 0 {
        None
    } else {
        match unmet(fields, require.drop_last()) {
            Some(header) => Some(header),
            None => if satisfied(fields, require.last().0, require.last().1) {
                None
            } else {
                Some(text::lower_spec(require.last().0))
            },
        }
    }
}

/// A verdict that lets everything pass as it is.
pub open spec fn passing() -> VerdictView {
    VerdictView {
        action: Action::Continue,
        set_headers: Seq::empty(),
        remove_headers: Seq::empty(),
        status: None,
        headers: Seq::empty(),
        body: Seq::empty(),
    }
}

/// A verdict that answers the request.
pub open spec fn stopping(status: u16, body: Seq<char>) -> VerdictView {
    VerdictView { action: Action::Stop, status: Some(status), body, ..passing() }
}

/// Why a request that cannot be read is refused.
pub const UNREADABLE: &'static str = "the host sent JSON this plugin cannot read";

/// What the policy decides about a request.
pub open spec fn decision(request: Option<Request>) -> VerdictView {
    match request {
        None => stopping(500, UNREADABLE@ + "\n"@),
        Some(request) => match unmet(request.headers@, strmap::pairs_of(request.settings.require)) {
            Some(header) => stopping(
                request.settings.denied(),
                "'"@ + header + "' is required on this route\n"@,
            ),
            None => VerdictView {
                set_headers: strmap::pairs_of(request.settings.set),
                remove_headers: text::texts(request.settings.strip@),
                ..passing()
            },
        },
    }
}

/// What the policy says about a request in the log.
pub open spec fn remarks(request: Option<Request>) -> Seq<Seq<char>> {
    match request {
        None => seq![UNREADABLE@],
        Some(request) => match unmet(request.headers@, strmap::pairs_of(request.settings.require)) {
            Some(header) => seq![
                request.path@ + " rejected: '"@ + header + "' is not as required"@,
            ],
            None => Seq::empty(),
        },
    }
}

/// The verdict that lets everything pass as it is.
pub fn pass() -> (r: Verdict)
    ensures
        r@ == passing(),
{
    let r = Verdict {
        action: Action::Continue,
        set_headers: StrMap::new(),
        remove_headers: Vec::new(),
        status: None,
        headers: StrMap::new(),
        body: String::new(),
    };
    proof {
        assert(r@.set_headers =~= Seq::empty());
        assert(r@.headers =~= Seq::empty());
        assert(r@.remove_headers =~= Seq::empty());
        assert(r@.body =~= Seq::empty());
    }
    r
}

/// The verdict that answers the request.
fn stop(status: u16, body: String) -> (r: Verdict)
    ensures
        r@ == stopping(status, body@),
{
    let mut r = pass();
    r.action = Action::Stop;
    r.status = Some(status);
    r.body = body;
    r
}

/// The first header that is not as required.
pub fn first_unmet(request: &Request) -> (r: Option<String>)
    ensures
        text::opt_of(r) == unmet(request.headers@, strmap::pairs_of(request.settings.require)),
{
    let require = &request.settings.require;
    let n = require.len();
    let ghost all = strmap::pairs_of(*require);
    let mut found: Option<String> = None;
    let mut i: usize = 0;
    proof {
        assert(all.take(0) =~= Seq::empty());
    }
    while i < n
        invariant
            i <= n,
            n == require.entries().len(),
            all == strmap::pairs_of(*require),
            text::opt_of(found) == unmet(request.headers@, all.take(i as int)),
        decreases n - i,
    {
        let (header, expected) = require.at(i);
        proof {
            assert(all.take(i + 1).drop_last() =~= all.take(i as int));
            assert(all.take(i + 1).last() == (header@, expected@));
        }
        if found.is_none() {
            let name = text::lower(header);
            let met = match request.headers.get(name.as_str()) {
                Some(actual) => text::same(expected.as_str(), "*") || text::same(
                    actual.as_str(),
                    expected.as_str(),
                ),
                None => false,
            };
            if !met {
                found = Some(name);
            }
        }
        i = i + 1;
    }
    proof {
        assert(all.take(i as int) =~= all);
    }
    found
}

/// Decides about a request, `None` standing for one that could not be read.
pub fn on_request(request: Option<Request>, log: &mut Vec<String>) -> (r: Verdict)
    ensures
        r@ == decision(request),
        text::texts(final(log)@) == text::texts(old(log)@) + remarks(request),
{
    let ghost said = text::texts(log@);
    let request = match request {
        Some(request) => request,
        None => {
            log.push(UNREADABLE.to_owned());
            proof {
                assert(text::texts(log@) =~= said + seq![UNREADABLE@]);
            }
            return stop(500, text::cat2(UNREADABLE, "\n"));
        },
    };
    if let Some(header) = first_unmet(&request) {
        let line = text::cat2(
            text::cat3(request.path.as_str(), " rejected: '", header.as_str()).as_str(),
            "' is not as required",
        );
        log.push(line);
        proof {
            assert(text::texts(log@) =~= said + seq![line@]);
        }
        return stop(
            request.settings.deny_status(),
            text::cat3("'", header.as_str(), "' is required on this route\n"),
        );
    }
    proof {
        assert(said + Seq::<Seq<char>>::empty() =~= said);
    }
    let mut r = pass();
    r.set_headers = request.settings.set;
    r.remove_headers = request.settings.strip;
    r
}

/// Decides about a response, from the settings it came with; one that could not be read
/// passes as it is.
pub fn on_response(settings: Option<Settings>) -> (r: Verdict)
    ensures
        r@ == match settings {
            Some(settings) => VerdictView {
                set_headers: strmap::pairs_of(settings.response_set),
                ..passing()
            },
            None => passing(),
        },
{
    let mut r = pass();
    if let Some(settings) = settings {
        r.set_headers = settings.response_set;
    }
    r
}

/// The header that is required and missing or different is named in the refusal, and
/// where every required header is as required the request passes.
pub proof fn law_a_request_passes_iff_every_required_header_is_met(request: Request)
    ensures
        (decision(Some(request)).action == Action::Continue) <==> forall|i: int|
            0 <= i < request.settings.require.entries().len() ==> satisfied(
                request.headers@,
                #[trigger] request.settings.require.entries()[i].0@,
                request.settings.require.entries()[i].1@,
            ),
{
    let e = request.settings.require.entries();
    lemma_unmet(request.headers@, strmap::pairs_of(request.settings.require));
    assert forall|i: int| 0 <= i < e.len() implies strmap::pairs_of(request.settings.require)[i] == (
        #[trigger] e[i].0@,
        e[i].1@,
    ) by {}
}

/// Nothing is unmet exactly where every requirement is satisfied.
proof fn lemma_unmet(fields: Map<Seq<char>, String>, require: Seq<(Seq<char>, Seq<char>)>)
    ensures
        (unmet(fields, require) is None) <==> forall|i: int|
            0 <= i < require.len() ==> satisfied(
                fields,
                (#[trigger] require[i]).0,
                require[i].1,
            ),
    decreases require.len(),
{
    if require.len() > 0 {
        let front = require.drop_last();
        lemma_unmet(fields, front);
        assert(require[require.len() - 1] == require.last());
        if unmet(fields, front) is None {
            assert forall|i: int| 0 <= i < front.len() implies satisfied(
                fields,
                (#[trigger] require[i]).0,
                require[i].1,
            ) by {
                assert(front[i] == require[i]);
            }
        } else {
            let i = choose|i: int|
                0 <= i < front.len() && !satisfied(fields, (#[trigger] front[i]).0, front[i].1);
            assert(front[i] == require[i]);
        }
    }
}

} // verus!
