//! Websockets: which requests ask for one, what is asked of the upstream, and what
//! becomes of every frame.

use crate::headers;
use crate::headers::HeaderList;
use crate::proxy;
use crate::proxy::{Reply, ReplyView};
use crate::text;
use vstd::prelude::*;
use vstd::string::*;

verus! {

/// Whether a request asks for an upgrade to a websocket.
pub open spec fn upgrade_spec(fields: Seq<(Seq<char>, Seq<u8>)>) -> bool {
    &&& headers::text_spec(fields, "upgrade"@) matches Some(value) && text::lower_spec(value)
        == text::lower_spec("websocket"@)
    &&& proxy::tokens_spec(fields).contains("upgrade"@)
}

/// Tests whether a request asks for an upgrade to a websocket.
pub fn is_upgrade(fields: &HeaderList) -> (r: bool)
    ensures
        r == upgrade_spec(fields@),
{
    let upgrades = match fields.text("upgrade") {
        Some(value) => text::same_ignoring_case(value.as_str(), "websocket"),
        None => false,
    };
    upgrades && text::contains_text(&proxy::connection_tokens(fields), "upgrade")
}

/// The place of the first `://` in a text, or its length where there is none.
pub open spec fn scheme_end(s: Seq<char>) -> int
    decreases s.len(),
{
    if s.len() < 3 {
        s.len() as int
    } else if s[0] == ':' && s[1] == '/' && s[2] == '/' {
        0
    } else {
        1 + scheme_end(s.drop_first())
    }
}

/// A target with the scheme of a websocket for that of HTTP.
pub open spec fn websocket_url_spec(target: Seq<char>) -> Seq<char> {
    let at = scheme_end(target);
    if at < target.len() && target.take(at) == "http"@ {
        "ws://"@ + target.skip(at + 3)
    } else if at < target.len() && target.take(at) == "https"@ {
        "wss://"@ + target.skip(at + 3)
    } else {
        target
    }
}

/// Where a scheme ends there is room for what ends it.
proof fn lemma_scheme_end(s: Seq<char>)
    ensures
        0 <= scheme_end(s) <= s.len(),
        scheme_end(s) < s.len() ==> scheme_end(s) + 3 <= s.len(),
    decreases s.len(),
{
    if s.len() >= 3 && !(s[0] == ':' && s[1] == '/' && s[2] == '/') {
        lemma_scheme_end(s.drop_first());
    }
}

/// A target with the scheme of a websocket.
pub fn websocket_url(target: &str) -> (r: String)
    ensures
        r@ == websocket_url_spec(target@),
{
    let v = text::chars_of(target);
    let n = v.len();
    let mut at: usize = 0;
    proof {
        assert(target@.skip(0) =~= target@);
    }
    while n >= 3 && at <= n - 3 && !(v[at] == ':' && v[at + 1] == '/' && v[at + 2] == '/')
        invariant
            v@ == target@,
            n == v@.len(),
            at <= n,
            scheme_end(target@) == at + scheme_end(target@.skip(at as int)),
        decreases v@.len() - at,
    {
        proof {
            let rest = target@.skip(at as int);
            assert(rest[0] == v@[at as int] && rest[1] == v@[at + 1] && rest[2] == v@[at + 2]);
            assert(rest.drop_first() =~= target@.skip(at + 1));
        }
        at = at + 1;
    }
    proof {
        let rest = target@.skip(at as int);
        if at + 2 < v@.len() {
            assert(rest[0] == v@[at as int] && rest[1] == v@[at + 1] && rest[2] == v@[at + 2]);
        }
        lemma_scheme_end(target@);
    }
    if n >= 3 && at <= n - 3 {
        let scheme = target.substring_char(0, at);
        let rest = target.substring_char(at + 3, v.len());
        proof {
            assert(scheme@ =~= target@.take(at as int));
            assert(rest@ =~= target@.skip(at + 3));
        }
        if text::same(scheme, "http") {
            return text::cat2("ws://", rest);
        }
        if text::same(scheme, "https") {
            return text::cat2("wss://", rest);
        }
    }
    target.to_owned()
}

/// The subprotocols a request asks for.
pub fn requested_protocols(fields: &HeaderList) -> (r: Vec<String>)
    ensures
        text::texts(r@) == proxy::listed(
            headers::kept_texts(
                headers::all_spec(fields@, text::lower_spec("sec-websocket-protocol"@)),
            ),
        ),
{
    proxy::list_header(fields, "sec-websocket-protocol")
}

/// The answer where the upstream would not upgrade.
pub open spec fn upgrade_failure_spec(route: Seq<char>) -> ReplyView {
    proxy::plain(502, "upstream websocket upgrade failed for route '"@ + route + "'\n"@)
}

/// The answer where the upstream would not upgrade.
pub fn upgrade_failure(route: &str) -> (r: Reply)
    ensures
        r@ == upgrade_failure_spec(route@),
{
    let r = Reply {
        status: 502,
        headers: Vec::new(),
        body: text::cat3("upstream websocket upgrade failed for route '", route, "'\n"),
    };
    proof {
        assert(text::pairs_view(r.headers@) =~= Seq::empty());
    }
    r
}

/// The subprotocol the upstream agreed to, as the one to answer the client with.
pub fn negotiated(fields: &HeaderList) -> (r: Option<String>)
    ensures
        text::opt_of(r) == headers::text_spec(fields@, "sec-websocket-protocol"@),
{
    fields.text("sec-websocket-protocol")
}

/// Close codes the gateway itself sends: a protocol error, text that is none, and a
/// frame that is too large.
pub const CLOSE_PROTOCOL: u16 = 1002;

pub const CLOSE_INVALID: u16 = 1007;

pub const CLOSE_SIZE: u16 = 1009;

/// Why a websocket is closed.
pub struct CloseReason {
    pub code: u16,
    pub description: Option<String>,
}

/// A part of a message that comes in several frames.
pub enum Part {
    FirstText(Vec<u8>),
    FirstBinary(Vec<u8>),
    Continue(Vec<u8>),
    Last(Vec<u8>),
}

/// A message from one end to the other.
pub enum Message {
    Text(Vec<u8>),
    Binary(Vec<u8>),
    Continuation(Part),
    Ping(Vec<u8>),
    Pong(Vec<u8>),
    Close(Option<CloseReason>),
    Nop,
}

/// An end of a relayed websocket.
#[derive(Clone, Copy, PartialEq, Eq, Structural)]
pub enum Peer {
    Client,
    Upstream,
}

/// What is heard from one end.
pub enum Event {
    Message(Message),
    /// The end broke the protocol; whether by a frame that is too large.
    Broken(bool),
    /// The end is gone.
    End,
}

/// What the gateway does about it.
pub enum Action {
    /// Send to the other end; where that fails, close without a reason.
    Relay(Message),
    /// Tell the upstream, then close the client's end, both for the same reason.
    CloseBoth(Option<CloseReason>),
    /// Close the client's end.
    Close(Option<CloseReason>),
    /// Nothing: wait for the next.
    Wait,
}

/// The name of an end in close reasons.
pub open spec fn peer_name(peer: Peer) -> Seq<char> {
    match peer {
        Peer::Client => "client"@,
        Peer::Upstream => "upstream"@,
    }
}

/// Whether a reason tells how an end broke the protocol. Without it a frame over the
/// size limit would close with no status, and leave the client nothing to go by.
pub open spec fn is_protocol_close(peer: Peer, oversized: bool, reason: CloseReason) -> bool {
    if oversized {
        &&& reason.code == CLOSE_SIZE
        &&& text::opt_of(reason.description) == Some(
            peer_name(peer) + " frame exceeds gateway limit"@,
        )
    } else {
        reason.code == CLOSE_PROTOCOL && reason.description is None
    }
}

/// The reason to close with where an end broke the protocol.
pub fn protocol_close(peer: Peer, oversized: bool) -> (r: CloseReason)
    ensures
        is_protocol_close(peer, oversized, r),
{
    if oversized {
        let name = match peer {
            Peer::Client => "client",
            Peer::Upstream => "upstream",
        };
        CloseReason {
            code: CLOSE_SIZE,
            description: Some(text::cat2(name, " frame exceeds gateway limit")),
        }
    } else {
        CloseReason { code: CLOSE_PROTOCOL, description: None }
    }
}

/// `bytestring::ByteString::try_from` a vector of bytes succeeds on valid UTF-8.
#[verifier::external_body]
fn is_utf8(data: Vec<u8>) -> (r: bool)
    ensures
        r == vstd::utf8::valid_utf8(data@),
{
    bytestring::ByteString::try_from(data).is_ok()
}

/// Whether an action is right for what was heard from an end: frames pass unchanged to
/// the other end until either closes or breaks the protocol, and the client's end then
/// closes with the same reason.
pub open spec fn relays(peer: Peer, event: Event, action: Action) -> bool {
    match event {
        Event::Message(message) => match message {
            Message::Text(data) => if peer is Upstream && !vstd::utf8::valid_utf8(data@) {
                action matches Action::Close(Some(reason)) && reason.code == CLOSE_INVALID
                    && reason.description is None
            } else {
                action == Action::Relay(message)
            },
            Message::Close(reason) => if peer is Client {
                action == Action::CloseBoth(reason)
            } else {
                action == Action::Close(reason)
            },
            Message::Nop => action is Wait,
            _ => action == Action::Relay(message),
        },
        Event::Broken(oversized) => action matches Action::Close(Some(reason))
            && is_protocol_close(peer, oversized, reason),
        Event::End => action matches Action::Close(None),
    }
}

/// What the gateway does about what it heard from an end.
pub fn relay(peer: Peer, event: Event) -> (r: Action)
    ensures
        relays(peer, event, r),
{
    match event {
        Event::Message(message) => match message {
            Message::Text(data) => {
                let upstream = match peer {
                    Peer::Upstream => true,
                    Peer::Client => false,
                };
                if upstream && !is_utf8(proxy::copy_bytes(&data)) {
                    Action::Close(Some(CloseReason { code: CLOSE_INVALID, description: None }))
                } else {
                    Action::Relay(Message::Text(data))
                }
            },
            Message::Close(reason) => match peer {
                Peer::Client => Action::CloseBoth(reason),
                Peer::Upstream => Action::Close(reason),
            },
            Message::Nop => Action::Wait,
            other => Action::Relay(other),
        },
        Event::Broken(oversized) => Action::Close(Some(protocol_close(peer, oversized))),
        Event::End => Action::Close(None),
    }
}

/// What the gateway does once a message could not be sent on: close without a reason.
pub fn on_send_failure() -> (r: Action)
    ensures
        r == Action::Close(None::<CloseReason>),
{
    Action::Close(None)
}

/// Whichever end closes, the client's end closes with the same reason.
pub proof fn law_a_close_keeps_its_reason(peer: Peer, reason: Option<CloseReason>, action: Action)
    requires
        relays(peer, Event::Message(Message::Close(reason)), action),
    ensures
        action == Action::CloseBoth(reason) || action == Action::Close(reason),
        peer is Client ==> action == Action::CloseBoth(reason),
{
}

} // verus!
