//! What becomes of websockets and their frames.

use crate::headers::HeaderList;
use crate::proxy;
use crate::proxy::Reply;
use crate::text;
use crate::websocket;
use crate::websocket::{Action, CloseReason, Event, Message, Peer};
use vstd::prelude::*;
use vstd::string::*;

verus! {

/// No frame is lost: every message of either end but a close, a frame that says nothing,
/// and text of the upstream that is no UTF-8 is sent to the other end, and it is that very
/// message that is sent.
pub proof fn law_no_frame_is_lost(peer: Peer, message: Message, action: Action)
    requires
        call_ensures(websocket::relay, (peer, Event::Message(message)), action),
        !(message is Close),
        !(message is Nop),
        message matches Message::Text(data) ==> peer is Client || vstd::utf8::valid_utf8(data@),
    ensures
        action == Action::Relay(message),
{
}

/// Binary data, pings, pongs and the parts of longer messages pass in both directions,
/// whatever they hold.
pub proof fn law_bytes_pass_whatever_they_hold(
    peer: Peer,
    data: Vec<u8>,
    part: websocket::Part,
    binary: Action,
    ping: Action,
    pong: Action,
    partly: Action,
)
    requires
        call_ensures(websocket::relay, (peer, Event::Message(Message::Binary(data))), binary),
        call_ensures(websocket::relay, (peer, Event::Message(Message::Ping(data))), ping),
        call_ensures(websocket::relay, (peer, Event::Message(Message::Pong(data))), pong),
        call_ensures(websocket::relay, (peer, Event::Message(Message::Continuation(part))), partly),
    ensures
        binary == Action::Relay(Message::Binary(data)),
        ping == Action::Relay(Message::Ping(data)),
        pong == Action::Relay(Message::Pong(data)),
        partly == Action::Relay(Message::Continuation(part)),
{
}

/// A close of the client is told to the upstream and answered with the reason it gave; a
/// close of the upstream closes the client's end with the same reason. A frame that says
/// nothing changes nothing.
pub proof fn law_what_a_close_does(
    peer: Peer,
    reason: Option<CloseReason>,
    closed: Action,
    idle: Action,
)
    requires
        call_ensures(websocket::relay, (peer, Event::Message(Message::Close(reason))), closed),
        call_ensures(websocket::relay, (peer, Event::Message(Message::Nop)), idle),
    ensures
        peer is Client ==> closed == Action::CloseBoth(reason),
        peer is Upstream ==> closed == Action::Close(reason),
        idle == Action::Wait,
{
}

/// An end that breaks off closes the client's end: without a reason where it is simply gone,
/// with 1002 where it broke the protocol, with 1009 where a frame was too large, naming the
/// end that sent it, and with 1007 where the upstream sent text that is none.
pub proof fn law_how_a_broken_end_is_told(
    peer: Peer,
    data: Vec<u8>,
    gone: Action,
    broken: Action,
    large: Action,
    garbled: Action,
)
    requires
        call_ensures(websocket::relay, (peer, Event::End), gone),
        call_ensures(websocket::relay, (peer, Event::Broken(false)), broken),
        call_ensures(websocket::relay, (peer, Event::Broken(true)), large),
        call_ensures(
            websocket::relay,
            (Peer::Upstream, Event::Message(Message::Text(data))),
            garbled,
        ),
        !vstd::utf8::valid_utf8(data@),
    ensures
        gone == Action::Close(None::<CloseReason>),
        broken matches Action::Close(Some(why)) && why.code == 1002 && why.description is None,
        large matches Action::Close(Some(why)) && why.code == 1009 && text::opt_of(why.description)
            == Some(
            (if peer is Client {
                "client"@
            } else {
                "upstream"@
            }) + " frame exceeds gateway limit"@,
        ),
        garbled matches Action::Close(Some(why)) && why.code == 1007 && why.description is None,
{
}

/// What cannot be sent on closes the client's end.
pub proof fn law_what_cannot_be_sent_on_closes(action: Action)
    requires
        call_ensures(websocket::on_send_failure, (), action),
    ensures
        action == Action::Close(None::<CloseReason>),
{
}

/// A request asks for a websocket where its `Upgrade` says so, in whatever case, and its
/// `Connection` names that header; either alone is none.
pub proof fn law_what_asks_for_a_websocket(
    fields: HeaderList,
    said: Option<String>,
    named: Vec<String>,
    alike: bool,
    r: bool,
)
    requires
        call_ensures(websocket::is_upgrade, (&fields,), r),
        call_ensures(HeaderList::text, (&fields, "upgrade"), said),
        call_ensures(proxy::connection_tokens, (&fields,), named),
        said matches Some(s) ==> alike == (text::lower_spec(s@) == text::lower_spec("websocket"@)),
    ensures
        r <==> (said is Some && alike && text::texts(named@).contains("upgrade"@)),
{
}

/// A scheme that holds none of the marks that end one ends at the first of them.
proof fn lemma_scheme(scheme: Seq<char>, rest: Seq<char>)
    requires
        !scheme.contains(':'),
    ensures
        websocket::scheme_end(scheme + seq![':', '/', '/'] + rest) == scheme.len(),
    decreases scheme.len(),
{
    let s = scheme + seq![':', '/', '/'] + rest;
    if scheme.len() > 0 {
        assert(s[0] == scheme[0]);
        assert(scheme.contains(scheme[0]));
        let less = scheme.drop_first();
        assert(s.drop_first() =~= less + seq![':', '/', '/'] + rest);
        assert(!less.contains(':')) by {
            if less.contains(':') {
                let k = choose|k: int| 0 <= k < less.len() && less[k] == ':';
                assert(scheme[k + 1] == ':');
            }
        }
        lemma_scheme(less, rest);
    }
}

/// A place where a scheme ends is where its marks stand.
proof fn lemma_scheme_marks(s: Seq<char>)
    ensures
        0 <= websocket::scheme_end(s) <= s.len(),
        websocket::scheme_end(s) < s.len() ==> websocket::scheme_end(s) + 3 <= s.len()
            && s.subrange(websocket::scheme_end(s), websocket::scheme_end(s) + 3) == seq![
            ':',
            '/',
            '/',
        ],
    decreases s.len(),
{
    if s.len() >= 3 {
        if s[0] == ':' && s[1] == '/' && s[2] == '/' {
            assert(s.subrange(0, 3) =~= seq![':', '/', '/']);
        } else {
            lemma_scheme_marks(s.drop_first());
            let at = websocket::scheme_end(s.drop_first());
            if at < s.len() - 1 {
                assert(s.subrange(at + 1, at + 4) =~= s.drop_first().subrange(at, at + 3));
            }
        }
    }
}

/// The upstream of a websocket is asked at the address of the route with the scheme of a
/// websocket: the plain one for the plain one and the secure one for the secure one. Any
/// other address stands as it is.
pub proof fn law_where_a_websocket_is_asked_for(target: &str, rest: Seq<char>, r: String)
    requires
        call_ensures(websocket::websocket_url, (target,), r),
    ensures
        target@ == seq!['h', 't', 't', 'p', ':', '/', '/'] + rest ==> r@ == seq![
            'w',
            's',
            ':',
            '/',
            '/',
        ] + rest,
        target@ == seq!['h', 't', 't', 'p', 's', ':', '/', '/'] + rest ==> r@ == seq![
            'w',
            's',
            's',
            ':',
            '/',
            '/',
        ] + rest,
        !seq!['h', 't', 't', 'p', ':', '/', '/'].is_prefix_of(target@) && !seq![
            'h',
            't',
            't',
            'p',
            's',
            ':',
            '/',
            '/',
        ].is_prefix_of(target@) ==> r@ == target@,
{
    reveal_strlit("http");
    reveal_strlit("https");
    reveal_strlit("ws://");
    reveal_strlit("wss://");
    let plain = seq!['h', 't', 't', 'p', ':', '/', '/'];
    let secure = seq!['h', 't', 't', 'p', 's', ':', '/', '/'];
    let marks = seq![':', '/', '/'];
    assert("http"@ =~= seq!['h', 't', 't', 'p']);
    assert("https"@ =~= seq!['h', 't', 't', 'p', 's']);
    assert("ws://"@ =~= seq!['w', 's', ':', '/', '/']);
    assert("wss://"@ =~= seq!['w', 's', 's', ':', '/', '/']);
    let s = target@;
    if s == plain + rest {
        assert(s =~= "http"@ + marks + rest);
        lemma_scheme("http"@, rest);
        assert(s.take(4) =~= "http"@);
        assert(s.skip(7) =~= rest);
    } else if s == secure + rest {
        assert(s =~= "https"@ + marks + rest);
        lemma_scheme("https"@, rest);
        assert(s.take(5) =~= "https"@);
        assert(s.skip(8) =~= rest);
        assert(s.take(5) != "http"@);
    } else if !plain.is_prefix_of(s) && !secure.is_prefix_of(s) {
        lemma_scheme_marks(s);
        let at = websocket::scheme_end(s);
        if at < s.len() {
            if s.take(at) == "http"@ {
                assert(forall|k: int| 0 <= k < 4 ==> s[k] == s.take(at)[k]);
                assert(s[4] == s.subrange(at, at + 3)[0]);
                assert(s[5] == s.subrange(at, at + 3)[1]);
                assert(s[6] == s.subrange(at, at + 3)[2]);
                assert(s.subrange(0, 7) =~= plain);
            }
            if s.take(at) == "https"@ {
                assert(forall|k: int| 0 <= k < 5 ==> s[k] == s.take(at)[k]);
                assert(s[5] == s.subrange(at, at + 3)[0]);
                assert(s[6] == s.subrange(at, at + 3)[1]);
                assert(s[7] == s.subrange(at, at + 3)[2]);
                assert(s.subrange(0, 8) =~= secure);
            }
        }
    }
}

/// The subprotocols that are asked for are those the client lists, and the one it is
/// answered with is the one the upstream names.
pub proof fn law_which_subprotocols_are_spoken(
    fields: HeaderList,
    asked: Vec<String>,
    listed: Vec<String>,
    agreed: Option<String>,
    said: Option<String>,
)
    requires
        call_ensures(websocket::requested_protocols, (&fields,), asked),
        call_ensures(proxy::list_header, (&fields, "sec-websocket-protocol"), listed),
        call_ensures(websocket::negotiated, (&fields,), agreed),
        call_ensures(HeaderList::text, (&fields, "sec-websocket-protocol"), said),
    ensures
        text::texts(asked@) == text::texts(listed@),
        text::opt_of(agreed) == text::opt_of(said),
{
}

/// Where the upstream would not upgrade, the client is answered with 502.
pub proof fn law_how_a_refused_upgrade_is_answered(route: &str, r: Reply)
    requires
        call_ensures(websocket::upgrade_failure, (route,), r),
    ensures
        r.status == 502,
        r.headers@.len() == 0,
        r.body@ == "upstream websocket upgrade failed for route '"@ + route@ + "'\n"@,
{
    assert(r@.headers.len() == r.headers@.len());
    assert(r@.status == r.status);
}

} // verus!
