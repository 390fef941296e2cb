//! Message dispatch for the two transports.
//!
//! Each function takes one decoded inbound message, applies it to the room
//! store, and returns the deliveries the transport layer must make: replies
//! to the request's origin and pushes to watchers' outbound queues. The
//! stream transport supports subscription; the datagram transport rejects
//! WATCH and UNWATCH and answers everything else request/response.

use vstd::prelude::*;
use vstd::string::StringExecFns;
use crate::codec::GET;
use crate::codec::POST;
use crate::codec::WATCH;
use crate::codec::UNWATCH;
use crate::codec::TIME;
use crate::codec::error_message;
use crate::codec::post_message;
use crate::codec::time_message;
use crate::codec::spec_get_request;
use crate::codec::u64_of_be;
use crate::codec::parse_get_request;
use crate::codec::post_data;
use crate::codec::time_message_data;
use crate::codec::error_msg_data;
use crate::codec::read_u64_be;
use crate::codec::tail_bytes;
use crate::db::Database;
use crate::db::Peer;
use crate::db::post_view;
use crate::db::posts_view;
use crate::db::U60_MASK;
use crate::db::clone_post;
use crate::db::fetch_range;
use crate::db::mask;
use crate::db::now_millis;
use crate::db::room_missing_chars;
use crate::db::watch_step;

verus! {

/// One delivery a handler asks the transport layer to make: a reply to
/// the origin of the request, or a push to a watching peer's outbound
/// queue.
#[derive(Clone, PartialEq, Eq, Debug)]
pub enum Outbound {
    Reply(Vec<u8>),
    Push(Peer, Vec<u8>),
}

/// The error text for a message whose buffer is shorter than the fixed
/// fields its tag requires.
pub open spec fn malformed_chars() -> Seq<char> {
    "malformed request"@
}

/// The error text for a stream POST whose payload exceeds the 1024-byte cap.
pub open spec fn stream_cap_chars() -> Seq<char> {
    "cannot post more than 1024 bytes per request"@
}

/// The error text for a datagram POST whose payload exceeds the 1200-byte cap.
pub open spec fn dgram_cap_chars() -> Seq<char> {
    "cannot post more than 1200 bytes per request"@
}

/// The error text for an unrecognized tag byte on the stream transport.
pub open spec fn unknown_header_chars() -> Seq<char> {
    "unknown header"@
}

/// The error text for an unrecognized tag byte on the datagram transport.
pub open spec fn unknown_code_chars() -> Seq<char> {
    "unknown code"@
}

/// The fixed rejection text for a WATCH or UNWATCH request on the
/// datagram transport, which cannot subscribe.
pub open spec fn dgram_watch_chars() -> Seq<char> {
    "Watch and Unwatch can only be done through TCP Websockets"@
}

/// The deliveries consist of exactly one reply carrying `msg`.
pub open spec fn replies_with(outs: Seq<Outbound>, msg: Seq<u8>) -> bool {
    outs.len() == 1 && (outs[0] matches Outbound::Reply(m) && m@ == msg)
}

/// The deliveries push `msg` to every watcher in `watchers`, in order.
pub open spec fn fan_out(outs: Seq<Outbound>, watchers: Seq<Peer>, msg: Seq<u8>) -> bool {
    &&& outs.len() == watchers.len()
    &&& forall|i: int|
        0 <= i < watchers.len() ==> (#[trigger] outs[i] matches Outbound::Push(p, m) && p
            == watchers[i] && m@ == msg)
}

/// What a GET request yields, on either transport: one post delivery
/// message per post in the requested index range, tagged with the
/// normalized room id; an error naming the room if it was never posted
/// to; an error for a buffer too short to carry the request.
pub open spec fn get_response(db: Database, data: Seq<u8>, outs: Seq<Outbound>) -> bool {
    if data.len() < 25 {
        replies_with(outs, error_message(malformed_chars()))
    } else {
        let fields = spec_get_request(data);
        let room = fields.0;
        let posts = fetch_range(db.posts_of(room), fields.1, fields.2);
        if db.has_room(room) {
            &&& outs.len() == posts.len()
            &&& forall|i: int|
                0 <= i < posts.len() ==> (#[trigger] outs[i] matches Outbound::Reply(m) && m@
                    == post_message(mask(room), posts[i].1, posts[i].0))
        } else {
            replies_with(outs, error_message(room_missing_chars(room)))
        }
    }
}

/// What a successful POST does: appends the payload to the room with some
/// timestamp `t`, touches nothing else, and pushes the stored post's
/// delivery message to every peer that was watching the room at that
/// moment, in registration order.
pub open spec fn posted_and_fanned_out(
    pre: Database,
    post_db: Database,
    room: u64,
    payload: Seq<u8>,
    t: u64,
    outs: Seq<Outbound>,
) -> bool {
    &&& post_db.has_room(room)
    &&& post_db.posts_of(room) == pre.posts_of(room).push((payload, t))
    &&& forall|other: u64|
        mask(other) != mask(room) ==> post_db.posts_of(other) == pre.posts_of(other)
            && post_db.has_room(other) == pre.has_room(other)
    &&& forall|other: u64| post_db.watchers_of(other) == pre.watchers_of(other)
    &&& fan_out(outs, pre.watchers_of(room), post_message(mask(room), t, payload))
}

/// What a POST request does under a payload cap of `cap` bytes: a
/// malformed buffer or an oversized payload is rejected with the matching
/// error and stores nothing; otherwise the payload is appended and fanned
/// out to the room's watchers.
pub open spec fn post_effect(
    pre: Database,
    post_db: Database,
    data: Seq<u8>,
    outs: Seq<Outbound>,
    cap: int,
    cap_msg: Seq<char>,
) -> bool {
    if data.len() < 9 {
        post_db == pre && replies_with(outs, error_message(malformed_chars()))
    } else {
        let room = u64_of_be(data.subrange(1, 9));
        let payload = data.subrange(9, data.len() as int);
        if payload.len() > cap {
            post_db == pre && replies_with(outs, error_message(cap_msg))
        } else {
            exists|t: u64| posted_and_fanned_out(pre, post_db, room, payload, t, outs)
        }
    }
}

/// The full step a stream session takes for one inbound message: the
/// store transformation and the deliveries, by tag. An empty buffer is
/// silently ignored.
pub open spec fn stream_transition(
    pre: Database,
    post_db: Database,
    data: Seq<u8>,
    outs: Seq<Outbound>,
    peer: Peer,
) -> bool {
    if data.len() == 0 {
        post_db == pre && outs.len() == 0
    } else if data[0] == GET {
        post_db == pre && get_response(pre, data, outs)
    } else if data[0] == POST {
        post_effect(pre, post_db, data, outs, 1024, stream_cap_chars())
    } else if data[0] == WATCH {
        if data.len() < 9 {
            post_db == pre && replies_with(outs, error_message(malformed_chars()))
        } else {
            let room = u64_of_be(data.subrange(1, 9));
            &&& outs.len() == 0
            &&& post_db.watchers_of(room) == watch_step(pre.watchers_of(room), peer)
            &&& forall|other: u64|
                mask(other) != mask(room) ==> post_db.watchers_of(other) == pre.watchers_of(other)
            &&& forall|other: u64|
                post_db.posts_of(other) == pre.posts_of(other) && post_db.has_room(other)
                    == pre.has_room(other)
        }
    } else if data[0] == UNWATCH {
        if data.len() < 9 {
            post_db == pre && replies_with(outs, error_message(malformed_chars()))
        } else {
            let room = u64_of_be(data.subrange(1, 9));
            &&& outs.len() == 0
            &&& post_db.watchers_of(room) == pre.watchers_of(room).remove_value(peer)
            &&& forall|other: u64|
                mask(other) != mask(room) ==> post_db.watchers_of(other) == pre.watchers_of(other)
            &&& forall|other: u64|
                post_db.posts_of(other) == pre.posts_of(other) && post_db.has_room(other)
                    == pre.has_room(other)
        }
    } else if data[0] == TIME {
        post_db == pre && exists|t: u64| replies_with(outs, time_message(t))
    } else {
        post_db == pre && replies_with(outs, error_message(unknown_header_chars()))
    }
}

/// The step the datagram handler takes for one packet: request/response
/// only; WATCH and UNWATCH always draw the fixed rejection, whatever room
/// id or trailing bytes the packet carries. An empty packet is silently
/// ignored.
pub open spec fn dgram_transition(
    pre: Database,
    post_db: Database,
    data: Seq<u8>,
    outs: Seq<Outbound>,
) -> bool {
    if data.len() == 0 {
        post_db == pre && outs.len() == 0
    } else if data[0] == GET {
        post_db == pre && get_response(pre, data, outs)
    } else if data[0] == POST {
        post_effect(pre, post_db, data, outs, 1200, dgram_cap_chars())
    } else if data[0] == TIME {
        post_db == pre && exists|t: u64| replies_with(outs, time_message(t))
    } else if data[0] == WATCH || data[0] == UNWATCH {
        post_db == pre && replies_with(outs, error_message(dgram_watch_chars()))
    } else {
        post_db == pre && replies_with(outs, error_message(unknown_code_chars()))
    }
}

fn reply_error(text: &str) -> (outs: Vec<Outbound>)
    ensures
        replies_with(outs@, error_message(text@)),
{
    let mut outs: Vec<Outbound> = Vec::new();
    outs.push(Outbound::Reply(error_msg_data(String::from_str(text))));
    outs
}

/// Answers a GET request against the store: one reply per post in range,
/// or one error reply. The store is never changed.
pub fn get_post(conn: &mut Database, data: &[u8]) -> (outs: Vec<Outbound>)
    requires
        old(conn).wf(),
    ensures
        final(conn).wf(),
        *final(conn) == *old(conn),
        get_response(*old(conn), data@, outs@),
{
    match parse_get_request(data) {
        None => reply_error("malformed request"),
        Some((room, from, to)) => {
            match conn.get_post(room, from, to) {
                Err(err) => {
                    let mut outs: Vec<Outbound> = Vec::new();
                    outs.push(Outbound::Reply(error_msg_data(err)));
                    outs
                },
                Ok(psts) => {
                    let ghost target = fetch_range(conn.posts_of(room as u64), from, to);
                    let masked = room & U60_MASK;
                    let mut outs: Vec<Outbound> = Vec::new();
                    let mut i: usize = 0;
                    while i < psts.len()
                        invariant
                            i <= psts@.len(),
                            posts_view(psts@) == target,
                            outs@.len() == i,
                            masked == mask(room),
                            forall|j: int|
                                0 <= j < i ==> (#[trigger] outs@[j] matches Outbound::Reply(m)
                                    && m@ == post_message(mask(room), target[j].1, target[j].0)),
                        decreases psts@.len() - i,
                    {
                        let p = clone_post(&psts[i]);
                        outs.push(Outbound::Reply(post_data(masked, p)));
                        i = i + 1;
                    }
                    outs
                },
            }
        },
    }
}

/// Applies a POST request under the given payload cap, returning either
/// one error reply or the pushes for the room's watchers.
fn apply_post(conn: &mut Database, data: &[u8], cap: usize, cap_text: &str) -> (outs: Vec<
    Outbound,
>)
    requires
        old(conn).wf(),
    ensures
        final(conn).wf(),
        post_effect(*old(conn), *final(conn), data@, outs@, cap as int, cap_text@),
{
    if data.len() < 9 {
        return reply_error("malformed request");
    }
    let room = read_u64_be(data, 1);
    let payload = tail_bytes(data, 9);
    let ghost pl = payload@;
    if payload.len() > cap {
        return reply_error(cap_text);
    }
    let watchers = conn.watchers(room);
    let post = conn.save_post(room, payload);
    let ghost t = post.1;
    let masked = room & U60_MASK;
    let mut outs: Vec<Outbound> = Vec::new();
    let mut i: usize = 0;
    while i < watchers.len()
        invariant
            i <= watchers@.len(),
            outs@.len() == i,
            masked == mask(room),
            post_view(post) == (pl, t),
            forall|j: int|
                0 <= j < i ==> (#[trigger] outs@[j] matches Outbound::Push(p, m) && p
                    == watchers@[j] && m@ == post_message(mask(room), t, pl)),
        decreases watchers@.len() - i,
    {
        let msg = post_data(masked, clone_post(&post));
        outs.push(Outbound::Push(watchers[i], msg));
        i = i + 1;
    }
    proof {
        assert(posted_and_fanned_out(*old(conn), *conn, room, pl, t, outs@));
    }
    outs
}

/// Handles one POST request from a stream session: rejects a payload of
/// more than 1024 bytes, otherwise stores it and fans it out.
pub fn post_to_db(conn: &mut Database, data: &[u8]) -> (outs: Vec<Outbound>)
    requires
        old(conn).wf(),
    ensures
        final(conn).wf(),
        post_effect(*old(conn), *final(conn), data@, outs@, 1024, stream_cap_chars()),
{
    apply_post(conn, data, 1024, "cannot post more than 1024 bytes per request")
}

/// Encodes a TIME response stamped with the current wall-clock time.
pub fn time_data() -> (r: Vec<u8>)
    ensures
        exists|t: u64| r@ == time_message(t),
{
    let now = now_millis();
    let r = time_message_data(now);
    proof {
        assert(r@ == time_message(now));
    }
    r
}

/// Takes the stream session's step for one inbound framed message from
/// `peer`: dispatches it against the store and returns the deliveries the
/// session must make.
pub fn on_tcp_message(conn: &mut Database, data: &[u8], peer: Peer) -> (outs: Vec<Outbound>)
    requires
        old(conn).wf(),
    ensures
        final(conn).wf(),
        stream_transition(*old(conn), *final(conn), data@, outs@, peer),
{
    if data.len() == 0 {
        return Vec::new();
    }
    let head = data[0];
    if head == GET {
        get_post(conn, data)
    } else if head == POST {
        post_to_db(conn, data)
    } else if head == WATCH {
        if data.len() < 9 {
            reply_error("malformed request")
        } else {
            let room = read_u64_be(data, 1);
            conn.watch_room(room, peer);
            Vec::new()
        }
    } else if head == UNWATCH {
        if data.len() < 9 {
            reply_error("malformed request")
        } else {
            let room = read_u64_be(data, 1);
            conn.unwatch_room(room, peer);
            Vec::new()
        }
    } else if head == TIME {
        let mut outs: Vec<Outbound> = Vec::new();
        outs.push(Outbound::Reply(time_data()));
        outs
    } else {
        reply_error("unknown header")
    }
}

/// Takes the datagram handler's step for one packet: request/response
/// dispatch with no subscription; WATCH and UNWATCH draw the fixed
/// rejection whatever the packet's room id.
pub fn on_udp_message(conn: &mut Database, data: &[u8]) -> (outs: Vec<Outbound>)
    requires
        old(conn).wf(),
    ensures
        final(conn).wf(),
        dgram_transition(*old(conn), *final(conn), data@, outs@),
{
    if data.len() == 0 {
        return Vec::new();
    }
    let head = data[0];
    if head == GET {
        get_post(conn, data)
    } else if head == POST {
        apply_post(conn, data, 1200, "cannot post more than 1200 bytes per request")
    } else if head == TIME {
        let mut outs: Vec<Outbound> = Vec::new();
        outs.push(Outbound::Reply(time_data()));
        outs
    } else if head == WATCH || head == UNWATCH {
        reply_error("Watch and Unwatch can only be done through TCP Websockets")
    } else {
        reply_error("unknown code")
    }
}

} // verus!

