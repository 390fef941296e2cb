//! The binary protocol codec: the tag bytes that select a message kind,
//! big-endian 64-bit field encoding, and the builders for the fixed wire
//! message formats (post delivery, time response, error response).

use vstd::prelude::*;
use vstd::string::StrSliceExecFns;
use vstd::string::StringExecFns;
use vstd::utf8::encode_utf8;
use crate::db::Post;

verus! {

/// Tag byte of a GET request: `[0][room:8][range_start:8][range_end:8]`.
pub const GET: u8 = 0;

/// Tag byte of a POST request (`[1][room:8][payload]`) and of a post
/// delivery message (`[1][room:8][created_at:8][payload]`).
pub const POST: u8 = 1;

/// Tag byte of a WATCH request: `[2][room:8]`.
pub const WATCH: u8 = 2;

/// Tag byte of an UNWATCH request: `[3][room:8]`.
pub const UNWATCH: u8 = 3;

/// Tag byte of a TIME request (`[4]`) and of a TIME response (`[4][now:8]`).
pub const TIME: u8 = 4;

/// Tag byte of an ERROR response: `[7][message bytes]`.
pub const ERROR: u8 = 7;

/// The big-endian byte encoding of a 64-bit integer.
pub open spec fn u64_be(x: u64) -> Seq<u8> {
    seq![
        (x >> 56) as u8,
        (x >> 48) as u8,
        (x >> 40) as u8,
        (x >> 32) as u8,
        (x >> 24) as u8,
        (x >> 16) as u8,
        (x >> 8) as u8,
        x as u8,
    ]
}

/// The 64-bit integer read from eight big-endian bytes.
pub open spec fn u64_of_be(s: Seq<u8>) -> u64
    recommends
        s.len() == 8,
{
    ((s[0] as u64) << 56) | ((s[1] as u64) << 48) | ((s[2] as u64) << 40) | ((s[3] as u64) << 32)
        | ((s[4] as u64) << 24) | ((s[5] as u64) << 16) | ((s[6] as u64) << 8) | (s[7] as u64)
}

fn u64_to_be(x: u64) -> (r: Vec<u8>)
    ensures
        r@ == u64_be(x),
{
    let mut r: Vec<u8> = Vec::new();
    r.push((x >> 56) as u8);
    r.push((x >> 48) as u8);
    r.push((x >> 40) as u8);
    r.push((x >> 32) as u8);
    r.push((x >> 24) as u8);
    r.push((x >> 16) as u8);
    r.push((x >> 8) as u8);
    r.push(x as u8);
    proof {
        assert(r@ =~= u64_be(x));
    }
    r
}

pub(crate) fn read_u64_be(data: &[u8], at: usize) -> (x: u64)
    requires
        at + 8 <= data@.len(),
    ensures
        x == u64_of_be(data@.subrange(at as int, at as int + 8)),
{
    let x = ((data[at] as u64) << 56) | ((data[at + 1] as u64) << 48)
        | ((data[at + 2] as u64) << 40) | ((data[at + 3] as u64) << 32)
        | ((data[at + 4] as u64) << 24) | ((data[at + 5] as u64) << 16)
        | ((data[at + 6] as u64) << 8) | (data[at + 7] as u64);
    proof {
        let s = data@.subrange(at as int, at as int + 8);
        assert(s[0] == data@[at as int]);
        assert(s[1] == data@[at as int + 1]);
        assert(s[2] == data@[at as int + 2]);
        assert(s[3] == data@[at as int + 3]);
        assert(s[4] == data@[at as int + 4]);
        assert(s[5] == data@[at as int + 5]);
        assert(s[6] == data@[at as int + 6]);
        assert(s[7] == data@[at as int + 7]);
    }
    x
}

pub(crate) fn tail_bytes(data: &[u8], at: usize) -> (r: Vec<u8>)
    requires
        at <= data@.len(),
    ensures
        r@ == data@.subrange(at as int, data@.len() as int),
{
    let mut r: Vec<u8> = Vec::new();
    let mut i: usize = at;
    while i < data.len()
        invariant
            at <= i <= data@.len(),
            r@ == data@.subrange(at as int, i as int),
        decreases data@.len() - i,
    {
        proof {
            assert(data@.subrange(at as int, i as int).push(data@[i as int]) =~= data@.subrange(
                at as int,
                i as int + 1,
            ));
        }
        r.push(data[i]);
        i = i + 1;
    }
    r
}

/// The fields of a GET request as read from its fixed header: the room id
/// and the requested index range, each a big-endian 64-bit field after the
/// tag byte.
pub open spec fn spec_get_request(data: Seq<u8>) -> (u64, u64, u64)
    recommends
        data.len() >= 25,
{
    (
        u64_of_be(data.subrange(1, 9)),
        u64_of_be(data.subrange(9, 17)),
        u64_of_be(data.subrange(17, 25)),
    )
}

/// Reads the room id and index range out of a GET request. Returns `None`
/// when the buffer is shorter than the 25-byte fixed header, so a malformed
/// request never stops the handler.
pub fn parse_get_request(data: &[u8]) -> (r: Option<(u64, u64, u64)>)
    ensures
        r is Some <==> data@.len() >= 25,
        r matches Some(fields) ==> fields == spec_get_request(data@),
{
    if data.len() < 25 {
        return None;
    }
    let room = read_u64_be(data, 1);
    let from = read_u64_be(data, 9);
    let to = read_u64_be(data, 17);
    Some((room, from, to))
}

/// The wire form of a post delivery message:
/// `[POST][room:8][created_at:8][payload]`.
pub open spec fn post_message(room: u64, created_at: u64, payload: Seq<u8>) -> Seq<u8> {
    seq![POST] + u64_be(room) + u64_be(created_at) + payload
}

/// The wire form of a TIME response: `[TIME][now:8]`.
pub open spec fn time_message(now: u64) -> Seq<u8> {
    seq![TIME] + u64_be(now)
}

/// The wire form of an ERROR response: `[ERROR]` followed by the UTF-8
/// bytes of the message text.
pub open spec fn error_message(msg: Seq<char>) -> Seq<u8> {
    seq![ERROR] + encode_utf8(msg)
}

/// Encodes a stored post into a post delivery message for the given room id.
pub fn post_data(room_id: u64, post: Post) -> (r: Vec<u8>)
    ensures
        r@ == post_message(room_id, post.1, post.0@),
{
    let (data, time) = post;
    let mut r: Vec<u8> = Vec::new();
    r.push(POST);
    let mut room = u64_to_be(room_id);
    r.append(&mut room);
    let mut stamp = u64_to_be(time);
    r.append(&mut stamp);
    let mut payload = data;
    r.append(&mut payload);
    proof {
        assert(r@ =~= post_message(room_id, post.1, post.0@));
    }
    r
}

/// Encodes a TIME response carrying the given millisecond timestamp.
pub fn time_message_data(now: u64) -> (r: Vec<u8>)
    ensures
        r@ == time_message(now),
{
    let mut r: Vec<u8> = Vec::new();
    r.push(TIME);
    let mut stamp = u64_to_be(now);
    r.append(&mut stamp);
    proof {
        assert(r@ =~= time_message(now));
    }
    r
}

/// Encodes an ERROR response carrying the given message text.
pub fn error_msg_data(err: String) -> (r: Vec<u8>)
    ensures
        r@ == error_message(err@),
{
    let mut r: Vec<u8> = Vec::new();
    r.push(ERROR);
    let mut msg = err.as_str().as_bytes_vec();
    r.append(&mut msg);
    proof {
        assert(r@ =~= error_message(err@));
    }
    r
}

/// The decimal digit characters of an integer, most significant first.
pub open spec fn dec_chars(n: u64) -> Seq<char>
    decreases n,
{
    if n < 10 {
        seq![digit_char(n)]
    } else {
        dec_chars(n / 10).push(digit_char(n % 10))
    }
}

/// The character for a single decimal digit.
pub open spec fn digit_char(d: u64) -> char {
    if d == 0 {
        '0'
    } else if d == 1 {
        '1'
    } else if d == 2 {
        '2'
    } else if d == 3 {
        '3'
    } else if d == 4 {
        '4'
    } else if d == 5 {
        '5'
    } else if d == 6 {
        '6'
    } else if d == 7 {
        '7'
    } else if d == 8 {
        '8'
    } else {
        '9'
    }
}

fn digit_str(d: u64) -> (s: &'static str)
    requires
        d < 10,
    ensures
        s@ == seq![digit_char(d)],
        s@.len() == 1,
{
    proof {
        reveal_strlit("0");
        reveal_strlit("1");
        reveal_strlit("2");
        reveal_strlit("3");
        reveal_strlit("4");
        reveal_strlit("5");
        reveal_strlit("6");
        reveal_strlit("7");
        reveal_strlit("8");
        reveal_strlit("9");
    }
    if d == 0 {
        "0"
    } else if d == 1 {
        "1"
    } else if d == 2 {
        "2"
    } else if d == 3 {
        "3"
    } else if d == 4 {
        "4"
    } else if d == 5 {
        "5"
    } else if d == 6 {
        "6"
    } else if d == 7 {
        "7"
    } else if d == 8 {
        "8"
    } else {
        "9"
    }
}

/// Formats an integer in decimal.
pub fn u64_dec_string(n: u64) -> (s: String)
    ensures
        s@ == dec_chars(n),
    decreases n,
{
    if n < 10 {
        String::from_str(digit_str(n))
    } else {
        let mut s = u64_dec_string(n / 10);
        s.append(digit_str(n % 10));
        proof {
            assert(s@ =~= dec_chars(n));
        }
        s
    }
}

} // verus!
