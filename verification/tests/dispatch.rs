use room_broker::db::Database;
use room_broker::server::Outbound;
use room_broker::server::on_tcp_message;
use room_broker::server::on_udp_message;

fn get_request(room: u64, from: u64, to: u64) -> Vec<u8> {
    let mut m = vec![0u8];
    m.extend_from_slice(&room.to_be_bytes());
    m.extend_from_slice(&from.to_be_bytes());
    m.extend_from_slice(&to.to_be_bytes());
    m
}

fn post_request(room: u64, payload: &[u8]) -> Vec<u8> {
    let mut m = vec![1u8];
    m.extend_from_slice(&room.to_be_bytes());
    m.extend_from_slice(payload);
    m
}

fn watch_request(room: u64) -> Vec<u8> {
    let mut m = vec![2u8];
    m.extend_from_slice(&room.to_be_bytes());
    m
}

fn error_reply(text: &str) -> Outbound {
    let mut m = vec![7u8];
    m.extend_from_slice(text.as_bytes());
    Outbound::Reply(m)
}

fn delivery(room: u64, stamp: u64, payload: &[u8]) -> Vec<u8> {
    let mut m = vec![1u8];
    m.extend_from_slice(&room.to_be_bytes());
    m.extend_from_slice(&stamp.to_be_bytes());
    m.extend_from_slice(payload);
    m
}

#[test]
fn post_then_get_returns_the_payload() {
    let mut db = Database::new();
    let outs = on_tcp_message(&mut db, &post_request(1, b"hi"), 9);
    assert_eq!(outs.len(), 0);
    let outs = on_tcp_message(&mut db, &get_request(1, 0, 1), 9);
    assert_eq!(outs.len(), 1);
    match &outs[0] {
        Outbound::Reply(m) => {
            assert_eq!(m[0], 1);
            assert_eq!(&m[1..9], &1u64.to_be_bytes());
            assert_eq!(&m[17..], b"hi");
        }
        other => panic!("expected a reply, got {:?}", other),
    }
}

#[test]
fn oversized_stream_post_is_rejected_and_stores_nothing() {
    let mut db = Database::new();
    let outs = on_tcp_message(&mut db, &post_request(1, &[0u8; 1025]), 9);
    assert_eq!(
        outs,
        vec![error_reply("cannot post more than 1024 bytes per request")]
    );
    let outs = on_tcp_message(&mut db, &get_request(1, 0, 1), 9);
    assert_eq!(outs, vec![error_reply("Room with id 1 does not exist")]);
}

#[test]
fn stream_post_of_exactly_1024_bytes_is_stored() {
    let mut db = Database::new();
    let outs = on_tcp_message(&mut db, &post_request(1, &[3u8; 1024]), 9);
    assert_eq!(outs.len(), 0);
    assert_eq!(db.get_post(1, 0, 1).unwrap()[0].0, vec![3u8; 1024]);
}

#[test]
fn watcher_receives_anothers_post() {
    let mut db = Database::new();
    let peer_a = 10;
    let peer_b = 11;
    assert_eq!(on_tcp_message(&mut db, &watch_request(5), peer_a).len(), 0);
    let outs = on_tcp_message(&mut db, &post_request(5, b"X"), peer_b);
    assert_eq!(outs.len(), 1);
    match &outs[0] {
        Outbound::Push(p, m) => {
            assert_eq!(*p, peer_a);
            let stamp = u64::from_be_bytes(m[9..17].try_into().unwrap());
            assert_eq!(*m, delivery(5, stamp, b"X"));
        }
        other => panic!("expected a push, got {:?}", other),
    }
}

#[test]
fn poster_watching_its_own_room_is_pushed_to_as_well() {
    let mut db = Database::new();
    let peer = 10;
    on_tcp_message(&mut db, &watch_request(5), peer);
    let outs = on_tcp_message(&mut db, &post_request(5, b"X"), peer);
    assert_eq!(outs.len(), 1);
    assert!(matches!(&outs[0], Outbound::Push(p, _) if *p == peer));
}

#[test]
fn post_after_disconnect_delivers_to_nobody_and_still_stores() {
    let mut db = Database::new();
    let peer_a = 10;
    on_tcp_message(&mut db, &watch_request(5), peer_a);
    db.remove_peer_everywhere(peer_a);
    let outs = on_tcp_message(&mut db, &post_request(5, b"X"), 11);
    assert_eq!(outs.len(), 0);
    assert_eq!(db.get_post(5, 0, 1).unwrap()[0].0, b"X".to_vec());
}

#[test]
fn unwatch_stops_deliveries() {
    let mut db = Database::new();
    let mut unwatch = vec![3u8];
    unwatch.extend_from_slice(&5u64.to_be_bytes());
    on_tcp_message(&mut db, &watch_request(5), 10);
    on_tcp_message(&mut db, &unwatch, 10);
    let outs = on_tcp_message(&mut db, &post_request(5, b"X"), 11);
    assert_eq!(outs.len(), 0);
}

#[test]
fn stream_time_request_yields_one_time_reply() {
    let mut db = Database::new();
    let outs = on_tcp_message(&mut db, &[4u8], 9);
    assert_eq!(outs.len(), 1);
    match &outs[0] {
        Outbound::Reply(m) => {
            assert_eq!(m.len(), 9);
            assert_eq!(m[0], 4);
        }
        other => panic!("expected a reply, got {:?}", other),
    }
}

#[test]
fn stream_unknown_tag_draws_unknown_header() {
    let mut db = Database::new();
    let outs = on_tcp_message(&mut db, &[5u8, 1, 2], 9);
    assert_eq!(outs, vec![error_reply("unknown header")]);
}

#[test]
fn empty_stream_message_is_ignored() {
    let mut db = Database::new();
    let outs = on_tcp_message(&mut db, &[], 9);
    assert_eq!(outs.len(), 0);
}

#[test]
fn short_stream_get_draws_malformed() {
    let mut db = Database::new();
    let outs = on_tcp_message(&mut db, &[0u8, 1, 2, 3], 9);
    assert_eq!(outs, vec![error_reply("malformed request")]);
}

#[test]
fn short_stream_post_draws_malformed() {
    let mut db = Database::new();
    let outs = on_tcp_message(&mut db, &[1u8, 1, 2], 9);
    assert_eq!(outs, vec![error_reply("malformed request")]);
}

#[test]
fn datagram_watch_is_always_rejected() {
    let mut db = Database::new();
    let fixed = error_reply("Watch and Unwatch can only be done through TCP Websockets");
    assert_eq!(on_udp_message(&mut db, &watch_request(5)), vec![fixed.clone()]);
    assert_eq!(
        on_udp_message(&mut db, &watch_request(0xFFFFFFFFFFFFFFFF)),
        vec![fixed.clone()]
    );
    assert_eq!(on_udp_message(&mut db, &[2u8]), vec![fixed.clone()]);
    let mut unwatch = vec![3u8];
    unwatch.extend_from_slice(&5u64.to_be_bytes());
    assert_eq!(on_udp_message(&mut db, &unwatch), vec![fixed]);
    assert_eq!(db.watchers(5), Vec::<u64>::new());
}

#[test]
fn datagram_post_cap_is_1200_bytes() {
    let mut db = Database::new();
    let outs = on_udp_message(&mut db, &post_request(1, &[0u8; 1201]));
    assert_eq!(
        outs,
        vec![error_reply("cannot post more than 1200 bytes per request")]
    );
    let outs = on_udp_message(&mut db, &post_request(1, &[0u8; 1200]));
    assert_eq!(outs.len(), 0);
    assert_eq!(db.get_post(1, 0, 1).unwrap()[0].0, vec![0u8; 1200]);
}

#[test]
fn datagram_post_fans_out_to_stream_watchers() {
    let mut db = Database::new();
    on_tcp_message(&mut db, &watch_request(5), 10);
    let outs = on_udp_message(&mut db, &post_request(5, b"X"));
    assert_eq!(outs.len(), 1);
    assert!(matches!(&outs[0], Outbound::Push(p, _) if *p == 10));
}

#[test]
fn datagram_get_answers_like_the_stream() {
    let mut db = Database::new();
    on_udp_message(&mut db, &post_request(1, b"hi"));
    let outs = on_udp_message(&mut db, &get_request(1, 0, 1));
    assert_eq!(outs.len(), 1);
    match &outs[0] {
        Outbound::Reply(m) => assert_eq!(&m[17..], b"hi"),
        other => panic!("expected a reply, got {:?}", other),
    }
}

#[test]
fn datagram_unknown_tag_draws_unknown_code() {
    let mut db = Database::new();
    let outs = on_udp_message(&mut db, &[9u8, 0]);
    assert_eq!(outs, vec![error_reply("unknown code")]);
}

#[test]
fn empty_datagram_is_ignored() {
    let mut db = Database::new();
    assert_eq!(on_udp_message(&mut db, &[]).len(), 0);
}
