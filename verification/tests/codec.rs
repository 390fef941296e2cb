use room_broker::codec::parse_get_request;
use room_broker::codec::post_data;
use room_broker::codec::time_message_data;
use room_broker::codec::error_msg_data;
use room_broker::codec::u64_dec_string;

fn get_request(room: u64, from: u64, to: u64) -> Vec<u8> {
    let mut m = vec![0u8];
    m.extend_from_slice(&room.to_be_bytes());
    m.extend_from_slice(&from.to_be_bytes());
    m.extend_from_slice(&to.to_be_bytes());
    m
}

#[test]
fn parse_get_request_reads_the_three_fields() {
    let m = get_request(5, 2, 9);
    assert_eq!(parse_get_request(&m), Some((5, 2, 9)));
    let m = get_request(u64::MAX, 0, u64::MAX);
    assert_eq!(parse_get_request(&m), Some((u64::MAX, 0, u64::MAX)));
}

#[test]
fn parse_get_request_rejects_a_short_buffer() {
    assert_eq!(parse_get_request(&[]), None);
    assert_eq!(parse_get_request(&[0u8]), None);
    assert_eq!(parse_get_request(&vec![0u8; 24]), None);
    assert!(parse_get_request(&vec![0u8; 25]).is_some());
}

#[test]
fn post_data_lays_out_tag_room_stamp_payload() {
    let msg = post_data(1, (b"hi".to_vec(), 7));
    let mut expected = vec![1u8];
    expected.extend_from_slice(&1u64.to_be_bytes());
    expected.extend_from_slice(&7u64.to_be_bytes());
    expected.extend_from_slice(b"hi");
    assert_eq!(msg, expected);
}

#[test]
fn time_message_is_tag_and_big_endian_stamp() {
    let msg = time_message_data(258);
    let mut expected = vec![4u8];
    expected.extend_from_slice(&258u64.to_be_bytes());
    assert_eq!(msg, expected);
}

#[test]
fn error_message_is_tag_and_utf8_text() {
    let msg = error_msg_data(String::from("boom"));
    let mut expected = vec![7u8];
    expected.extend_from_slice(b"boom");
    assert_eq!(msg, expected);
}

#[test]
fn decimal_formatting_is_exact() {
    assert_eq!(u64_dec_string(0), "0");
    assert_eq!(u64_dec_string(7), "7");
    assert_eq!(u64_dec_string(10), "10");
    assert_eq!(u64_dec_string(1234567890), "1234567890");
    assert_eq!(u64_dec_string(u64::MAX), "18446744073709551615");
}
