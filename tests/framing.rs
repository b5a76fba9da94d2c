use pickls::language_server::{parse_json_rpc, JsonRpcResponse, MessageId};

#[test]
fn messages_are_framed_by_length() {
    let mut p = parse_json_rpc();
    p.push_bytes(b"Content-Length: 5\r\nContent-Type: x\r\n\r\nhel");
    assert!(p.next_message().ok().unwrap().is_none());
    p.push_bytes(b"loContent-Length: 2\r\n\r\n{}");
    assert_eq!(p.next_message().ok().unwrap().unwrap(), b"hello".to_vec());
    assert_eq!(p.next_message().ok().unwrap().unwrap(), b"{}".to_vec());
    assert!(p.next_message().ok().unwrap().is_none());
}

#[test]
fn other_headers_may_come_first() {
    let mut p = parse_json_rpc();
    p.push_bytes(b"X-Other: 1\r\nContent-Length: 3\r\n\r\nabc");
    assert_eq!(p.next_message().ok().unwrap().unwrap(), b"abc".to_vec());
}

#[test]
fn header_without_length_is_an_error() {
    let mut p = parse_json_rpc();
    p.push_bytes(b"Content-Type: x\r\n\r\n{}");
    assert!(p.next_message().is_err());
}

#[test]
fn responses_carry_the_version() {
    let r = JsonRpcResponse::response(MessageId::Number(42), 7u8);
    assert_eq!(r.jsonrpc, "2.0");
    assert!(matches!(r.id, MessageId::Number(42)));
    assert_eq!(r.result, 7);
}
