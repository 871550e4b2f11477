use rsocks::connection::{
    build_reply, connect_failure_reply, perform_handshake, perform_request_negotiation,
    resolve_failure_reply, validate_command,
};
use rsocks::handshake::Handshake;
use rsocks::helpers::Ip;
use rsocks::request::{Destination, Request};

#[test]
fn greeting_gets_the_two_byte_method_selection() {
    let data = [0x05u8, 0x01, 0x00];
    let (handshake, reply) = perform_handshake(&data, 3).unwrap();
    assert_eq!(reply, vec![0x05, 0x00]);
    assert_eq!(handshake.version, 5);
    assert_eq!(handshake.num_methods, 1);
    assert_eq!(handshake.methods, vec![0x00]);
}

#[test]
fn greeting_with_many_methods() {
    let data = [0x05u8, 0x03, 0x00, 0x01, 0x02];
    let (handshake, reply) = perform_handshake(&data, 5).unwrap();
    assert_eq!(reply, vec![0x05, 0x00]);
    assert_eq!(handshake.methods, vec![0x00, 0x01, 0x02]);
}

#[test]
fn bad_version_greeting_is_rejected() {
    // A SOCKS4 client: the server closes without writing anything.
    let data = [0x04u8, 0x01, 0x00];
    assert!(perform_handshake(&data, 3).is_err());
}

#[test]
fn truncated_greeting_is_rejected() {
    let data = [0x05u8, 0x02, 0x00];
    // Two methods advertised but only one received.
    assert!(perform_handshake(&data, 3).is_err());
    // An empty or one-byte read cannot hold a greeting.
    assert!(perform_handshake(&data, 0).is_err());
    assert!(perform_handshake(&data, 1).is_err());
}

#[test]
fn handshake_from_data_reads_the_advertised_methods() {
    let data = [0x05u8, 0x02, 0x00, 0x02, 0xAA];
    let handshake = Handshake::from_data(&data);
    assert_eq!(handshake.version, 5);
    assert_eq!(handshake.num_methods, 2);
    assert_eq!(handshake.methods, vec![0x00, 0x02]);
}

#[test]
fn connect_request_to_ipv4_parses() {
    // CONNECT 127.0.0.1:80
    let data = [0x05u8, 0x01, 0x00, 0x01, 0x7F, 0x00, 0x00, 0x01, 0x00, 0x50];
    let request = Request::from_data(&data).unwrap();
    assert_eq!(request.version, 5);
    assert_eq!(request.command, 1);
    assert_eq!(request.reserved, 0);
    assert_eq!(request.address_type, 1);
    assert_eq!(request.port, 80);
    assert!(matches!(
        request.destination,
        Destination::Ipv4Addr(0x7F00_0001)
    ));
}

#[test]
fn connect_request_to_domain_parses() {
    // CONNECT localhost:80
    let data = [
        0x05u8, 0x01, 0x00, 0x03, 0x09, 0x6C, 0x6F, 0x63, 0x61, 0x6C, 0x68, 0x6F, 0x73, 0x74,
        0x00, 0x50,
    ];
    let request = Request::from_data(&data).unwrap();
    assert_eq!(request.address_type, 3);
    assert_eq!(request.port, 80);
    match request.destination {
        Destination::Domain(name) => assert_eq!(name, "localhost"),
        _ => panic!("expected a domain destination"),
    }
}

#[test]
fn connect_request_to_ipv6_parses() {
    let mut data = vec![0x05u8, 0x01, 0x00, 0x04];
    data.extend_from_slice(&[0, 0, 0, 0, 0, 0, 0, 0, 0, 0, 0, 0, 0, 0, 0, 1]);
    data.extend_from_slice(&[0x1F, 0x90]);
    let request = Request::from_data(&data).unwrap();
    assert_eq!(request.address_type, 4);
    assert_eq!(request.port, 8080);
    assert!(matches!(request.destination, Destination::Ipv6Addr(1)));
}

#[test]
fn unknown_address_type_is_corrupt() {
    let data = [0x05u8, 0x01, 0x00, 0x02, 0x7F, 0x00, 0x00, 0x01, 0x00, 0x50];
    assert!(Request::from_data(&data).is_err());
}

#[test]
fn truncated_requests_are_corrupt() {
    assert!(Request::from_data(&[0x05, 0x01, 0x00]).is_err());
    // IPv4 needs ten bytes.
    assert!(Request::from_data(&[0x05, 0x01, 0x00, 0x01, 0x7F, 0x00]).is_err());
    // The domain length byte promises more than was received.
    assert!(Request::from_data(&[0x05, 0x01, 0x00, 0x03, 0x09, 0x6C]).is_err());
    // IPv6 needs twenty-two bytes.
    assert!(Request::from_data(&[0x05, 0x01, 0x00, 0x04, 0x00, 0x01]).is_err());
}

#[test]
fn malformed_domain_text_is_corrupt() {
    // A domain of one byte that is not UTF-8.
    let data = [0x05u8, 0x01, 0x00, 0x03, 0x01, 0xFF, 0x00, 0x50];
    assert!(Request::from_data(&data).is_err());
}

#[test]
fn request_negotiation_needs_bytes() {
    let data = [0x05u8, 0x01, 0x00, 0x01, 0x7F, 0x00, 0x00, 0x01, 0x00, 0x50];
    assert!(perform_request_negotiation(&data, 0).is_err());
    let request = perform_request_negotiation(&data, 10).unwrap();
    assert_eq!(request.port, 80);
    // Bytes past the read are not part of the message.
    assert!(perform_request_negotiation(&data, 5).is_err());
}

#[test]
fn success_reply_for_ipv4_bound_address_is_ten_bytes() {
    let reply = build_reply(0, &Ip::V4(0x7F00_0001), 8080);
    assert_eq!(reply, vec![0x05, 0x00, 0x00, 0x01, 0x7F, 0x00, 0x00, 0x01, 0x1F, 0x90]);
}

#[test]
fn failure_reply_carries_the_code() {
    // A refused CONNECT: reply code five, still ten bytes for IPv4.
    let reply = build_reply(5, &Ip::V4(0), 0);
    assert_eq!(reply.len(), 10);
    assert_eq!(reply[0], 0x05);
    assert_eq!(reply[1], 0x05);
    assert_eq!(reply[2], 0x00);
    assert_eq!(reply[3], 0x01);
}

#[test]
fn reply_for_ipv6_bound_address_is_twenty_two_bytes() {
    let reply = build_reply(0, &Ip::V6(1), 443);
    assert_eq!(reply.len(), 22);
    assert_eq!(reply[0], 0x05);
    assert_eq!(reply[3], 0x04);
    assert_eq!(reply[19], 0x01);
    assert_eq!(reply[20], 0x01);
    assert_eq!(reply[21], 0xBB);
}

#[test]
fn only_connect_proceeds() {
    assert!(validate_command(0x01).is_ok());
    assert!(validate_command(0x02).is_err());
    assert!(validate_command(0x03).is_err());
    assert!(validate_command(0x7F).is_err());
}

#[test]
fn dial_failures_map_to_reply_codes() {
    // A closed port refuses the connection: reply code five.
    assert_eq!(connect_failure_reply(Some(111)), 5);
    assert_eq!(connect_failure_reply(Some(10061)), 5);
    assert_eq!(connect_failure_reply(None), 5);
    assert_eq!(connect_failure_reply(Some(110)), 6);
    assert_eq!(connect_failure_reply(Some(12345)), 1);
    assert_eq!(resolve_failure_reply(None), 8);
    assert_eq!(resolve_failure_reply(Some(101)), 3);
}
