use atm0s_sdn_network::msg::{MsgHeaderError, TransportMsg, TransportMsgHeader};
use atm0s_sdn_network::types::RouteRule;

fn header(version: u8, ttl: u8, from_service_id: u8, to_service_id: u8, route: RouteRule, meta: u8, stream_id: u32, from_node: Option<u32>) -> TransportMsgHeader {
    TransportMsgHeader {
        version,
        ttl,
        from_service_id,
        to_service_id,
        route,
        secure: true,
        meta,
        stream_id,
        from_node,
    }
}

#[test]
fn test_header_without_option() {
    let mut buf = vec![0u8; 16];
    let header = header(0, 0, 0, 0, RouteRule::Direct, 0, 0, None);
    let size = header.to_bytes(&mut buf).expect("should serialize");
    assert_eq!(header.serialize_size(), 8);
    let (header, _) = TransportMsgHeader::from_bytes(&buf[0..size]).unwrap();
    assert_eq!(header.serialize_size(), 8);
    assert_eq!(header.version, 0);
    assert_eq!(header.ttl, 0);
    assert_eq!(header.from_service_id, 0);
    assert_eq!(header.to_service_id, 0);
    assert_eq!(header.route, RouteRule::Direct);
    assert_eq!(header.secure, true);
    assert_eq!(header.stream_id, 0);
    assert_eq!(header.from_node, None);
}

#[test]
fn test_header_without_option2() {
    let mut buf = [0; 16];
    let header = header(0, 10, 88, 88, RouteRule::Direct, 0, 1234, None);
    let size = header.to_bytes(&mut buf).expect("should serialize");
    assert_eq!(header.serialize_size(), 8);
    let (header, _) = TransportMsgHeader::from_bytes(&buf[0..size]).unwrap();
    assert_eq!(header.version, 0);
    assert_eq!(header.ttl, 10);
    assert_eq!(header.from_service_id, 88);
    assert_eq!(header.to_service_id, 88);
    assert_eq!(header.route, RouteRule::Direct);
    assert_eq!(header.secure, true);
    assert_eq!(header.stream_id, 1234);
    assert_eq!(header.from_node, None);
}

#[test]
fn test_header_with_dest2() {
    let mut buf = [0; 16];
    let header = header(0, 0, 0, 0, RouteRule::ToNode(0), 0, 0, None);
    let size = header.to_bytes(&mut buf).expect("should serialize");
    assert_eq!(header.serialize_size(), 12);
    let (header, _) = TransportMsgHeader::from_bytes(&buf[0..size]).unwrap();
    assert_eq!(header.version, 0);
    assert_eq!(header.ttl, 0);
    assert_eq!(header.from_service_id, 0);
    assert_eq!(header.to_service_id, 0);
    assert_eq!(header.route, RouteRule::ToNode(0));
    assert_eq!(header.stream_id, 0);
    assert_eq!(header.from_node, None);
}

#[test]
fn test_header_with_all_options() {
    let mut buf = [0; 16];
    let header = header(0, 66, 33, 34, RouteRule::ToNode(111), 3, 222, Some(1000));
    let size = header.to_bytes(&mut buf).expect("should serialize");
    println!("{:?}", buf);
    assert_eq!(header.serialize_size(), 16);
    let (header, _) = TransportMsgHeader::from_bytes(&buf[0..size]).unwrap();
    assert_eq!(header.version, 0);
    assert_eq!(header.ttl, 66);
    assert_eq!(header.from_service_id, 33);
    assert_eq!(header.to_service_id, 34);
    assert_eq!(header.route, RouteRule::ToNode(111));
    assert_eq!(header.secure, true);
    assert_eq!(header.meta, 3);
    assert_eq!(header.stream_id, 222);
    assert_eq!(header.from_node, Some(1000));
}

#[test]
fn test_header_with_dest() {
    let mut buf = [0; 16];
    let header = header(0, 10, 88, 88, RouteRule::ToNode(1000), 0, 1234, None);
    let size = header.to_bytes(&mut buf).expect("should serialize");
    assert_eq!(header.serialize_size(), 12);
    let (header, _) = TransportMsgHeader::from_bytes(&buf[0..size]).unwrap();
    assert_eq!(header.version, 0);
    assert_eq!(header.ttl, 10);
    assert_eq!(header.from_service_id, 88);
    assert_eq!(header.to_service_id, 88);
    assert_eq!(header.route, RouteRule::ToNode(1000));
    assert_eq!(header.secure, true);
    assert_eq!(header.stream_id, 1234);
    assert_eq!(header.from_node, None);
}

#[test]
fn test_header_with_option_from_node() {
    let mut buf = [0; 16];
    let header = header(0, 0, 0, 0, RouteRule::ToNode(0), 0, 0, Some(0));
    let size = header.to_bytes(&mut buf).expect("should serialize");
    assert_eq!(header.serialize_size(), 16);
    let (header, _) = TransportMsgHeader::from_bytes(&buf[0..size]).unwrap();
    assert_eq!(header.version, 0);
    assert_eq!(header.ttl, 0);
    assert_eq!(header.from_service_id, 0);
    assert_eq!(header.to_service_id, 0);
    assert_eq!(header.route, RouteRule::ToNode(0));
    assert_eq!(header.secure, true);
    assert_eq!(header.stream_id, 0);
    assert_eq!(header.from_node, Some(0));
}

#[test]
fn test_header_with_option_validate_code() {
    let mut buf = [0; 16];
    let header = header(0, 0, 0, 0, RouteRule::ToNode(0), 0, 0, None);
    let size = header.to_bytes(&mut buf).expect("should serialize");
    assert_eq!(header.serialize_size(), 12);
    let (header, _) = TransportMsgHeader::from_bytes(&buf[0..size]).unwrap();
    assert_eq!(header.version, 0);
    assert_eq!(header.ttl, 0);
    assert_eq!(header.from_service_id, 0);
    assert_eq!(header.to_service_id, 0);
    assert_eq!(header.route, RouteRule::ToNode(0));
    assert_eq!(header.secure, true);
    assert_eq!(header.stream_id, 0);
    assert_eq!(header.from_node, None);
}

#[test]
fn test_header_with_option_from_node_and_validate_code() {
    let mut buf = [0; 20];
    let header = header(0, 0, 0, 0, RouteRule::ToNode(0), 0, 0, Some(0));
    let size = header.to_bytes(&mut buf).expect("should serialize");
    assert_eq!(header.serialize_size(), 16);
    let (header, _) = TransportMsgHeader::from_bytes(&buf[0..size]).unwrap();
    assert_eq!(header.version, 0);
    assert_eq!(header.ttl, 0);
    assert_eq!(header.from_service_id, 0);
    assert_eq!(header.to_service_id, 0);
    assert_eq!(header.route, RouteRule::ToNode(0));
    assert_eq!(header.secure, true);
    assert_eq!(header.stream_id, 0);
    assert_eq!(header.from_node, Some(0));
}

#[test]
fn test_with_invalid_version() {
    let mut buf = [0; 16];
    let header = header(1, 0, 0, 0, RouteRule::ToNode(0), 0, 0, None);
    let size = header.to_bytes(&mut buf).expect("should serialize");
    let err = TransportMsgHeader::from_bytes(&buf[0..size]).unwrap_err();
    assert_eq!(err, MsgHeaderError::InvalidVersion);
}

#[test]
fn msg_simple() {
    let msg = TransportMsg::build(0, 0, RouteRule::Direct, 0, 0, &[1, 2, 3, 4]);
    let buf = msg.get_buf().to_vec();
    let msg2 = TransportMsg::from_vec(buf).unwrap();
    assert_eq!(msg, msg2);
    assert_eq!(msg.payload(), &[1, 2, 3, 4]);
}

#[test]
fn msg_build_raw() {
    let msg = TransportMsg::build_raw(TransportMsgHeader::new(), &[1, 2, 3, 4]);
    let buf = msg.get_buf().to_vec();
    let msg2 = TransportMsg::from_vec(buf).unwrap();
    assert_eq!(msg, msg2);
    assert_eq!(msg.payload(), &[1, 2, 3, 4]);
}

#[test]
fn header_exact_bytes_and_errors() {
    let h = header(0, 7, 1, 2, RouteRule::ToKey(0x01020304), 2, 0x0a0b0c0d, Some(0x11223344));
    let mut buf = [0u8; 16];
    assert_eq!(h.to_bytes(&mut buf), Some(16));
    // F=1, R=3, S=1, M=2
    assert_eq!(buf, [0b0011_1110, 7, 1, 2, 0x0a, 0x0b, 0x0c, 0x0d, 0x11, 0x22, 0x33, 0x44, 1, 2, 3, 4]);
    assert_eq!(TransportMsgHeader::from_bytes(&buf), Ok((h, 16)));
    assert_eq!(TransportMsgHeader::from_bytes(&buf[0..7]), Err(MsgHeaderError::TooSmall));
    assert_eq!(TransportMsgHeader::from_bytes(&buf[0..13]), Err(MsgHeaderError::TooSmall));
    let mut small = [9u8; 10];
    assert_eq!(h.to_bytes(&mut small), None);
    assert_eq!(small, [9u8; 10]);
    assert!(TransportMsg::is_secure_header(buf[0]));
    assert!(!TransportMsg::is_secure_header(0b0011_1010));
}

#[test]
fn header_rewrite_route() {
    // without a sender: the destination follows the stream id
    let h = header(0, 7, 1, 2, RouteRule::ToNode(5), 2, 0x0a0b0c0d, None);
    let mut buf = [0u8; 15];
    buf[12..15].copy_from_slice(&[0xaa, 0xbb, 0xcc]);
    assert_eq!(h.to_bytes(&mut buf), Some(12));
    assert_eq!(TransportMsgHeader::rewrite_route(&mut buf, RouteRule::ToNode(7)), Some(()));
    let mut expected = h.clone();
    expected.route = RouteRule::ToNode(7);
    assert_eq!(TransportMsgHeader::from_bytes(&buf), Ok((expected, 12)));
    assert_eq!(&buf[12..15], &[0xaa, 0xbb, 0xcc]);

    // with a sender: the destination follows the sender, and the route type may change
    let h = header(0, 7, 1, 2, RouteRule::ToService(9), 1, 0x01020304, Some(0x11223344));
    let mut buf = [0u8; 16];
    assert_eq!(h.to_bytes(&mut buf), Some(16));
    assert_eq!(TransportMsgHeader::rewrite_route(&mut buf, RouteRule::ToKey(0x05060708)), Some(()));
    let mut expected = h.clone();
    expected.route = RouteRule::ToKey(0x05060708);
    assert_eq!(TransportMsgHeader::from_bytes(&buf), Ok((expected, 16)));
    assert_eq!(buf, [0b0011_1101, 7, 1, 2, 1, 2, 3, 4, 0x11, 0x22, 0x33, 0x44, 5, 6, 7, 8]);

    // a direct new route, a message without a destination field, or a short buffer
    let before = buf;
    assert_eq!(TransportMsgHeader::rewrite_route(&mut buf, RouteRule::Direct), None);
    assert_eq!(buf, before);
    let direct = header(0, 7, 1, 2, RouteRule::Direct, 0, 3, None);
    let mut dbuf = [0u8; 12];
    assert_eq!(direct.to_bytes(&mut dbuf), Some(8));
    let dbefore = dbuf;
    assert_eq!(TransportMsgHeader::rewrite_route(&mut dbuf, RouteRule::ToNode(1)), None);
    assert_eq!(dbuf, dbefore);
    let mut short = [0u8; 7];
    assert_eq!(TransportMsgHeader::rewrite_route(&mut short, RouteRule::ToKey(1)), None);
    let mut cut = [0b0000_1000u8, 0, 0, 0, 0, 0, 0, 0, 1, 2];
    assert_eq!(TransportMsgHeader::rewrite_route(&mut cut, RouteRule::ToKey(1)), None);
}
