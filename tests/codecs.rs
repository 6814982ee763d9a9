use wakeup_gateway::connect::{
    decode_connect_envelope, decode_connect_request_first_message, encode_chunked_bytes,
    encode_chunked_final, encode_connect_end_ok_envelope, encode_connect_envelope,
    parse_subscribe_topic,
};
use wakeup_gateway::handshake::{
    build_initial_state_update, build_metadata_bytes, build_oauth_info, build_oauth_topic_bytes,
    parse_started_request, ClientMetadata,
};
use wakeup_gateway::proto::{
    encode_len_delim_field, encode_string_field, encode_varint, encode_varint_field, read_varint,
    skip_field,
};

#[test]
fn varint_encodings() {
    assert_eq!(encode_varint(0), vec![0u8]);
    assert_eq!(encode_varint(1), vec![1u8]);
    assert_eq!(encode_varint(127), vec![0x7fu8]);
    assert_eq!(encode_varint(128), vec![0x80u8, 0x01]);
    assert_eq!(encode_varint(300), vec![0xacu8, 0x02]);
    assert_eq!(encode_varint(u64::MAX).len(), 10);
}

#[test]
fn varint_round_trip_and_errors() {
    for v in [0u64, 1, 127, 128, 300, 65535, 1 << 35, u64::MAX] {
        let mut bytes = encode_varint(v);
        let n = bytes.len();
        bytes.push(0xff);
        assert_eq!(read_varint(&bytes, 0), Ok((v, n)));
    }
    assert!(read_varint(&[0x80u8, 0x80], 0).is_err());
    assert!(read_varint(&[], 0).is_err());
    let eleven = [0xffu8, 0xff, 0xff, 0xff, 0xff, 0xff, 0xff, 0xff, 0xff, 0xff, 0x01];
    assert!(read_varint(&eleven, 0).is_err());
    let too_big = [0xffu8, 0xff, 0xff, 0xff, 0xff, 0xff, 0xff, 0xff, 0xff, 0x02];
    assert!(read_varint(&too_big, 0).is_err());
}

#[test]
fn skip_field_by_wire_type() {
    let buf = [0x96u8, 0x01, 0, 0, 0, 0, 0, 0, 0, 0];
    assert_eq!(skip_field(&buf, 0, 0), Ok(2));
    assert_eq!(skip_field(&buf, 0, 1), Ok(8));
    assert_eq!(skip_field(&buf, 2, 5), Ok(6));
    assert_eq!(skip_field(&[3u8, b'a', b'b', b'c'], 0, 2), Ok(4));
    assert!(skip_field(&[5u8, b'a'], 0, 2).is_err());
    assert!(skip_field(&buf, 0, 3).is_err());
    assert!(skip_field(&buf, 5, 1).is_err());
}

#[test]
fn field_encoders() {
    assert_eq!(encode_len_delim_field(1, b"ab"), vec![0x0au8, 2, b'a', b'b']);
    assert_eq!(encode_string_field(24, "x"), vec![0xc2u8, 0x01, 1, b'x']);
    assert_eq!(encode_varint_field(1, 1), vec![8u8, 1]);
}

#[test]
fn connect_envelope_round_trip_sizes() {
    for size in [0usize, 1, 65536, 70000] {
        let payload: Vec<u8> = (0..size).map(|i| (i % 251) as u8).collect();
        for flags in [0u8, 2u8] {
            let framed = encode_connect_envelope(flags, &payload);
            assert_eq!(framed.len(), size + 5);
            assert_eq!(decode_connect_envelope(&framed), Ok((flags, payload.clone())));
        }
    }
}

#[test]
fn connect_envelope_rejections() {
    let compressed = encode_connect_envelope(1, b"abc");
    assert!(decode_connect_envelope(&compressed).is_err());
    assert!(decode_connect_envelope(&[0u8, 0, 0]).is_err());
    assert!(decode_connect_envelope(&[0u8, 0, 0, 0, 9, 1, 2]).is_err());
    assert_eq!(decode_connect_request_first_message(&[0u8, 0, 0, 0, 1, 7, 8, 9]), Ok(vec![7u8]));
}

#[test]
fn connect_end_frame() {
    assert_eq!(encode_connect_end_ok_envelope(), vec![2u8, 0, 0, 0, 2, b'{', b'}']);
}

#[test]
fn chunked_coding() {
    assert_eq!(encode_chunked_bytes(b"hello"), b"5\r\nhello\r\n".to_vec());
    let long = vec![b'z'; 26];
    let chunk = encode_chunked_bytes(&long);
    assert!(chunk.starts_with(b"1A\r\n"));
    assert_eq!(chunk.len(), 4 + 26 + 2);
    assert_eq!(encode_chunked_final(), b"0\r\n\r\n".to_vec());
}

#[test]
fn subscribe_topic_is_read() {
    let mut msg = encode_varint_field(2, 7);
    msg.extend(encode_string_field(1, "uss-oauth"));
    let body = encode_connect_envelope(0, &msg);
    assert_eq!(parse_subscribe_topic(&body), Ok("uss-oauth".to_string()));
    let no_topic = encode_connect_envelope(0, &encode_varint_field(2, 7));
    assert!(parse_subscribe_topic(&no_topic).is_err());
    let bad_utf8 = encode_connect_envelope(0, &encode_len_delim_field(1, &[0xffu8, 0xfe]));
    assert!(parse_subscribe_topic(&bad_utf8).is_err());
}

#[test]
fn started_ports_are_read() {
    let mut body = encode_varint_field(1, 443);
    body.extend(encode_varint_field(2, 9000));
    body.extend(encode_string_field(3, "ignored"));
    body.extend(vec![0x25u8, 1, 2, 3, 4]);
    body.extend(encode_varint_field(5, 8080));
    let ports = parse_started_request(&body).unwrap();
    assert_eq!((ports.https_port, ports.lsp_port, ports.http_port), (443, 9000, 8080));
    let only_https = parse_started_request(&encode_varint_field(1, 1234)).unwrap();
    assert_eq!((only_https.https_port, only_https.http_port, only_https.lsp_port), (1234, 0, 0));
    assert!(parse_started_request(&encode_varint_field(2, 1)).is_err());
    assert!(parse_started_request(&encode_varint_field(1, 70000)).is_err());
    assert!(parse_started_request(&[0x0bu8]).is_err());
}

#[test]
fn metadata_message_fields() {
    let meta = ClientMetadata {
        ide_name: "Antigravity".to_string(),
        ide_version: "1.2".to_string(),
        extension_name: "antigravity".to_string(),
        extension_path: String::new(),
        locale: "en-US".to_string(),
        device_fingerprint: "f".to_string(),
    };
    let mut expected = encode_string_field(1, "Antigravity");
    expected.extend(encode_string_field(7, "1.2"));
    expected.extend(encode_string_field(12, "antigravity"));
    expected.extend(encode_string_field(4, "en-US"));
    expected.extend(encode_string_field(24, "f"));
    assert_eq!(build_metadata_bytes(&meta), expected);
    let empty = ClientMetadata {
        ide_name: String::new(),
        ide_version: String::new(),
        extension_name: String::new(),
        extension_path: String::new(),
        locale: String::new(),
        device_fingerprint: String::new(),
    };
    assert_eq!(build_metadata_bytes(&empty), vec![0u8]);
}

#[test]
fn oauth_info_and_topic() {
    let info = build_oauth_info("a", "b", 5);
    assert_eq!(
        info,
        vec![0x0au8, 1, b'a', 0x12, 6, b'B', b'e', b'a', b'r', b'e', b'r', 0x1a, 1, b'b', 0x22, 2, 0x08, 0x05]
    );
    assert_eq!(build_oauth_info("a", "b", -3), build_oauth_info("a", "b", 0));
    let topic = build_oauth_topic_bytes("a", "b", 5);
    let row = encode_string_field(1, "CgFhEgZCZWFyZXIaAWIiAggF");
    let mut entry = encode_string_field(1, "oauthTokenInfoSentinelKey");
    entry.extend(encode_len_delim_field(2, &row));
    assert_eq!(topic, encode_len_delim_field(1, &entry));
    assert_eq!(build_initial_state_update(&[1u8, 2]), vec![0x0au8, 2, 1, 2]);
}
