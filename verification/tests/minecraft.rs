use farsight::controller::protocol::minecraft::{
    build_latest_request, find_status, read_varint, write_varint, SLPParser,
};
use farsight::controller::protocol::{ParseError, Parser, ParserKind, Payload};

fn status(text: &[u8]) -> Option<Vec<u8>> {
    let value: serde_json::Value = serde_json::from_slice(text).ok()?;
    if value.get("version")?.is_object() && value.get("players")?.is_object() {
        Some(text.to_vec())
    } else {
        None
    }
}

fn parse(data: &[u8]) -> Result<Vec<u8>, ParseError> {
    SLPParser::new(status).parse(1, 2, data)
}

fn written(value: i32) -> Vec<u8> {
    let mut out = vec![0xee];
    write_varint(&mut out, value);
    assert_eq!(out[0], 0xee);
    out[1..].to_vec()
}

fn response(packet_id: i32, announced: i32, text: &[u8]) -> Vec<u8> {
    let mut packet = Vec::new();
    write_varint(&mut packet, packet_id);
    write_varint(&mut packet, announced);
    packet.extend_from_slice(text);
    let mut out = Vec::new();
    write_varint(&mut out, packet.len() as i32);
    out.extend_from_slice(&packet);
    out
}

#[test]
fn varints_have_their_exact_bytes() {
    assert_eq!(written(0), vec![0]);
    assert_eq!(written(1), vec![1]);
    assert_eq!(written(127), vec![127]);
    assert_eq!(written(128), vec![128, 1]);
    assert_eq!(written(300), vec![172, 2]);
    assert_eq!(written(767), vec![255, 5]);
    assert_eq!(written(i32::MAX), vec![255, 255, 255, 255, 7]);
    assert_eq!(written(-1), vec![255, 255, 255, 255, 15]);
    assert_eq!(written(i32::MIN), vec![128, 128, 128, 128, 8]);
}

#[test]
fn varints_read_back() {
    for value in [0, 1, 2, 127, 128, 255, 300, 16383, 16384, 2097151, 2097152, 268435455, 268435456, i32::MAX, -1, -2, i32::MIN, -123456] {
        let mut data = vec![9, 9];
        write_varint(&mut data, value);
        let end = data.len();
        data.push(0x80);
        assert_eq!(read_varint(&data, 2), Ok((value, end)));
    }
}

#[test]
fn varint_reading_stops_after_five_bytes() {
    assert_eq!(read_varint(&[0xff, 0xff, 0xff, 0xff, 0xff, 0xff], 0), Ok((-1, 5)));
    assert_eq!(read_varint(&[0x80, 0x80, 0x80, 0x80, 0x80, 0x01], 0), Ok((0, 5)));
    assert_eq!(read_varint(&[0x81, 0x80, 0x80, 0x80, 0x90], 0), Ok((1, 5)));
}

#[test]
fn varint_cut_short_is_incomplete() {
    assert_eq!(read_varint(&[], 0), Err(ParseError::Incomplete));
    assert_eq!(read_varint(&[0x80], 0), Err(ParseError::Incomplete));
    assert_eq!(read_varint(&[0x80, 0x80, 0x80, 0x80], 0), Err(ParseError::Incomplete));
    assert_eq!(read_varint(&[0x01], 1), Err(ParseError::Incomplete));
    assert_eq!(read_varint(&[0x01], 7), Err(ParseError::Incomplete));
}

#[test]
fn request_has_its_exact_bytes() {
    assert_eq!(
        build_latest_request("localhost", 25565, 767),
        vec![16, 0, 255, 5, 9, 108, 111, 99, 97, 108, 104, 111, 115, 116, 99, 221, 1, 1, 0]
    );
    assert_eq!(build_latest_request("", 0, 0), vec![6, 0, 0, 0, 0, 0, 1, 1, 0]);
}

#[test]
fn request_with_a_long_host_name() {
    let host = "a".repeat(200);
    let request = build_latest_request(&host, 0x0102, -1);
    let mut expected = vec![0xd3, 0x01, 0x00, 255, 255, 255, 255, 15, 0xc8, 0x01];
    expected.extend_from_slice(host.as_bytes());
    expected.extend_from_slice(&[1, 2, 1, 1, 0]);
    assert_eq!(request, expected);
}

#[test]
fn a_request_is_a_payload_for_every_peer() {
    let request = build_latest_request("localhost", 25565, 767);
    assert_eq!(request.build(1, 2).unwrap(), &request[..]);
    assert_eq!(request.build(0xffff_ffff, 0).unwrap(), &request[..]);
}

#[test]
fn status_text_starts_after_three_varints() {
    let text = br#"{"a":1}"#;
    let data = response(0, text.len() as i32, text);
    assert_eq!(find_status(&data), Ok(3));
    let long = vec![b' '; 300];
    let data = response(0, 300, &long);
    assert_eq!(find_status(&data), Ok(5));
}

#[test]
fn status_parses_to_its_text() {
    let text = br#"{"version":{"name":"x","protocol":5},"players":{"max":1,"online":0}}"#;
    let data = response(0, text.len() as i32, text);
    assert_eq!(parse(&data), Ok(text.to_vec()));
    assert_eq!(SLPParser::new(status).kind(), ParserKind::Slp);
}

#[test]
fn status_that_is_not_json_is_invalid() {
    for text in [&b"{\"a\":"[..], &b"hello"[..], &b"{} {}"[..], &b"{\"a\":1}x"[..], &b"\xff\xfe"[..]] {
        let data = response(0, text.len() as i32, text);
        assert_eq!(parse(&data), Err(ParseError::Invalid));
    }
}

#[test]
fn status_with_another_packet_id_or_no_length_is_invalid() {
    let text = br#"{"version":{},"players":{}}"#;
    assert_eq!(parse(&response(1, 7, text)), Err(ParseError::Invalid));
    assert_eq!(parse(&response(0, 0, text)), Err(ParseError::Invalid));
    assert_eq!(parse(&response(0, -5, text)), Err(ParseError::Invalid));
    assert_eq!(find_status(&response(0, 0, b"")), Err(ParseError::Invalid));
}

#[test]
fn status_cut_short_is_incomplete() {
    let text = br#"{"version":{"name":"x","protocol":5},"players":{"max":1,"online":0}}"#;
    let data = response(0, text.len() as i32, text);
    for cut in 0..data.len() {
        assert_eq!(parse(&data[..cut]), Err(ParseError::Incomplete));
    }
    assert!(parse(&data).is_ok());
}

#[test]
fn status_longer_than_announced_is_read_to_its_end() {
    let text = br#"{"version":{},"players":{}}"#;
    let data = response(0, 3, text);
    assert_eq!(parse(&data), Ok(text.to_vec()));
    let mut trailing = response(0, text.len() as i32, text);
    trailing.extend_from_slice(b"  \n");
    let mut expected = text.to_vec();
    expected.extend_from_slice(b"  \n");
    assert_eq!(parse(&trailing), Ok(expected));
}

#[test]
fn json_that_is_no_status_is_invalid() {
    for text in [&b"{}"[..], &b"{\"a\":1}"[..], &b"[]"[..], &b"1"[..], &b"{\"version\":{}}"[..]] {
        let data = response(0, text.len() as i32, text);
        assert_eq!(parse(&data), Err(ParseError::Invalid));
    }
}

#[test]
fn the_decoder_sees_the_status_text_and_nothing_else() {
    let seen = std::cell::RefCell::new(Vec::new());
    let parser = SLPParser::new(|text: &[u8]| {
        seen.borrow_mut().push(text.to_vec());
        Some(text.len())
    });
    let data = response(0, 5, b"hello");
    assert_eq!(parser.parse(9, 9, &data[..4]), Err(ParseError::Incomplete));
    assert_eq!(parser.parse(9, 9, &response(1, 5, b"hello")), Err(ParseError::Invalid));
    assert!(seen.borrow().is_empty());
    assert_eq!(parser.parse(9, 9, &data), Ok(5));
    assert_eq!(parser.parse(1, 2, &data), Ok(5));
    assert_eq!(*seen.borrow(), vec![b"hello".to_vec(), b"hello".to_vec()]);
}
