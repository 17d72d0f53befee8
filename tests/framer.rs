use espresso::commands::urcs::{try_extract, EspUrc, Extracted, NetworkData, URC_CAPACITY};
use espresso::error::ErrorKind;
use espresso::types::ConnectionId;

fn complete(consumed: usize, id: Option<ConnectionId>, data: &[u8]) -> Extracted {
    Extracted::Complete {
        consumed,
        message: EspUrc::NetworkData(NetworkData {
            connection_id: id,
            data: heapless::Vec::from_slice(data).unwrap(),
        }),
    }
}

#[test]
fn whole_frame_in_one_piece() {
    assert_eq!(try_extract(b"+IPD,5:hello"), Ok(complete(12, None, b"hello")));
}

#[test]
fn frame_fed_in_two_pieces() {
    let mut buf = b"+IPD,5:he".to_vec();
    assert_eq!(try_extract(&buf), Ok(Extracted::Incomplete));
    buf.extend_from_slice(b"llo");
    assert_eq!(try_extract(&buf), Ok(complete(12, None, b"hello")));
}

#[test]
fn multiplexed_frame_has_connection_id() {
    assert_eq!(
        try_extract(b"+IPD,0,5:hello"),
        Ok(complete(14, Some(ConnectionId::Zero), b"hello"))
    );
}

#[test]
fn other_notification_is_not_a_frame() {
    assert_eq!(try_extract(b"+CUSTOM:x"), Ok(Extracted::NotAFrame));
    assert_eq!(try_extract(b"OK\r\n"), Ok(Extracted::NotAFrame));
}

#[test]
fn partial_signature_is_not_a_frame() {
    assert_eq!(try_extract(b""), Ok(Extracted::NotAFrame));
    assert_eq!(try_extract(b"+IP"), Ok(Extracted::NotAFrame));
    assert_eq!(try_extract(b"+ipd,5:hello"), Ok(Extracted::NotAFrame));
    assert_eq!(try_extract(b"+IPD5:x"), Ok(Extracted::NotAFrame));
}

#[test]
fn partial_header_is_incomplete() {
    assert_eq!(try_extract(b"+IPD,"), Ok(Extracted::Incomplete));
    assert_eq!(try_extract(b"+IPD,12"), Ok(Extracted::Incomplete));
}

#[test]
fn remainder_after_frame_is_left() {
    let buf = b"+IPD,3:abc+IPD,1:z";
    assert_eq!(try_extract(buf), Ok(complete(10, None, b"abc")));
    assert_eq!(try_extract(&buf[10..]), Ok(complete(8, None, b"z")));
}

#[test]
fn payload_may_hold_any_byte() {
    let buf = b"+IPD,4:\r\n:\xff";
    assert_eq!(try_extract(buf), Ok(complete(11, None, b"\r\n:\xff")));
}

#[test]
fn header_with_address_fields() {
    assert_eq!(
        try_extract(b"+IPD,2,10.0.0.1,80:hi"),
        Ok(complete(21, None, b"hi"))
    );
    assert_eq!(
        try_extract(b"+IPD,4,2,10.0.0.1,80:hi"),
        Ok(complete(23, Some(ConnectionId::Four), b"hi"))
    );
}

#[test]
fn malformed_headers_are_parse_errors() {
    assert_eq!(try_extract(b"+IPD,5x:hello"), Err(ErrorKind::Parse));
    assert_eq!(try_extract(b"+IPD,:"), Err(ErrorKind::Parse));
    assert_eq!(try_extract(b"+IPD,7,5:hello"), Err(ErrorKind::Parse));
    assert_eq!(try_extract(b"+IPD,1,2,3,4,5:x"), Err(ErrorKind::Parse));
}

#[test]
fn oversized_payload_is_refused() {
    assert_eq!(try_extract(b"+IPD,2049:"), Err(ErrorKind::CapacityExceeded));
    assert_eq!(try_extract(b"+IPD,99999999999999999999999:"), Err(ErrorKind::CapacityExceeded));
    let mut buf = b"+IPD,2048:".to_vec();
    buf.extend(std::iter::repeat(7u8).take(URC_CAPACITY));
    assert_eq!(try_extract(&buf), Ok(complete(2058, None, &[7u8; 2048])));
}

#[test]
fn extraction_repeats_on_same_buffer() {
    for buf in [&b"+IPD,5:hel"[..], b"+IPD,5:hello", b"+CUSTOM:x", b"+IPD,x:"] {
        assert_eq!(try_extract(buf), try_extract(buf));
    }
}

#[test]
fn urc_parse_network_data_and_other() {
    assert_eq!(
        EspUrc::parse(b"+IPD,1,3:abc"),
        Ok(EspUrc::NetworkData(NetworkData {
            connection_id: Some(ConnectionId::One),
            data: heapless::Vec::from_slice(b"abc").unwrap()
        }))
    );
    assert_eq!(
        EspUrc::parse(b"WIFI GOT IP"),
        Ok(EspUrc::Other(heapless::Vec::from_slice(b"WIFI GOT IP").unwrap()))
    );
    assert_eq!(EspUrc::parse(b"+IPD,3:abcd"), Err(ErrorKind::Parse));
    assert_eq!(EspUrc::parse(b"+IPD,3:ab"), Err(ErrorKind::Parse));
    assert_eq!(EspUrc::parse(&vec![b'x'; 2049]), Err(ErrorKind::CapacityExceeded));
}

#[test]
fn network_data_from_whole_urc() {
    let d = NetworkData::from_urc(b"+IPD,2:ok").unwrap();
    assert_eq!(d.connection_id, None);
    assert_eq!(d.data.as_slice(), b"ok");
}

#[test]
fn consumed_frame_parses_as_urc() {
    let buf = b"+IPD,2,3:abcOK\r\n";
    let consumed = match try_extract(buf) {
        Ok(Extracted::Complete { consumed, message }) => {
            assert_eq!(EspUrc::parse(&buf[..consumed]), Ok(message));
            consumed
        }
        other => panic!("not a complete frame: {:?}", other),
    };
    assert_eq!(consumed, 12);
}
