use dns_codec::message::domain::Domain;
use dns_codec::message::header::{Header, PacketId, QueryMode};
use dns_codec::message::Message;
use dns_codec::parser::{Names, ParseError, ParseErrorKind};
use dns_codec::transport::{confirm_sent, read_query, PartialSend, ReadError, HEADER_LEN};

fn datagram(qr: QueryMode) -> Vec<u8> {
    let mut msg = Message::new(Header { id: PacketId(1), qr, ..Default::default() });
    msg.set_questions(vec![Domain::new_aa("a.b")]).unwrap();
    msg.flush().to_vec()
}

#[test]
fn test_read_query() {
    let bytes = datagram(QueryMode::Query);
    let mut buf = [0u8; 512];
    buf[..bytes.len()].copy_from_slice(&bytes);
    let msg = read_query(&buf, bytes.len(), Names::Compressed).unwrap();
    assert_eq!(msg.header().id, PacketId(1));
    assert_eq!(msg.questions(), &vec![Domain::new_aa("a.b")]);
}

#[test]
fn test_short_datagrams_are_refused_unread() {
    assert_eq!(HEADER_LEN, 12);
    let buf = [0u8; 512];
    assert_eq!(read_query(&buf, 11, Names::Compressed).err(), Some(ReadError::TooShort(11)));
    assert_eq!(read_query(&buf, 12, Names::Compressed).err(), Some(ReadError::TooShort(12)));
    assert_eq!(read_query(&buf, 0, Names::Compressed).err(), Some(ReadError::TooShort(0)));
    let bytes = datagram(QueryMode::Query);
    assert_eq!(read_query(&bytes, 12, Names::Compressed).err(), Some(ReadError::TooShort(12)));
    assert!(read_query(&buf, 13, Names::Compressed).is_ok());
    assert_eq!(read_query(&buf[..11], 11, Names::Compressed).err(), Some(ReadError::TooShort(11)));
}

#[test]
fn test_responses_are_refused() {
    let bytes = datagram(QueryMode::Response);
    assert_eq!(read_query(&bytes, bytes.len(), Names::Compressed).err(), Some(ReadError::NotAQuery));
}

#[test]
fn test_malformed_datagrams_are_refused() {
    let mut bytes = datagram(QueryMode::Query);
    let n = bytes.len();
    bytes[n - 3] = 7;
    assert_eq!(
        read_query(&bytes, n, Names::Compressed).err(),
        Some(ReadError::Malformed(ParseError {
            kind: ParseErrorKind::NotARecord(7),
            remaining: 4
        }))
    );
    let bytes = datagram(QueryMode::Query);
    assert_eq!(
        read_query(&bytes[..n - 1], n, Names::Compressed).err(),
        Some(ReadError::Malformed(ParseError { kind: ParseErrorKind::Truncated, remaining: 1 }))
    );
}

#[test]
fn test_confirm_sent() {
    assert_eq!(confirm_sent(30, 30), Ok(()));
    assert_eq!(confirm_sent(0, 0), Ok(()));
    assert_eq!(confirm_sent(29, 30), Err(PartialSend { sent: 29, len: 30 }));
    assert_eq!(confirm_sent(31, 30), Err(PartialSend { sent: 31, len: 30 }));
}

#[test]
fn test_read_query_the_simple_way() {
    let bytes = datagram(QueryMode::Query);
    let msg = read_query(&bytes, bytes.len(), Names::Plain).unwrap();
    assert_eq!(msg.questions(), &vec![Domain::new_aa("a.b")]);

    let compressed: &[u8] = &[
        0, 1, 0, 0, 0, 2, 0, 0, 0, 0, 0, 0, 1, b'a', 1, b'b', 0, 0, 1, 0, 1, 1, b'c', 0xc0, 14,
        0, 1, 0, 1,
    ];
    let msg = read_query(compressed, compressed.len(), Names::Compressed).unwrap();
    assert_eq!(msg.questions(), &vec![Domain::new_aa("a.b"), Domain::new_aa("c.b")]);
    assert_eq!(
        read_query(compressed, compressed.len(), Names::Plain).err(),
        Some(ReadError::Malformed(ParseError {
            kind: ParseErrorKind::PointerOutOfRange(14),
            remaining: 6
        }))
    );
}
