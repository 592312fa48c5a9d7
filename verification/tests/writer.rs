use bytes::BytesMut;
use dns_codec::message::data::{Data, Ipv4Addr};
use dns_codec::message::domain::Domain;
use dns_codec::message::header::{
    Authoritative, Header, OpCode, PacketId, QueryMode, Recursion, Reserved, Truncation,
};
use dns_codec::message::route::Route;
use dns_codec::message::Message;
use dns_codec::parser::parse_message;
use dns_codec::writer::Serialize;

#[test]
fn test_write_domain() {
    let d = Domain::new_aa("google.com");
    let mut buf = BytesMut::new();
    d.write(&mut buf);

    let chunk: &[u8] = &[
        0x6, 0x67, 0x6f, 0x6f, 0x67, 0x6c, 0x65, 0x03, 0x63, 0x6f, 0x6d, 0, 0, 1, 0, 1,
    ];
    assert_eq!(buf.as_ref(), chunk);
}

#[test]
fn test_write_header() {
    let h = Header {
        id: PacketId(34346),
        qr: QueryMode::Query,
        op_code: OpCode::no_error(),
        aa: Authoritative::Unowned,
        tc: Truncation::Complete,
        rd: Recursion::Enabled,
        ra: Recursion::Disabled,
        z: Reserved,
        r_code: OpCode::no_error(),
        qd_count: 1,
        an_count: 0,
        ar_count: 0,
        ns_count: 0,
    };

    let mut buf = BytesMut::new();
    h.write(&mut buf);

    let chunk: &[u8] = &[0x86, 0x2a, 0x01, 00, 00, 1, 00, 00, 00, 00, 00, 00];
    assert_eq!(buf.as_ref(), chunk);
}

#[test]
fn test_write_answer() {
    let dn = Domain::new_aa("google.com");
    let d = Data::Ipv4(Ipv4Addr::new(0, 0, 0, 0));
    let a = Route::new(dn, 60, d);

    let mut buf = BytesMut::new();
    a.write(&mut buf);

    let chunk: &[u8] = &[
        0x6, 0x67, 0x6f, 0x6f, 0x67, 0x6c, 0x65, 0x03, 0x63, 0x6f, 0x6d, 0, 0, 1, 0, 1, 0, 0,
        0, 0x3c, 0, 4, 0, 0, 0, 0,
    ];
    assert_eq!(buf.as_ref(), chunk);
}

fn written<T: Serialize>(value: T) -> Vec<u8> {
    let mut buf = BytesMut::new();
    value.write(&mut buf);
    buf.to_vec()
}

#[test]
fn test_write_appends() {
    let mut buf = BytesMut::new();
    buf.extend_from_slice(&[0xaa, 0xbb]);
    Data::Ipv4(Ipv4Addr::new(1, 2, 3, 4)).write(&mut buf);
    "a".write(&mut buf);
    assert_eq!(buf.as_ref(), &[0xaa, 0xbb, 1, 2, 3, 4, 1, b'a', 0]);
}

#[test]
fn test_write_header_every_field() {
    let h = Header {
        id: PacketId(0xabcd),
        qr: QueryMode::Response,
        op_code: OpCode(0b0101),
        aa: Authoritative::Owned,
        tc: Truncation::Complete,
        rd: Recursion::Enabled,
        ra: Recursion::Enabled,
        z: Reserved,
        r_code: OpCode(0b0011),
        qd_count: 0x0102,
        an_count: 0x0304,
        ar_count: 0x0506,
        ns_count: 0x0708,
    };
    assert_eq!(
        written(h),
        vec![0xab, 0xcd, 0b1_0101_1_0_1, 0b1_000_0011, 1, 2, 3, 4, 5, 6, 7, 8]
    );

    let h = Header {
        tc: Truncation::Truncated,
        qr: QueryMode::Query,
        ..Default::default()
    };
    assert_eq!(written(h), vec![0, 0, 0b0_0000_0_1_0, 0, 0, 0, 0, 0, 0, 0, 0, 0]);
}

#[test]
fn test_write_header_keeps_four_bits_of_each_code() {
    let h = Header {
        qr: QueryMode::Query,
        op_code: OpCode(0xf5),
        r_code: OpCode(0xf4),
        ..Default::default()
    };
    assert_eq!(written(h), vec![0, 0, 0b0_0101_0_0_0, 0b0_000_0100, 0, 0, 0, 0, 0, 0, 0, 0]);
}

#[test]
fn test_write_name() {
    assert_eq!(written("google.com"), b"\x06google\x03com\x00".to_vec());
    assert_eq!(written("x"), vec![1, b'x', 0]);
    assert_eq!(written("a.b.c"), vec![1, b'a', 1, b'b', 1, b'c', 0]);
    assert_eq!(written("\u{e9}.\u{20ac}"), vec![2, 0xc3, 0xa9, 3, 0xe2, 0x82, 0xac, 0]);
}

#[test]
fn test_write_name_with_empty_parts() {
    assert_eq!(written(""), vec![0, 0]);
    assert_eq!(written("."), vec![0, 0, 0]);
    assert_eq!(written("a."), vec![1, b'a', 0, 0]);
    assert_eq!(written(".a"), vec![0, 1, b'a', 0]);
    assert_eq!(written("a..b"), vec![1, b'a', 0, 1, b'b', 0]);
}

#[test]
fn test_write_name_reduces_long_lengths() {
    let name = "a".repeat(300);
    let out = written(name.as_str());
    assert_eq!(out.len(), 302);
    assert_eq!(out[0], 44);
    assert!(out[1..301].iter().all(|b| *b == b'a'));
    assert_eq!(out[301], 0);

    let name = format!("{}.b", "a".repeat(256));
    let out = written(name.as_str());
    assert_eq!(out.len(), 260);
    assert_eq!(out[0], 0);
    assert_eq!(&out[257..], &[1, b'b', 0]);
}

#[test]
fn test_write_list_in_order() {
    let qs = vec![Domain::new_aa("a"), Domain::new_aa("bc")];
    assert_eq!(written(qs), vec![1, b'a', 0, 0, 1, 0, 1, 2, b'b', b'c', 0, 0, 1, 0, 1]);
    assert_eq!(written(Vec::<Domain>::new()), Vec::<u8>::new());
}

#[test]
fn test_write_data() {
    assert_eq!(written(Data::Ipv4(Ipv4Addr::new(8, 8, 4, 4))), vec![8, 8, 4, 4]);
}

#[test]
fn test_write_answer_ttl_is_big_endian() {
    let a = Route::new(
        Domain::new_aa("a"),
        0x01020304,
        Data::Ipv4(Ipv4Addr::new(9, 8, 7, 6)),
    );
    assert_eq!(written(a), vec![1, b'a', 0, 0, 1, 0, 1, 1, 2, 3, 4, 0, 4, 9, 8, 7, 6]);
}

fn sample() -> Message {
    let mut msg = Message::new(Header {
        id: PacketId(0x0102),
        qr: QueryMode::Response,
        op_code: OpCode(2),
        aa: Authoritative::Owned,
        tc: Truncation::Truncated,
        rd: Recursion::Enabled,
        ra: Recursion::Enabled,
        z: Reserved,
        r_code: OpCode(4),
        qd_count: 0,
        an_count: 0,
        ar_count: 7,
        ns_count: 9,
    });
    let qs = vec![Domain::new_aa("codecrafters.io"), Domain::new_aa("\u{fc}ber.example")];
    let ans = vec![
        Route::new(qs[0].clone(), 60, Data::Ipv4(Ipv4Addr::new(8, 8, 8, 8))),
        Route::new(qs[1].clone(), 3600, Data::Ipv4(Ipv4Addr::new(127, 0, 0, 1))),
        Route::new(qs[1].clone(), u32::MAX, Data::Ipv4(Ipv4Addr::new(255, 255, 255, 255))),
    ];
    msg.set_questions(qs).unwrap();
    msg.set_answers(ans).unwrap();
    msg
}

#[test]
fn test_flush() {
    let mut msg = Message::new(Header {
        id: PacketId(0x1234),
        qr: QueryMode::Query,
        rd: Recursion::Enabled,
        ..Default::default()
    });
    msg.set_questions(vec![Domain::new_aa("a.io")]).unwrap();
    msg.set_answers(vec![Route::new(
        Domain::new_aa("a.io"),
        60,
        Data::Ipv4(Ipv4Addr::new(8, 8, 8, 8)),
    )])
    .unwrap();
    let bytes = msg.flush();
    let expected: &[u8] = &[
        0x12, 0x34, 0x01, 0x00, 0, 1, 0, 1, 0, 0, 0, 0, 1, b'a', 2, b'i', b'o', 0, 0, 1, 0, 1,
        1, b'a', 2, b'i', b'o', 0, 0, 1, 0, 1, 0, 0, 0, 60, 0, 4, 8, 8, 8, 8,
    ];
    assert_eq!(bytes.as_ref(), expected);
    assert_eq!(msg.wire_len(), Some(expected.len()));
    assert_eq!(msg.try_flush().unwrap().as_ref(), expected);
}

#[test]
fn test_flush_empty_message_is_the_header() {
    let msg = Message::new(Header::default());
    assert_eq!(msg.flush().as_ref(), &[0, 0, 0x80, 0, 0, 0, 0, 0, 0, 0, 0, 0]);
    assert_eq!(msg.wire_len(), Some(12));
}

#[test]
fn test_flush_writes_counts_in_read_order() {
    let msg = Message::new(Header { ar_count: 0x0a0b, ns_count: 0x0c0d, ..Default::default() });
    assert_eq!(&msg.flush()[8..], &[0x0a, 0x0b, 0x0c, 0x0d]);
}

#[test]
fn test_round_trip() {
    let msg = sample();
    let bytes = msg.flush();
    assert_eq!(msg.wire_len(), Some(bytes.len()));
    let (rest, back) = parse_message(bytes.as_ref()).unwrap();
    assert!(rest.is_empty());
    let (h, b) = (msg.header(), back.header());
    assert_eq!(b.id, h.id);
    assert_eq!(b.qr, h.qr);
    assert_eq!(b.op_code, h.op_code);
    assert_eq!(b.aa, h.aa);
    assert_eq!(b.tc, h.tc);
    assert_eq!(b.rd, h.rd);
    assert_eq!(b.ra, h.ra);
    assert_eq!(b.r_code, h.r_code);
    assert_eq!(b.qd_count, 2);
    assert_eq!(b.an_count, 3);
    assert_eq!(b.ar_count, 7);
    assert_eq!(b.ns_count, 9);
    assert_eq!(back.questions(), msg.questions());
    assert_eq!(back.answers(), msg.answers());
    assert_eq!(back.flush(), bytes);
}

#[test]
fn test_round_trip_of_a_query() {
    let mut msg = Message::new(Header {
        id: PacketId(65535),
        qr: QueryMode::Query,
        op_code: OpCode(15),
        r_code: OpCode(15),
        ..Default::default()
    });
    msg.set_questions(vec![Domain::new_aa(&"l".repeat(191))]).unwrap();
    let back = Message::try_from(msg.flush().as_ref()).unwrap();
    assert_eq!(back.header().id, PacketId(65535));
    assert_eq!(back.header().op_code, OpCode(15));
    assert_eq!(back.header().r_code, OpCode(15));
    assert!(back.is_query());
    assert_eq!(back.questions(), msg.questions());
    assert!(back.answers().is_empty());
}

#[test]
fn test_names_that_do_not_come_back() {
    let mut msg = Message::new(Header::default());
    msg.set_questions(vec![Domain::new_aa("")]).unwrap();
    assert!(parse_message(msg.flush().as_ref()).is_err());

    let mut msg = Message::new(Header::default());
    msg.set_questions(vec![Domain::new_aa(&"l".repeat(192))]).unwrap();
    assert!(parse_message(msg.flush().as_ref()).is_err());
}
