use dns_codec::message::answer::{Answer, Answers};
use dns_codec::message::data::{Data, Ipv4Addr};
use dns_codec::message::domain::{Class, Domain, NotAClass, NotARecord, Record};
use dns_codec::message::header::{Header, OpCode, PacketId, QueryMode, Recursion};
use dns_codec::message::question::Questions;
use dns_codec::message::route::Route;
use dns_codec::message::{Message, MessageError};

#[test]
fn test_message_empty() {
    let h = Header {
        id: PacketId(42),
        ..Default::default()
    };

    let msg = Message::new(h);

    assert_eq!(msg.header().id, PacketId(42));
    assert_eq!(msg.header().an_count, 0);
    assert_eq!(msg.header().qd_count, 0);
}

#[test]
fn test_message_response() {
    let h = Header {
        id: PacketId(42),
        ..Default::default()
    };
    let mut query = Message::new(h);
    let q = Domain::new_aa("hernan.rs");
    let qs = vec![q.clone()];
    query.set_questions(qs).unwrap();

    let msg = Message::new_response(&query);

    assert_eq!(msg.header().id, query.header().id);
    assert_eq!(msg.header().rd, query.header().rd);
    assert_eq!(msg.header().qd_count, 1);
    assert!(msg.questions().contains(&q));
}

#[test]
fn test_message_answers() {
    let h = Header {
        id: PacketId(6),
        ..Default::default()
    };
    let d = Domain::new_aa("hernan.rs");
    let a = Route::new(d, 60, Data::Ipv4(Ipv4Addr::new(0, 0, 0, 0)));
    let ans = vec![a.clone()];

    let mut msg = Message::new(h);
    msg.set_answers(ans).unwrap();

    assert_eq!(msg.header().an_count, 1);
    assert!(msg.answers().contains(&a));
}

#[test]
fn answer_test_answer_aa() {
    let dn = Domain::new_aa("hernan.rs");
    let d = Data::Ipv4(Ipv4Addr::new(1, 1, 1, 1));
    let a = Answer::new(dn.clone(), d);
    assert_eq!(*a.domain(), dn);
    assert_eq!(a.ttl(), 60);
    assert_eq!(a.data(), &d);
}

#[test]
fn route_test_answer_aa() {
    let dn = Domain::new_aa("hernan.rs");
    let d = Data::Ipv4(Ipv4Addr::new(1, 1, 1, 1));
    let a = Route::new(dn.clone(), 60, d);
    assert_eq!(*a.domain(), dn);
    assert_eq!(a.ttl(), 60);
    assert_eq!(a.data(), &d);
}

#[test]
fn test_data_len() {
    let d = Data::Ipv4(Ipv4Addr::new(1, 1, 1, 1));
    assert_eq!(d.len(), 4);
}

#[test]
fn test_ipv4_octets() {
    assert_eq!(Ipv4Addr::new(192, 168, 0, 7).octets(), [192, 168, 0, 7]);
    assert_ne!(Ipv4Addr::new(1, 2, 3, 4), Ipv4Addr::new(4, 3, 2, 1));
}

#[test]
fn test_new_clears_counts_and_keeps_the_rest() {
    let h = Header {
        id: PacketId(7),
        qr: QueryMode::Query,
        rd: Recursion::Enabled,
        qd_count: 3,
        an_count: 9,
        ar_count: 5,
        ns_count: 2,
        ..Default::default()
    };
    let msg = Message::new(h);
    assert_eq!(msg.header().qd_count, 0);
    assert_eq!(msg.header().an_count, 0);
    assert_eq!(msg.header().ar_count, 5);
    assert_eq!(msg.header().ns_count, 2);
    assert_eq!(msg.header().qr, QueryMode::Query);
    assert_eq!(msg.header().rd, Recursion::Enabled);
    assert!(msg.is_query());
    assert!(msg.questions().is_empty());
    assert!(msg.answers().is_empty());
}

#[test]
fn test_counts_follow_the_lists() {
    let mut msg = Message::new(Header::default());
    let qs = vec![
        Domain::new_aa("a.example"),
        Domain::new_aa("b.example"),
        Domain::new_aa("c.example"),
    ];
    msg.set_questions(qs.clone()).unwrap();
    assert_eq!(msg.header().qd_count, 3);
    assert_eq!(msg.questions(), &qs);
    assert_eq!(msg.header().an_count, 0);

    let ans = vec![
        Route::new(qs[0].clone(), 1, Data::Ipv4(Ipv4Addr::new(1, 0, 0, 0))),
        Route::new(qs[1].clone(), 2, Data::Ipv4(Ipv4Addr::new(2, 0, 0, 0))),
    ];
    msg.set_answers(ans.clone()).unwrap();
    assert_eq!(msg.header().an_count, 2);
    assert_eq!(msg.header().qd_count, 3);
    assert_eq!(msg.answers(), &ans);

    msg.set_questions(vec![]).unwrap();
    assert_eq!(msg.header().qd_count, 0);
    assert_eq!(msg.header().an_count, 2);
    assert_eq!(msg.answers(), &ans);
}

#[test]
fn test_set_questions_at_the_limit() {
    let q = Domain::new_aa("x");
    let mut msg = Message::new(Header::default());
    msg.set_questions(vec![q.clone(); 65535]).unwrap();
    assert_eq!(msg.header().qd_count, 65535);
    assert_eq!(msg.questions().len(), 65535);
}

#[test]
fn test_set_questions_refuses_too_many() {
    let q = Domain::new_aa("x");
    let mut msg = Message::new(Header::default());
    msg.set_questions(vec![q.clone()]).unwrap();
    let r = msg.set_questions(vec![q.clone(); 65536]);
    assert_eq!(r, Err(MessageError::TooManyQuestions(65536)));
    assert_eq!(msg.header().qd_count, 1);
    assert_eq!(msg.questions().len(), 1);
}

#[test]
fn test_set_answers_refuses_too_many() {
    let a = Route::new(Domain::new_aa("x"), 60, Data::Ipv4(Ipv4Addr::new(1, 2, 3, 4)));
    let mut msg = Message::new(Header::default());
    msg.set_answers(vec![a.clone(), a.clone()]).unwrap();
    let r = msg.set_answers(vec![a.clone(); 65536]);
    assert_eq!(r, Err(MessageError::TooManyAnswers(65536)));
    assert_eq!(msg.header().an_count, 2);
    assert_eq!(msg.answers().len(), 2);
}

#[test]
fn test_response_reflects_op_code() {
    let mut query = Message::new(Header {
        id: PacketId(0x1234),
        qr: QueryMode::Query,
        op_code: OpCode(0),
        rd: Recursion::Enabled,
        ..Default::default()
    });
    query.set_questions(vec![Domain::new_aa("a.b")]).unwrap();
    let r = Message::new_response(&query);
    assert_eq!(r.header().r_code, OpCode::no_error());
    assert_eq!(r.header().id, PacketId(0x1234));
    assert_eq!(r.header().rd, Recursion::Enabled);
    assert_eq!(r.header().op_code, OpCode(0));
    assert_eq!(r.header().qr, QueryMode::Response);
    assert!(!r.is_query());
    assert!(r.answers().is_empty());

    let query = Message::new(Header {
        id: PacketId(9),
        qr: QueryMode::Query,
        op_code: OpCode(2),
        rd: Recursion::Disabled,
        ..Default::default()
    });
    let r = Message::new_response(&query);
    assert_eq!(r.header().r_code, OpCode::not_implemented());
    assert_eq!(r.header().r_code, OpCode(4));
    assert_eq!(r.header().id, PacketId(9));
    assert_eq!(r.header().rd, Recursion::Disabled);
    assert_eq!(r.header().op_code, OpCode(2));
}

#[test]
fn test_message_clone_is_equal() {
    let mut msg = Message::new(Header { id: PacketId(3), ..Default::default() });
    msg.set_questions(vec![Domain::new_aa("a.b"), Domain::new_aa("c.d")]).unwrap();
    let copy = msg.clone();
    assert_eq!(copy.header().id, PacketId(3));
    assert_eq!(copy.header().qd_count, 2);
    assert_eq!(copy.questions(), msg.questions());
}

#[test]
fn test_record_and_class_numbers() {
    assert_eq!(Record::try_from(1u16), Ok(Record::AA));
    assert_eq!(Record::try_from(0u16), Err(NotARecord(0)));
    assert_eq!(Record::try_from(28u16), Err(NotARecord(28)));
    assert_eq!(Class::try_from(1u16), Ok(Class::IN));
    assert_eq!(Class::try_from(3u16), Err(NotAClass(3)));
    assert_eq!(Record::AA.code(), 1);
    assert_eq!(Class::IN.code(), 1);
}

#[test]
fn test_new_aa() {
    let d = Domain::new_aa("hernan.rs");
    assert_eq!(d.name, "hernan.rs");
    assert_eq!(d.record, Record::AA);
    assert_eq!(d.class, Class::IN);
}

#[test]
fn test_questions_list() {
    let qs = Questions::try_from(vec![Domain::new_aa("a"), Domain::new_aa("b")]).unwrap();
    assert_eq!(qs.len(), 2);
    assert_eq!(qs[1], Domain::new_aa("b"));
    assert_eq!(qs.clone().len(), 2);
    assert!(Questions::default().is_empty());
    let many = Questions::try_from(vec![Domain::new_aa("a"); 65536]);
    assert_eq!(many.err(), Some(MessageError::TooManyQuestions(65536)));
    assert!(Questions::try_from(vec![Domain::new_aa("a"); 65535]).is_ok());
}

#[test]
fn test_answers_list() {
    let a = Answer::new(Domain::new_aa("a"), Data::Ipv4(Ipv4Addr::new(9, 9, 9, 9)));
    let ans = Answers::try_from(vec![a.clone()]).unwrap();
    assert_eq!(ans.len(), 1);
    assert_eq!(ans[0], a);
    assert_eq!(ans.clone().len(), 1);
    assert!(Answers::default().is_empty());
    let many = Answers::try_from(vec![a.clone(); 65536]);
    assert_eq!(many.err(), Some(MessageError::TooManyAnswers(65536)));
}
