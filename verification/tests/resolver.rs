use dns_codec::message::data::{Data, Ipv4Addr};
use dns_codec::message::domain::Domain;
use dns_codec::message::header::{Header, OpCode, PacketId, QueryMode, Recursion};
use dns_codec::message::route::Route;
use dns_codec::message::{Message, MessageError};
use dns_codec::resolver::{forward, local_address, look_up_local, Step, LOCAL_TTL};

fn query(id: u16, names: &[&str]) -> Message {
    let mut q = Message::new(Header {
        id: PacketId(id),
        qr: QueryMode::Query,
        rd: Recursion::Enabled,
        ..Default::default()
    });
    q.set_questions(names.iter().map(|n| Domain::new_aa(n)).collect()).unwrap();
    q
}

fn reply(id: u16, name: &str, addresses: &[[u8; 4]]) -> Message {
    let mut r = Message::new(Header { id: PacketId(id), ..Default::default() });
    r.set_questions(vec![Domain::new_aa(name)]).unwrap();
    r.set_answers(
        addresses
            .iter()
            .map(|a| {
                Route::new(Domain::new_aa(name), 300, Data::Ipv4(Ipv4Addr::new(a[0], a[1], a[2], a[3])))
            })
            .collect(),
    )
    .unwrap();
    r
}

#[test]
fn test_local_echo_answer() {
    let q = query(0x0bad, &["codecrafters.io"]);
    let r = look_up_local(q).unwrap();
    assert_eq!(r.header().qd_count, 1);
    assert_eq!(r.header().an_count, 1);
    assert_eq!(r.header().id, PacketId(0x0bad));
    assert_eq!(r.header().qr, QueryMode::Response);
    assert_eq!(r.header().rd, Recursion::Enabled);
    assert_eq!(r.header().r_code, OpCode::no_error());
    assert_eq!(r.questions(), &vec![Domain::new_aa("codecrafters.io")]);
    assert_eq!(r.answers().len(), 1);
    let a = &r.answers()[0];
    assert_eq!(a.domain().name, "codecrafters.io");
    assert_eq!(*a.domain(), r.questions()[0]);
    assert_eq!(*a.data(), Data::Ipv4(Ipv4Addr::new(8, 8, 8, 8)));
    assert_eq!(a.ttl(), 60);
}

#[test]
fn test_local_constants() {
    assert_eq!(local_address(), Ipv4Addr::new(8, 8, 8, 8));
    assert_eq!(LOCAL_TTL, 60);
}

#[test]
fn test_local_answers_keep_question_order() {
    let r = look_up_local(query(1, &["a.x", "b.x", "c.x"])).unwrap();
    assert_eq!(r.header().an_count, 3);
    let names: Vec<&str> = r.answers().iter().map(|a| a.domain().name.as_str()).collect();
    assert_eq!(names, vec!["a.x", "b.x", "c.x"]);
}

#[test]
fn test_local_without_questions() {
    let r = look_up_local(query(1, &[])).unwrap();
    assert_eq!(r.header().qd_count, 0);
    assert_eq!(r.header().an_count, 0);
    assert!(r.answers().is_empty());
}

#[test]
fn test_local_unsupported_op_code() {
    let mut q = Message::new(Header {
        id: PacketId(5),
        qr: QueryMode::Query,
        op_code: OpCode(1),
        ..Default::default()
    });
    q.set_questions(vec![Domain::new_aa("a.b")]).unwrap();
    let r = look_up_local(q).unwrap();
    assert_eq!(r.header().r_code, OpCode::not_implemented());
    assert_eq!(r.header().op_code, OpCode(1));
    assert_eq!(r.header().an_count, 1);
}

#[test]
fn test_forwarding_fan_out() {
    let q = query(77, &["one.example", "two.example"]);

    let Step::Ask(first) = forward(q) else {
        panic!("the first question is to be asked");
    };
    let ask = first.question();
    assert_eq!(ask.header().id, PacketId(77));
    assert_eq!(ask.header().qd_count, 1);
    assert_eq!(ask.header().an_count, 0);
    assert!(ask.is_query());
    assert_eq!(ask.questions(), &vec![Domain::new_aa("one.example")]);
    assert!(ask.answers().is_empty());

    let Step::Ask(second) = first.on_reply(reply(77, "one.example", &[[1, 1, 1, 1], [1, 1, 1, 2]]))
    else {
        panic!("the second question is to be asked");
    };
    let ask = second.question();
    assert_eq!(ask.header().id, PacketId(77));
    assert_eq!(ask.questions(), &vec![Domain::new_aa("two.example")]);

    let Step::Respond(r) = second.on_reply(reply(77, "two.example", &[[2, 2, 2, 2]])) else {
        panic!("the response is due");
    };
    assert_eq!(r.header().id, PacketId(77));
    assert_eq!(r.header().qr, QueryMode::Response);
    assert_eq!(r.header().qd_count, 2);
    assert_eq!(r.header().an_count, 3);
    assert_eq!(
        r.questions(),
        &vec![Domain::new_aa("one.example"), Domain::new_aa("two.example")]
    );
    let ip = |a, b, c, d| Data::Ipv4(Ipv4Addr::new(a, b, c, d));
    assert_eq!(
        r.answers(),
        &vec![
            Route::new(Domain::new_aa("one.example"), 300, ip(1, 1, 1, 1)),
            Route::new(Domain::new_aa("one.example"), 300, ip(1, 1, 1, 2)),
            Route::new(Domain::new_aa("two.example"), 300, ip(2, 2, 2, 2)),
        ]
    );
}

#[test]
fn test_forwarding_without_questions_responds_at_once() {
    let Step::Respond(r) = forward(query(3, &[])) else {
        panic!("nothing is to be asked");
    };
    assert_eq!(r.header().id, PacketId(3));
    assert_eq!(r.header().qr, QueryMode::Response);
    assert_eq!(r.header().rd, Recursion::Enabled);
    assert_eq!(r.header().an_count, 0);
    assert!(r.answers().is_empty());
}

#[test]
fn test_forwarding_keeps_all_answers_of_a_reply() {
    let Step::Ask(p) = forward(query(3, &["a.b"])) else {
        panic!("the question is to be asked");
    };
    let mut up = reply(3, "other.name", &[[5, 5, 5, 5]]);
    up.set_questions(vec![]).unwrap();
    let Step::Respond(r) = p.on_reply(up) else {
        panic!("the response is due");
    };
    assert_eq!(r.questions(), &vec![Domain::new_aa("a.b")]);
    assert_eq!(r.header().qd_count, 1);
    assert_eq!(r.answers().len(), 1);
    assert_eq!(r.answers()[0].domain().name, "other.name");
}

#[test]
fn test_forwarded_response_answers_the_last_reply_header() {
    let Step::Ask(p) = forward(query(3, &["a.b"])) else {
        panic!("the question is to be asked");
    };
    let mut up = Message::new(Header {
        id: PacketId(4),
        op_code: OpCode(2),
        rd: Recursion::Disabled,
        ..Default::default()
    });
    up.set_answers(vec![]).unwrap();
    let Step::Respond(r) = p.on_reply(up) else {
        panic!("the response is due");
    };
    assert_eq!(r.header().id, PacketId(4));
    assert_eq!(r.header().op_code, OpCode(2));
    assert_eq!(r.header().rd, Recursion::Disabled);
    assert_eq!(r.header().r_code, OpCode::not_implemented());
    assert_eq!(r.header().qd_count, 1);
}

#[test]
fn test_forwarding_fails_on_too_many_answers() {
    let Step::Ask(p) = forward(query(3, &["a.b", "c.d"])) else {
        panic!("the question is to be asked");
    };
    let a = Route::new(Domain::new_aa("a.b"), 1, Data::Ipv4(Ipv4Addr::new(1, 1, 1, 1)));
    let mut big = Message::new(Header::default());
    big.set_answers(vec![a.clone(); 40000]).unwrap();
    let Step::Ask(p) = p.on_reply(big.clone()) else {
        panic!("the second question is to be asked");
    };
    let Step::Fail(e) = p.on_reply(big) else {
        panic!("eighty thousand answers cannot be counted");
    };
    assert_eq!(e, MessageError::TooManyAnswers(80000));
}
