pub mod answer;
pub mod data;
pub mod domain;
pub mod header;
pub mod question;
pub mod route;

use domain::{domain_views, Domain, DomainView};
use header::{Header, OpCode, QueryMode};
use route::{route_views, Route, RouteView};
use vstd::prelude::*;

verus! {

/// Why a list was refused by [`Message::set_questions`] or
/// [`Message::set_answers`]: its length, which a 16-bit count cannot hold.
#[derive(Clone, Copy, Debug, PartialEq, Eq, Structural)]
pub enum MessageError {
    TooManyQuestions(usize),
    TooManyAnswers(usize),
}

/// A message: a header, the questions asked and the answers given, both in
/// wire order.
///
/// The header's question and answer counts always equal the lengths of the two
/// lists. No operation sets a count on its own.
#[derive(Debug)]
pub struct Message {
    header: Header,
    questions: Vec<Domain>,
    answers: Vec<Route>,
}

/// What a [`Message`] holds, over the views of its questions and answers.
pub struct MessageView {
    pub header: Header,
    pub questions: Seq<DomainView>,
    pub answers: Seq<RouteView>,
}

impl MessageView {
    /// The header counts describe the two lists.
    pub open spec fn counts_match(self) -> bool {
        &&& self.header.qd_count == self.questions.len()
        &&& self.header.an_count == self.answers.len()
    }
}

impl View for Message {
    type V = MessageView;

    closed spec fn view(&self) -> MessageView {
        MessageView {
            header: self.header,
            questions: domain_views(self.questions@),
            answers: route_views(self.answers@),
        }
    }
}

/// The header of a fresh message made from `header`: the same, with the
/// question and answer counts cleared.
pub open spec fn cleared_counts(header: Header) -> Header {
    Header { qd_count: 0, an_count: 0, ..header }
}

/// The header of the response to a query with header `query`. It copies the
/// transaction id, the kind of query, the recursion-desired flag and the
/// question count; the response code says whether the kind of query is
/// supported; everything else is as in [`Header::spec_response`].
pub open spec fn response_header(query: Header) -> Header {
    Header {
        op_code: query.op_code,
        rd: query.rd,
        r_code: if query.op_code.0 == 0 {
            OpCode(0)
        } else {
            OpCode(4)
        },
        qd_count: query.qd_count,
        ..Header::spec_response(query.id)
    }
}

impl Clone for Message {
    fn clone(&self) -> (r: Self)
        ensures
            r@ == self@,
    {
        proof {
            use_type_invariant(self);
        }
        let questions = self.questions.clone();
        let answers = self.answers.clone();
        assert(questions@ =~= self.questions@);
        assert(answers@ =~= self.answers@);
        Message { header: self.header, questions, answers }
    }
}

impl Message {
    #[verifier::type_invariant]
    spec fn counted(&self) -> bool {
        &&& self.header.qd_count == self.questions@.len()
        &&& self.header.an_count == self.answers@.len()
    }

    /// A message with the given header and no questions or answers.
    pub fn new(header: Header) -> (r: Self)
        ensures
            r@ == (MessageView {
                header: cleared_counts(header),
                questions: Seq::empty(),
                answers: Seq::empty(),
            }),
            r@.counts_match(),
    {
        let mut header = header;
        header.qd_count = 0;
        header.an_count = 0;
        let r = Self { header, questions: Vec::new(), answers: Vec::new() };
        assert(r@.questions =~= Seq::empty());
        assert(r@.answers =~= Seq::empty());
        r
    }

    /// The response to `query`, before any answer is attached: the query's
    /// questions under the header [`response_header`] gives.
    pub fn new_response(query: &Message) -> (r: Self)
        ensures
            r@ == (MessageView {
                header: response_header(query@.header),
                questions: query@.questions,
                answers: Seq::empty(),
            }),
            r@.header.id == query@.header.id,
            r@.header.rd == query@.header.rd,
            r@.header.op_code == query@.header.op_code,
            query@.header.op_code.0 == 0 ==> r@.header.r_code == OpCode(0),
            query@.header.op_code.0 != 0 ==> r@.header.r_code == OpCode(4),
            r@.counts_match(),
    {
        proof {
            use_type_invariant(query);
        }
        let mut header = Header::response(query.header.id);
        header.op_code = query.header.op_code;
        header.rd = query.header.rd;
        header.r_code = if query.header.op_code.0 == 0 {
            OpCode::no_error()
        } else {
            OpCode::not_implemented()
        };
        header.qd_count = query.header.qd_count;
        let questions = query.questions.clone();
        assert(questions@ =~= query.questions@);
        let r = Self { header, questions, answers: Vec::new() };
        assert(r@.answers =~= Seq::empty());
        r
    }

    /// The header. Its question and answer counts are the lengths of the two
    /// lists.
    pub fn header(&self) -> (r: &Header)
        ensures
            *r == self@.header,
            self@.counts_match(),
    {
        proof {
            use_type_invariant(self);
        }
        &self.header
    }

    /// Whether the header marks the message as a query.
    pub fn is_query(&self) -> (r: bool)
        ensures
            r == (self@.header.qr == QueryMode::Query),
    {
        self.header.qr == QueryMode::Query
    }

    /// The questions, in order.
    pub fn questions(&self) -> (r: &Vec<Domain>)
        ensures
            domain_views(r@) == self@.questions,
            r@.len() == self@.header.qd_count,
    {
        proof {
            use_type_invariant(self);
        }
        &self.questions
    }

    /// Replaces the questions and sets the question count to their number.
    /// A list that a 16-bit count cannot describe is refused, and the message
    /// stays as it was.
    pub fn set_questions(&mut self, qs: Vec<Domain>) -> (r: Result<(), MessageError>)
        ensures
            qs@.len() <= u16::MAX ==> r is Ok && final(self)@ == (MessageView {
                header: Header { qd_count: qs@.len() as u16, ..old(self)@.header },
                questions: domain_views(qs@),
                answers: old(self)@.answers,
            }),
            qs@.len() > u16::MAX ==> r == Err::<(), MessageError>(
                MessageError::TooManyQuestions(qs@.len() as usize),
            ) && final(self)@ == old(self)@,
            final(self)@.counts_match(),
    {
        proof {
            use_type_invariant(&*self);
        }
        if qs.len() > u16::MAX as usize {
            return Err(MessageError::TooManyQuestions(qs.len()));
        }
        // The count and the list change in one step: the message is taken
        // apart and put together again.
        let mut taken = Message::new(self.header);
        core::mem::swap(self, &mut taken);
        let Message { header, questions: _, answers } = taken;
        let mut header = header;
        header.qd_count = qs.len() as u16;
        *self = Message { header, questions: qs, answers };
        Ok(())
    }

    /// The answers, in order.
    pub fn answers(&self) -> (r: &Vec<Route>)
        ensures
            route_views(r@) == self@.answers,
            r@.len() == self@.header.an_count,
    {
        proof {
            use_type_invariant(self);
        }
        &self.answers
    }

    /// Replaces the answers and sets the answer count to their number. A list
    /// that a 16-bit count cannot describe is refused, and the message stays
    /// as it was.
    pub fn set_answers(&mut self, ans: Vec<Route>) -> (r: Result<(), MessageError>)
        ensures
            ans@.len() <= u16::MAX ==> r is Ok && final(self)@ == (MessageView {
                header: Header { an_count: ans@.len() as u16, ..old(self)@.header },
                questions: old(self)@.questions,
                answers: route_views(ans@),
            }),
            ans@.len() > u16::MAX ==> r == Err::<(), MessageError>(
                MessageError::TooManyAnswers(ans@.len() as usize),
            ) && final(self)@ == old(self)@,
            final(self)@.counts_match(),
    {
        proof {
            use_type_invariant(&*self);
        }
        if ans.len() > u16::MAX as usize {
            return Err(MessageError::TooManyAnswers(ans.len()));
        }
        let mut taken = Message::new(self.header);
        core::mem::swap(self, &mut taken);
        let Message { header, questions, answers: _ } = taken;
        let mut header = header;
        header.an_count = ans.len() as u16;
        *self = Message { header, questions, answers: ans };
        Ok(())
    }
}

} // verus!
