//! How a query is answered: from a fixed address, or by asking an upstream
//! resolver once for each question.
//!
//! Asking upstream is work for the caller. What is decided here is what to ask
//! next and what to respond in the end: [`forward`] and [`Pending::on_reply`]
//! take the query and each upstream reply and give the next [`Step`].

use crate::message::data::{Data, Ipv4Addr};
use crate::message::domain::{domain_views, Domain, DomainView};
use crate::message::header::Header;
use crate::message::route::{route_views, Route, RouteView};
use crate::message::{cleared_counts, response_header, Message, MessageError, MessageView};
use vstd::pervasive::unreached;
use vstd::prelude::*;

verus! {

/// The time to live, in seconds, of an answer made here.
pub const LOCAL_TTL: u32 = 60;

/// The address that every answer made here gives: 8.8.8.8.
pub open spec fn spec_local_address() -> Ipv4Addr {
    Ipv4Addr::spec_new(8, 8, 8, 8)
}

/// The address that every answer made here gives.
pub fn local_address() -> (r: Ipv4Addr)
    ensures
        r == spec_local_address(),
{
    Ipv4Addr::new(8, 8, 8, 8)
}

/// The answer made here to one question.
pub open spec fn local_answer(question: DomainView) -> RouteView {
    RouteView { domain: question, ttl: LOCAL_TTL, data: Data::Ipv4(spec_local_address()) }
}

/// The answers made here to a list of questions: one for each, in order.
pub open spec fn local_answers(questions: Seq<DomainView>) -> Seq<RouteView> {
    questions.map_values(|q: DomainView| local_answer(q))
}

/// The response to `query` with `answers` attached: the header as
/// [`response_header`] gives it, with the answers counted; the questions of
/// the query; the answers.
pub open spec fn response_with(query: MessageView, answers: Seq<RouteView>) -> MessageView {
    MessageView {
        header: Header { an_count: answers.len() as u16, ..response_header(query.header) },
        questions: query.questions,
        answers,
    }
}

/// Answers every question of `query` with the fixed address, in the order of
/// the questions. This never fails.
pub fn look_up_local(query: Message) -> (r: Result<Message, MessageError>)
    ensures
        r matches Ok(m) && m@ == response_with(query@, local_answers(query@.questions)),
{
    let mut msg = Message::new_response(&query);
    let data = Data::Ipv4(local_address());
    let questions = query.questions();
    let mut ans: Vec<Route> = Vec::new();
    let mut k: usize = 0;
    while k < questions.len()
        invariant
            k <= questions@.len(),
            data == Data::Ipv4(spec_local_address()),
            route_views(ans@) == local_answers(query@.questions.take(k as int)),
            domain_views(questions@) == query@.questions,
        decreases questions@.len() - k,
    {
        let q = questions[k].clone();
        let ghost before = route_views(ans@);
        ans.push(Route::new(q, LOCAL_TTL, data));
        proof {
            assert(route_views(ans@) =~= before.push(local_answer(query@.questions[k as int])));
            assert(local_answers(query@.questions.take(k + 1)) =~= before.push(
                local_answer(query@.questions[k as int]),
            ));
        }
        k = k + 1;
    }
    assert(query@.questions.take(k as int) =~= query@.questions);
    match msg.set_answers(ans) {
        Ok(()) => Ok(msg),
        Err(e) => Err(e),
    }
}

/// A query that is being forwarded: the question numbered `asked` is out at
/// the upstream resolver, and `answers` are those that earlier replies
/// brought, in the order in which they came.
pub struct Pending {
    query: Message,
    asked: usize,
    answers: Vec<Route>,
}

/// What a [`Pending`] holds.
pub struct PendingView {
    pub query: MessageView,
    pub asked: nat,
    pub answers: Seq<RouteView>,
}

impl View for Pending {
    type V = PendingView;

    closed spec fn view(&self) -> PendingView {
        PendingView {
            query: self.query@,
            asked: self.asked as nat,
            answers: route_views(self.answers@),
        }
    }
}

/// What the caller does next for a forwarded query.
pub enum Step {
    /// Send [`Pending::question`] upstream and hand the reply to
    /// [`Pending::on_reply`].
    Ask(Pending),
    /// Every question was asked: send this response to the client.
    Respond(Message),
    /// The replies brought more answers than one response can count.
    Fail(MessageError),
}

/// What a [`Step`] holds.
pub enum StepView {
    Ask(PendingView),
    Respond(MessageView),
    Fail(MessageError),
}

impl View for Step {
    type V = StepView;

    open spec fn view(&self) -> StepView {
        match self {
            Step::Ask(p) => StepView::Ask(p@),
            Step::Respond(m) => StepView::Respond(m@),
            Step::Fail(e) => StepView::Fail(*e),
        }
    }
}

/// The message that asks upstream for question `k` of `query` alone, under
/// the header of the query.
pub open spec fn sub_query(query: MessageView, k: int) -> MessageView {
    MessageView {
        header: Header { qd_count: 1, ..cleared_counts(query.header) },
        questions: seq![query.questions[k]],
        answers: Seq::empty(),
    }
}

/// The response to a forwarded `query`: the header answers the header `last`
/// of the last upstream reply, as [`response_header`] says, and counts the
/// questions of the query and the answers; the questions are those of the
/// query; the answers are those that the replies brought.
pub open spec fn forwarded_response(
    query: MessageView,
    last: Header,
    answers: Seq<RouteView>,
) -> MessageView {
    MessageView {
        header: Header {
            qd_count: query.header.qd_count,
            an_count: answers.len() as u16,
            ..response_header(last)
        },
        questions: query.questions,
        answers,
    }
}

/// The end of forwarding: the response with `answers` under the header that
/// answers `last`, or, where a 16-bit count cannot hold the number of the
/// answers, the failure with that number.
pub open spec fn spec_outcome(
    query: MessageView,
    last: Header,
    answers: Seq<RouteView>,
) -> StepView {
    if answers.len() <= u16::MAX {
        StepView::Respond(forwarded_response(query, last, answers))
    } else {
        StepView::Fail(MessageError::TooManyAnswers(answers.len() as usize))
    }
}

/// The step to take when the first `asked` questions of `query` have been
/// answered with `answers`, the last reply under the header `last`: ask the
/// next question if there is one, else end.
pub open spec fn spec_step(
    query: MessageView,
    asked: nat,
    answers: Seq<RouteView>,
    last: Header,
) -> StepView {
    if asked < query.questions.len() {
        StepView::Ask(PendingView { query, asked, answers })
    } else {
        spec_outcome(query, last, answers)
    }
}

fn step(query: Message, asked: usize, answers: Vec<Route>, last: &Message) -> (r: Step)
    ensures
        r@ == spec_step(query@, asked as nat, route_views(answers@), last@.header),
{
    let questions = query.questions();
    if asked < questions.len() {
        return Step::Ask(Pending { query, asked, answers });
    }
    let mut msg = Message::new_response(last);
    if msg.set_questions(questions.clone()).is_err() {
        unreached::<()>();
    }
    match msg.set_answers(answers) {
        Ok(()) => Step::Respond(msg),
        Err(e) => Step::Fail(e),
    }
}

/// Begins to forward `query`: the first question is to be asked, or, where
/// the query has none, the response is ready.
pub fn forward(query: Message) -> (r: Step)
    ensures
        r@ == spec_step(query@, 0, Seq::empty(), query@.header),
{
    let last = query.clone();
    let answers: Vec<Route> = Vec::new();
    assert(route_views(answers@) =~= Seq::empty());
    step(query, 0, answers, &last)
}

impl Pending {
    #[verifier::type_invariant]
    spec fn asking(&self) -> bool {
        self.asked < self.query@.questions.len() && self.asked < usize::MAX
    }

    /// The message to send upstream now: the question that is asked, alone,
    /// under the header of the query.
    pub fn question(&self) -> (r: Message)
        ensures
            self@.asked < self@.query.questions.len(),
            r@ == sub_query(self@.query, self@.asked as int),
    {
        proof {
            use_type_invariant(self);
        }
        let mut msg = Message::new(*self.query.header());
        let mut qs: Vec<Domain> = Vec::new();
        qs.push(self.query.questions()[self.asked].clone());
        assert(domain_views(qs@) =~= seq![self@.query.questions[self@.asked as int]]);
        if msg.set_questions(qs).is_err() {
            unreached::<()>();
        }
        msg
    }

    /// Takes the upstream reply to the question that was asked: all of its
    /// answers are kept, after those of earlier replies, and the next question
    /// is asked. After the reply to the last question the response is made.
    pub fn on_reply(self, reply: Message) -> (r: Step)
        ensures
            r@ == spec_step(
                self@.query,
                self@.asked + 1,
                self@.answers + reply@.answers,
                reply@.header,
            ),
    {
        proof {
            use_type_invariant(&self);
        }
        let Pending { query, asked, answers } = self;
        let mut answers = answers;
        let ghost before = route_views(answers@);
        let theirs = reply.answers();
        let mut more = theirs.clone();
        assert(more@ =~= theirs@);
        answers.append(&mut more);
        assert(route_views(answers@) =~= before + reply@.answers);
        step(query, asked + 1, answers, &reply)
    }
}

/// The answers that a list of replies brought, reply after reply.
pub open spec fn all_answers(replies: Seq<MessageView>) -> Seq<RouteView>
    decreases replies.len(),
{
    if replies.len() == 0 {
        Seq::empty()
    } else {
        replies[0].answers + all_answers(replies.drop_first())
    }
}

/// The step that is reached from `step` when `replies` come in, in order, each
/// handed to [`Pending::on_reply`].
pub open spec fn spec_after(step: StepView, replies: Seq<MessageView>) -> StepView
    decreases replies.len(),
{
    if replies.len() == 0 {
        step
    } else {
        match step {
            StepView::Ask(p) => spec_after(
                spec_step(p.query, p.asked + 1, p.answers + replies[0].answers, replies[0].header),
                replies.drop_first(),
            ),
            _ => step,
        }
    }
}

/// From the middle of forwarding: when `asked` questions were answered with
/// `answers`, and one reply comes for each question that is left, the end is
/// reached with the answers of all replies behind `answers`.
pub proof fn lemma_forward_rest(
    query: MessageView,
    asked: nat,
    answers: Seq<RouteView>,
    last: Header,
    replies: Seq<MessageView>,
)
    requires
        replies.len() > 0,
        asked + replies.len() == query.questions.len(),
    ensures
        spec_after(spec_step(query, asked, answers, last), replies) == spec_outcome(
            query,
            replies.last().header,
            answers + all_answers(replies),
        ),
    decreases replies.len(),
{
    let rest = replies.drop_first();
    let more = answers + replies[0].answers;
    assert(answers + all_answers(replies) =~= more + all_answers(rest));
    if rest.len() == 0 {
        assert(more + all_answers(rest) =~= more);
    } else {
        assert(rest.last() == replies.last());
        lemma_forward_rest(query, asked + 1, more, replies[0].header, rest);
    }
}

/// Fan-out: a query with questions is forwarded in as many round trips as it
/// has questions, and the answers of the response are those of the replies,
/// one reply after the other, in the order of the questions.
pub proof fn lemma_forward_fan_out(query: MessageView, replies: Seq<MessageView>)
    requires
        replies.len() > 0,
        replies.len() == query.questions.len(),
    ensures
        spec_after(spec_step(query, 0, Seq::empty(), query.header), replies) == spec_outcome(
            query,
            replies.last().header,
            all_answers(replies),
        ),
{
    lemma_forward_rest(query, 0, Seq::empty(), query.header, replies);
    assert(Seq::<RouteView>::empty() + all_answers(replies) =~= all_answers(replies));
}

} // verus!
