use super::data::Data;
use super::domain::Domain;
use super::route::RouteView;
use super::MessageError;
use vstd::prelude::*;

verus! {

/// An answer record that may be cached for the default time.
#[derive(Debug, PartialEq)]
pub struct Answer {
    domain: Domain,
    ttl: u32,
    data: Data,
}

/// The time to live, in seconds, of an answer made without one.
pub const DEFAULT_TTL: u32 = 60;

impl View for Answer {
    type V = RouteView;

    closed spec fn view(&self) -> RouteView {
        RouteView { domain: self.domain@, ttl: self.ttl, data: self.data }
    }
}

impl Clone for Answer {
    fn clone(&self) -> (r: Self)
        ensures
            r == *self,
    {
        Answer { domain: self.domain.clone(), ttl: self.ttl, data: self.data }
    }
}

impl Answer {
    /// The answer that `domain` has `data`, with the default time to live.
    pub fn new(domain: Domain, data: Data) -> (r: Self)
        ensures
            r@ == (RouteView { domain: domain@, ttl: DEFAULT_TTL, data }),
    {
        Self { domain, ttl: DEFAULT_TTL, data }
    }

    /// The domain that the answer is about.
    pub fn domain(&self) -> (r: &Domain)
        ensures
            r@ == self@.domain,
    {
        &self.domain
    }

    /// The time to live, in seconds.
    pub fn ttl(&self) -> (r: u32)
        ensures
            r == self@.ttl,
    {
        self.ttl
    }

    /// The payload.
    pub fn data(&self) -> (r: &Data)
        ensures
            *r == self@.data,
    {
        &self.data
    }
}

/// A list of answers that a 16-bit count can describe.
#[derive(Debug)]
pub struct Answers(Vec<Answer>);

impl Answers {
    #[verifier::type_invariant]
    spec fn counted(&self) -> bool {
        self.0@.len() <= u16::MAX
    }

    /// The answers, in order.
    pub closed spec fn view(&self) -> Seq<Answer> {
        self.0@
    }
}

impl Default for Answers {
    fn default() -> (r: Self)
        ensures
            r@ == Seq::<Answer>::empty(),
    {
        Answers(Vec::new())
    }
}

impl Clone for Answers {
    fn clone(&self) -> (r: Self)
        ensures
            r@ == self@,
    {
        proof {
            use_type_invariant(self);
        }
        let ans = self.0.clone();
        assert(ans@ =~= self.0@);
        Answers(ans)
    }
}

impl core::ops::Deref for Answers {
    type Target = Vec<Answer>;

    fn deref(&self) -> (r: &Vec<Answer>)
        ensures
            r@ == self@,
            r@.len() <= u16::MAX,
    {
        proof {
            use_type_invariant(self);
        }
        &self.0
    }
}

impl TryFrom<Vec<Answer>> for Answers {
    type Error = MessageError;

    /// The list as answers, unless it has more than a 16-bit count can
    /// describe.
    fn try_from(ans: Vec<Answer>) -> (r: Result<Self, MessageError>)
        ensures
            ans@.len() <= u16::MAX ==> r is Ok && r->Ok_0@ == ans@,
            ans@.len() > u16::MAX ==> r == Err::<Self, _>(
                MessageError::TooManyAnswers(ans@.len() as usize),
            ),
    {
        if ans.len() > u16::MAX as usize {
            return Err(MessageError::TooManyAnswers(ans.len()));
        }
        Ok(Answers(ans))
    }
}

/// What `try_from` returns is said in its own `ensures`, over the view of the
/// list.
impl vstd::std_specs::convert::TryFromSpecImpl<Vec<Answer>> for Answers {
    open spec fn obeys_try_from_spec() -> bool {
        false
    }

    open spec fn try_from_spec(ans: Vec<Answer>) -> Result<Self, MessageError> {
        arbitrary()
    }
}

} // verus!
