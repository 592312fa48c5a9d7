use super::domain::Domain;
use super::MessageError;
use vstd::prelude::*;

verus! {

/// A list of questions that a 16-bit count can describe.
#[derive(Debug)]
pub struct Questions(Vec<Domain>);

impl Questions {
    #[verifier::type_invariant]
    spec fn counted(&self) -> bool {
        self.0@.len() <= u16::MAX
    }

    /// The questions, in order.
    pub closed spec fn view(&self) -> Seq<Domain> {
        self.0@
    }
}

impl Default for Questions {
    fn default() -> (r: Self)
        ensures
            r@ == Seq::<Domain>::empty(),
    {
        Questions(Vec::new())
    }
}

impl Clone for Questions {
    fn clone(&self) -> (r: Self)
        ensures
            r@ == self@,
    {
        proof {
            use_type_invariant(self);
        }
        let qs = self.0.clone();
        assert(qs@ =~= self.0@);
        Questions(qs)
    }
}

impl core::ops::Deref for Questions {
    type Target = Vec<Domain>;

    fn deref(&self) -> (r: &Vec<Domain>)
        ensures
            r@ == self@,
            r@.len() <= u16::MAX,
    {
        proof {
            use_type_invariant(self);
        }
        &self.0
    }
}

impl TryFrom<Vec<Domain>> for Questions {
    type Error = MessageError;

    /// The list as questions, unless it has more than a 16-bit count can
    /// describe.
    fn try_from(qs: Vec<Domain>) -> (r: Result<Self, MessageError>)
        ensures
            qs@.len() <= u16::MAX ==> r is Ok && r->Ok_0@ == qs@,
            qs@.len() > u16::MAX ==> r == Err::<Self, _>(
                MessageError::TooManyQuestions(qs@.len() as usize),
            ),
    {
        if qs.len() > u16::MAX as usize {
            return Err(MessageError::TooManyQuestions(qs.len()));
        }
        Ok(Questions(qs))
    }
}

/// What `try_from` returns is said in its own `ensures`, over the view of the
/// list.
impl vstd::std_specs::convert::TryFromSpecImpl<Vec<Domain>> for Questions {
    open spec fn obeys_try_from_spec() -> bool {
        false
    }

    open spec fn try_from_spec(qs: Vec<Domain>) -> Result<Self, MessageError> {
        arbitrary()
    }
}

} // verus!
