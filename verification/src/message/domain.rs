use vstd::prelude::*;
use vstd::std_specs::convert::TryFromSpecImpl;

verus! {

/// The type of a resource record. Only address records are supported.
#[derive(Clone, Copy, Debug, PartialEq, Eq, Structural)]
pub enum Record {
    AA,
}

/// A number that names no supported record type.
#[derive(Clone, Copy, Debug, PartialEq, Eq, Structural)]
pub struct NotARecord(pub u16);

impl Record {
    /// The number that stands for this record type on the wire.
    pub open spec fn spec_code(self) -> u16 {
        1
    }

    /// The number that stands for this record type on the wire.
    pub fn code(self) -> (r: u16)
        ensures
            r == self.spec_code(),
    {
        match self {
            Record::AA => 1,
        }
    }
}

impl TryFrom<u16> for Record {
    type Error = NotARecord;

    fn try_from(value: u16) -> (r: Result<Self, NotARecord>) {
        if value == 1 {
            Ok(Record::AA)
        } else {
            Err(NotARecord(value))
        }
    }
}

impl TryFromSpecImpl<u16> for Record {
    open spec fn obeys_try_from_spec() -> bool {
        true
    }

    open spec fn try_from_spec(value: u16) -> Result<Self, NotARecord> {
        if value == 1 {
            Ok(Record::AA)
        } else {
            Err(NotARecord(value))
        }
    }
}

/// The class of a resource record. Only the Internet class is supported.
#[derive(Clone, Copy, Debug, PartialEq, Eq, Structural)]
pub enum Class {
    IN,
}

/// A number that names no supported class.
#[derive(Clone, Copy, Debug, PartialEq, Eq, Structural)]
pub struct NotAClass(pub u16);

impl Class {
    /// The number that stands for this class on the wire.
    pub open spec fn spec_code(self) -> u16 {
        1
    }

    /// The number that stands for this class on the wire.
    pub fn code(self) -> (r: u16)
        ensures
            r == self.spec_code(),
    {
        match self {
            Class::IN => 1,
        }
    }
}

impl TryFrom<u16> for Class {
    type Error = NotAClass;

    fn try_from(value: u16) -> (r: Result<Self, NotAClass>) {
        if value == 1 {
            Ok(Class::IN)
        } else {
            Err(NotAClass(value))
        }
    }
}

impl TryFromSpecImpl<u16> for Class {
    open spec fn obeys_try_from_spec() -> bool {
        true
    }

    open spec fn try_from_spec(value: u16) -> Result<Self, NotAClass> {
        if value == 1 {
            Ok(Class::IN)
        } else {
            Err(NotAClass(value))
        }
    }
}

/// A domain name with the record type and class asked for: the content of a
/// question, and the owner of an answer.
#[derive(Debug, PartialEq)]
pub struct Domain {
    pub name: String,
    pub record: Record,
    pub class: Class,
}

/// What a [`Domain`] holds, with the name as its sequence of characters.
pub struct DomainView {
    pub name: Seq<char>,
    pub record: Record,
    pub class: Class,
}

impl View for Domain {
    type V = DomainView;

    open spec fn view(&self) -> DomainView {
        DomainView { name: self.name@, record: self.record, class: self.class }
    }
}

impl Clone for Domain {
    fn clone(&self) -> (r: Self)
        ensures
            r == *self,
    {
        Domain { name: self.name.clone(), record: self.record, class: self.class }
    }
}

impl Domain {
    /// The address record of class Internet for `name`.
    pub fn new_aa(name: &str) -> (r: Self)
        ensures
            r@ == (DomainView { name: name@, record: Record::AA, class: Class::IN }),
    {
        Domain { name: name.to_owned(), record: Record::AA, class: Class::IN }
    }
}

/// The views of a list of domains, in order.
pub open spec fn domain_views(s: Seq<Domain>) -> Seq<DomainView> {
    s.map_values(|d: Domain| d@)
}

} // verus!
