use vstd::prelude::*;
use vstd::std_specs::convert::FromSpecImpl;

verus! {

/// Transaction identifier, copied verbatim from a query to its response.
#[derive(Clone, Copy, Debug, PartialEq, Eq, Structural)]
pub struct PacketId(pub u16);

/// The `QR` bit: whether a message is a query or a response.
#[derive(Clone, Copy, Debug, PartialEq, Eq, Structural)]
pub enum QueryMode {
    Query,
    Response,
}

impl From<u8> for QueryMode {
    fn from(value: u8) -> (r: Self) {
        if value == 1 {
            Self::Response
        } else {
            Self::Query
        }
    }
}

impl FromSpecImpl<u8> for QueryMode {
    open spec fn obeys_from_spec() -> bool {
        true
    }

    open spec fn from_spec(value: u8) -> Self {
        if value == 1 {
            Self::Response
        } else {
            Self::Query
        }
    }
}

/// A four-bit code. The header carries two of them: the kind of query
/// (`op_code`) and the outcome of processing it (`r_code`). Only the low four
/// bits reach the wire.
#[derive(Clone, Copy, Debug, PartialEq, Eq, Structural, Default)]
pub struct OpCode(pub u8);

impl OpCode {
    /// Response code of a request that was processed.
    pub fn no_error() -> (r: Self)
        ensures
            r == OpCode(0),
    {
        OpCode(0)
    }

    /// Response code of a request whose kind of query is not supported.
    pub fn not_implemented() -> (r: Self)
        ensures
            r == OpCode(4),
    {
        OpCode(4)
    }
}

/// The `AA` bit: whether the responding server owns the queried domain.
#[derive(Clone, Copy, Debug, PartialEq, Eq, Structural)]
pub enum Authoritative {
    Owned,
    Unowned,
}

impl From<u8> for Authoritative {
    fn from(value: u8) -> (r: Self) {
        if value == 1 {
            Self::Owned
        } else {
            Self::Unowned
        }
    }
}

impl FromSpecImpl<u8> for Authoritative {
    open spec fn obeys_from_spec() -> bool {
        true
    }

    open spec fn from_spec(value: u8) -> Self {
        if value == 1 {
            Self::Owned
        } else {
            Self::Unowned
        }
    }
}

/// The `TC` bit: whether the message was cut to fit the transport.
#[derive(Clone, Copy, Debug, PartialEq, Eq, Structural)]
pub enum Truncation {
    Complete,
    Truncated,
}

impl From<u8> for Truncation {
    fn from(value: u8) -> (r: Self) {
        if value == 1 {
            Self::Truncated
        } else {
            Self::Complete
        }
    }
}

impl FromSpecImpl<u8> for Truncation {
    open spec fn obeys_from_spec() -> bool {
        true
    }

    open spec fn from_spec(value: u8) -> Self {
        if value == 1 {
            Self::Truncated
        } else {
            Self::Complete
        }
    }
}

/// The `RD` and `RA` bits: recursion desired by the client, or available at
/// the server.
#[derive(Clone, Copy, Debug, PartialEq, Eq, Structural)]
pub enum Recursion {
    Disabled,
    Enabled,
}

impl From<u8> for Recursion {
    fn from(value: u8) -> (r: Self) {
        if value == 1 {
            Self::Enabled
        } else {
            Self::Disabled
        }
    }
}

impl FromSpecImpl<u8> for Recursion {
    open spec fn obeys_from_spec() -> bool {
        true
    }

    open spec fn from_spec(value: u8) -> Self {
        if value == 1 {
            Self::Enabled
        } else {
            Self::Disabled
        }
    }
}

/// The three reserved header bits: written as zero, ignored when read.
#[derive(Clone, Copy, Debug, PartialEq, Eq, Structural)]
pub struct Reserved;

/// The fixed twelve-byte header of a message.
///
/// `qd_count` and `an_count` describe the question and answer lists of the
/// message that owns the header; a [`Message`](super::Message) keeps them equal
/// to the lengths of its lists.
#[derive(Clone, Copy, Debug)]
pub struct Header {
    pub id: PacketId,
    pub qr: QueryMode,
    pub op_code: OpCode,
    pub aa: Authoritative,
    pub tc: Truncation,
    pub rd: Recursion,
    pub ra: Recursion,
    pub z: Reserved,
    pub r_code: OpCode,
    pub qd_count: u16,
    pub an_count: u16,
    pub ar_count: u16,
    pub ns_count: u16,
}

impl Header {
    /// The header that [`Default::default`] and [`Header::response`] start
    /// from: a response to transaction `id` with every flag cleared, both codes
    /// zero and all four counts zero.
    pub open spec fn spec_response(id: PacketId) -> Header {
        Header {
            id,
            qr: QueryMode::Response,
            op_code: OpCode(0),
            aa: Authoritative::Unowned,
            tc: Truncation::Complete,
            rd: Recursion::Disabled,
            ra: Recursion::Disabled,
            z: Reserved,
            r_code: OpCode(0),
            qd_count: 0,
            an_count: 0,
            ar_count: 0,
            ns_count: 0,
        }
    }

    /// An empty response header for transaction `id`.
    pub fn response(id: PacketId) -> (r: Self)
        ensures
            r == Header::spec_response(id),
    {
        Header {
            id,
            qr: QueryMode::Response,
            op_code: OpCode(0),
            aa: Authoritative::Unowned,
            tc: Truncation::Complete,
            rd: Recursion::Disabled,
            ra: Recursion::Disabled,
            z: Reserved,
            r_code: OpCode(0),
            qd_count: 0,
            an_count: 0,
            ar_count: 0,
            ns_count: 0,
        }
    }
}

impl Default for Header {
    fn default() -> (r: Self)
        ensures
            r == Header::spec_response(PacketId(0)),
    {
        Header::response(PacketId(0))
    }
}

} // verus!
