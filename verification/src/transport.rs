//! The rules at the edge of the transport: which datagrams are taken as
//! queries, and when a send counts as done. The sockets themselves belong to
//! the caller.

use crate::message::header::QueryMode;
use crate::message::{Message, MessageView};
use crate::parser::{decode, spec_decode_as, Names, ParseError};
use vstd::prelude::*;

verus! {

/// The length of the longest datagram that is refused unread: a header and
/// nothing more.
pub const HEADER_LEN: usize = 12;

/// Why a datagram was not taken as a query.
#[derive(Clone, Copy, Debug, PartialEq, Eq, Structural)]
pub enum ReadError {
    /// The datagram has no byte after the header; it had this many.
    TooShort(usize),
    /// The bytes are no message.
    Malformed(ParseError),
    /// The message is a response.
    NotAQuery,
}

/// What [`read_query`] makes of a receive buffer `buf` into which a datagram
/// of `size` bytes came.
pub open spec fn spec_read_query(buf: Seq<u8>, size: usize, names: Names) -> Result<
    MessageView,
    ReadError,
> {
    if size <= HEADER_LEN {
        Err(ReadError::TooShort(size))
    } else {
        match spec_decode_as(buf, names) {
            Ok(m) => if m.header.qr == QueryMode::Query {
                Ok(m)
            } else {
                Err(ReadError::NotAQuery)
            },
            Err(e) => Err(ReadError::Malformed(e)),
        }
    }
}

/// Takes a received datagram as a query. `buf` is the receive buffer and
/// `size` the number of bytes that came. A datagram of twelve bytes or fewer
/// is refused before anything is decoded; then the buffer is decoded from its
/// start, its names read in the given way; a message that decodes and is no
/// query is refused too.
pub fn read_query(buf: &[u8], size: usize, names: Names) -> (r: Result<Message, ReadError>)
    ensures
        r is Ok <==> spec_read_query(buf@, size, names) is Ok,
        r matches Ok(m) ==> spec_read_query(buf@, size, names) == Ok::<_, ReadError>(m@),
        r matches Err(e) ==> spec_read_query(buf@, size, names) == Err::<MessageView, _>(e),
        r matches Err(ReadError::Malformed(e)) ==> e.remaining <= buf@.len(),
{
    if size <= HEADER_LEN {
        return Err(ReadError::TooShort(size));
    }
    match decode(buf, names) {
        Ok(msg) => {
            if msg.is_query() {
                Ok(msg)
            } else {
                Err(ReadError::NotAQuery)
            }
        },
        Err(e) => Err(ReadError::Malformed(e)),
    }
}

/// A send that took fewer bytes than the message has.
#[derive(Clone, Copy, Debug, PartialEq, Eq, Structural)]
pub struct PartialSend {
    pub sent: usize,
    pub len: usize,
}

/// Whether a send is done: the transport must have taken every byte of the
/// message.
pub fn confirm_sent(sent: usize, len: usize) -> (r: Result<(), PartialSend>)
    ensures
        sent == len ==> r is Ok,
        sent != len ==> r == Err::<(), _>(PartialSend { sent, len }),
{
    if sent == len {
        Ok(())
    } else {
        Err(PartialSend { sent, len })
    }
}

} // verus!
