//! Decoding: from the bytes of a message to a [`Message`].
//!
//! Every reader takes the input that is left and gives back the input after
//! the item it read. The `spec_` functions say what each reader returns; they
//! are the definition of the wire format as it is read.

use crate::input::{be_u16, be_u32, be_u8, from_utf8, spec_u16, spec_u32, take};
use crate::message::data::{Data, Ipv4Addr};
use crate::message::domain::{
    domain_views, Class, Domain, DomainView, NotAClass, NotARecord, Record,
};
use crate::message::header::{
    Authoritative, Header, OpCode, PacketId, QueryMode, Recursion, Reserved, Truncation,
};
use crate::message::route::{route_views, Route, RouteView};
use crate::message::{Message, MessageView};
use crate::offsets::lemma_message_bounded;
use vstd::pervasive::unreached;
use vstd::prelude::*;
use vstd::slice::slice_subrange;
use vstd::std_specs::convert::{FromSpec, TryFromSpec};
use vstd::utf8::{
    decode_utf8, encode_utf8, encode_utf8_decode_utf8, encode_utf8_valid_utf8, valid_utf8,
    valid_utf8_concat,
};

verus! {

/// What was wrong with the input.
#[derive(Clone, Copy, Debug, PartialEq, Eq, Structural)]
pub enum ParseErrorKind {
    /// The input ended inside an item.
    Truncated,
    /// The bytes of a label are not UTF-8.
    InvalidLabel,
    /// A compression pointer leads outside the message.
    PointerOutOfRange(u16),
    /// A name runs through more compression pointers than its message has
    /// bytes: the pointers run in a loop.
    PointerLoop,
    /// The number read as a record type names none.
    NotARecord(u16),
    /// The number read as a class names none.
    NotAClass(u16),
    /// The length of an answer's data is not the length of its record type.
    DataLength(u16),
}

/// A decode failure: what was wrong, and how many bytes of input were left
/// where the item that failed begins. In a message, its length less
/// `remaining` is the offset of that item.
#[derive(Clone, Copy, Debug, PartialEq, Eq, Structural)]
pub struct ParseError {
    pub kind: ParseErrorKind,
    pub remaining: usize,
}

impl ParseError {
    /// The offset of the item that failed in a message of `len` bytes, where
    /// the failure lies in such a message.
    pub fn offset(&self, len: usize) -> (r: Option<usize>)
        ensures
            self.remaining <= len ==> r == Some((len - self.remaining) as usize),
            self.remaining > len ==> r is None,
    {
        if self.remaining <= len {
            Some(len - self.remaining)
        } else {
            None
        }
    }
}

/// What a reader returns in specifications: the input after the item and the
/// item, or the failure.
pub type Parsed<T> = Result<(Seq<u8>, T), ParseError>;

/// The failure of kind `kind` on an item that begins at input `i`.
pub open spec fn failure(kind: ParseErrorKind, i: Seq<u8>) -> ParseError {
    ParseError { kind, remaining: i.len() as usize }
}

/// Reads a big-endian 16-bit number.
pub open spec fn spec_take_u16(i: Seq<u8>) -> Parsed<u16> {
    if i.len() < 2 {
        Err(failure(ParseErrorKind::Truncated, i))
    } else {
        Ok((i.skip(2), spec_u16(i[0], i[1])))
    }
}

/// Reads a transaction identifier.
pub open spec fn spec_take_packet_id(i: Seq<u8>) -> Parsed<PacketId> {
    match spec_take_u16(i) {
        Ok((rest, v)) => Ok((rest, PacketId(v))),
        Err(e) => Err(e),
    }
}

/// Bit `k` of a flag byte, counted from the least significant.
pub open spec fn spec_bit(byte: u8, k: u8) -> u8 {
    (byte >> k) & 1
}

/// The header that the six 16-bit groups of the wire form stand for. The flag
/// group is given as its two bytes: `hi` holds, from the most significant bit
/// down, the query/response bit, the four bits of the kind of query, and the
/// authoritative, truncated and recursion-desired bits; `lo` holds the
/// recursion-available bit, three reserved bits, which are ignored, and the
/// four bits of the response code. The counts come in wire order: questions,
/// answers, additional records, name servers.
pub open spec fn spec_header(
    id: u16,
    hi: u8,
    lo: u8,
    qd_count: u16,
    an_count: u16,
    ar_count: u16,
    ns_count: u16,
) -> Header {
    Header {
        id: PacketId(id),
        qr: QueryMode::from_spec(spec_bit(hi, 7)),
        op_code: OpCode((hi >> 3) & 0x0f),
        aa: Authoritative::from_spec(spec_bit(hi, 2)),
        tc: Truncation::from_spec(spec_bit(hi, 1)),
        rd: Recursion::from_spec(spec_bit(hi, 0)),
        ra: Recursion::from_spec(spec_bit(lo, 7)),
        z: Reserved,
        r_code: OpCode(lo & 0x0f),
        qd_count,
        an_count,
        ar_count,
        ns_count,
    }
}

/// Reads the twelve-byte header.
pub open spec fn spec_parse_header(i: Seq<u8>) -> Parsed<Header> {
    if i.len() < 12 {
        Err(failure(ParseErrorKind::Truncated, i))
    } else {
        Ok(
            (
                i.skip(12),
                spec_header(
                    spec_u16(i[0], i[1]),
                    i[2],
                    i[3],
                    spec_u16(i[4], i[5]),
                    spec_u16(i[6], i[7]),
                    spec_u16(i[8], i[9]),
                    spec_u16(i[10], i[11]),
                ),
            ),
        )
    }
}

/// Reads a transaction identifier: a big-endian 16-bit number.
pub fn take_packet_id<'a>(i: &'a [u8]) -> (r: Result<(&'a [u8], PacketId), ParseError>)
    ensures
        r is Ok <==> spec_take_packet_id(i@) is Ok,
        r matches Ok((rest, id)) ==> spec_take_packet_id(i@) == Ok::<_, ParseError>((rest@, id)),
        r matches Err(e) ==> spec_take_packet_id(i@) == Err::<(Seq<u8>, PacketId), _>(e),
{
    match be_u16(i) {
        Some((rest, v)) => Ok((rest, PacketId(v))),
        None => Err(ParseError { kind: ParseErrorKind::Truncated, remaining: i.len() }),
    }
}

fn take_bit(byte: u8, k: u8) -> (r: u8)
    requires
        k < 8,
    ensures
        r == spec_bit(byte, k),
{
    (byte >> k) & 1
}

/// Reads the twelve-byte header: the identifier, the two flag bytes and the
/// four counts.
pub fn parse_header<'a>(i: &'a [u8]) -> (r: Result<(&'a [u8], Header), ParseError>)
    ensures
        r is Ok <==> spec_parse_header(i@) is Ok,
        r matches Ok((rest, h)) ==> spec_parse_header(i@) == Ok::<_, ParseError>((rest@, h)),
        r matches Err(e) ==> spec_parse_header(i@) == Err::<(Seq<u8>, Header), _>(e),
{
    let truncated = ParseError { kind: ParseErrorKind::Truncated, remaining: i.len() };
    let Some((j, id)) = be_u16(i) else {
        return Err(truncated);
    };
    let Some((j, hi)) = be_u8(j) else {
        return Err(truncated);
    };
    let Some((j, lo)) = be_u8(j) else {
        return Err(truncated);
    };
    let Some((j, qd_count)) = be_u16(j) else {
        return Err(truncated);
    };
    let Some((j, an_count)) = be_u16(j) else {
        return Err(truncated);
    };
    let Some((j, ar_count)) = be_u16(j) else {
        return Err(truncated);
    };
    let Some((j, ns_count)) = be_u16(j) else {
        return Err(truncated);
    };
    assert(j@ =~= i@.skip(12));
    let header = Header {
        id: PacketId(id),
        qr: QueryMode::from(take_bit(hi, 7)),
        op_code: OpCode((hi >> 3) & 0x0f),
        aa: Authoritative::from(take_bit(hi, 2)),
        tc: Truncation::from(take_bit(hi, 1)),
        rd: Recursion::from(take_bit(hi, 0)),
        ra: Recursion::from(take_bit(lo, 7)),
        z: Reserved,
        r_code: OpCode(lo & 0x0f),
        qd_count,
        an_count,
        ar_count,
        ns_count,
    };
    Ok((j, header))
}

/// The first byte of a compression pointer has its two highest bits set.
pub open spec fn is_pointer(b: u8) -> bool {
    b >= 0xc0
}

/// The offset that a compression pointer with bytes `b0`, `b1` names: the low
/// fourteen bits of the two bytes.
pub open spec fn pointer_target(b0: u8, b1: u8) -> int {
    spec_u16(b0, b1) - 0xc000
}

/// Reads the labels of a name from input `i` of a message `buf`, following at
/// most `hops` compression pointers.
///
/// At each position: a zero byte ends the name. A byte with its two highest
/// bits set begins a two-byte pointer; the rest of the name is what stands at
/// the offset it names, counted from the start of `buf`, and the input goes on
/// after the pointer. Any other byte is the length of a label, whose bytes
/// follow and must be UTF-8.
pub open spec fn spec_collect(i: Seq<u8>, buf: Seq<u8>, hops: nat) -> Parsed<Seq<Seq<u8>>>
    decreases hops, i.len(),
{
    if i.len() == 0 {
        Err(failure(ParseErrorKind::Truncated, i))
    } else if i[0] == 0 {
        Ok((i.skip(1), Seq::empty()))
    } else if is_pointer(i[0]) {
        if i.len() < 2 {
            Err(failure(ParseErrorKind::Truncated, i))
        } else if pointer_target(i[0], i[1]) >= buf.len() {
            Err(failure(ParseErrorKind::PointerOutOfRange(pointer_target(i[0], i[1]) as u16), i))
        } else if hops == 0 {
            Err(failure(ParseErrorKind::PointerLoop, i))
        } else {
            match spec_collect(buf.skip(pointer_target(i[0], i[1])), buf, (hops - 1) as nat) {
                Ok((_, labels)) => Ok((i.skip(2), labels)),
                Err(e) => Err(e),
            }
        }
    } else if i.len() < 1 + i[0] {
        Err(failure(ParseErrorKind::Truncated, i.skip(1)))
    } else if !valid_utf8(i.subrange(1, 1 + i[0])) {
        Err(failure(ParseErrorKind::InvalidLabel, i.skip(1)))
    } else {
        match spec_collect(i.skip(1 + i[0]), buf, hops) {
            Ok((rest, labels)) => Ok((rest, seq![i.subrange(1, 1 + i[0])] + labels)),
            Err(e) => Err(e),
        }
    }
}

/// The UTF-8 bytes of each string of a list.
pub open spec fn label_bytes(labels: Seq<String>) -> Seq<Seq<u8>> {
    labels.map_values(|l: String| encode_utf8(l@))
}

/// What is still to be read of a name, seen from the middle of reading it:
/// `done` are the labels read so far, `after` is the input after the first
/// pointer if one was followed, and `tail` is the reading of what is left.
spec fn resumed(done: Seq<Seq<u8>>, after: Option<Seq<u8>>, tail: Parsed<Seq<Seq<u8>>>) -> Parsed<
    Seq<Seq<u8>>,
> {
    match tail {
        Ok((rest, labels)) => Ok(
            (
                match after {
                    Some(a) => a,
                    None => rest,
                },
                done + labels,
            ),
        ),
        Err(e) => Err(e),
    }
}

/// Reads the labels of a name. Pointers are followed within `buf`, at most one
/// for each of its bytes: a name that needs more runs in a loop, and no other
/// name is refused for its pointers (see [`crate::hops`]).
pub fn collect_domain_name<'a>(i: &'a [u8], buf: &'a [u8]) -> (r: Result<
    (&'a [u8], Vec<String>),
    ParseError,
>)
    ensures
        r is Ok <==> spec_collect(i@, buf@, buf@.len()) is Ok,
        r matches Ok((rest, labels)) ==> spec_collect(i@, buf@, buf@.len()) == Ok::<_, ParseError>(
            (rest@, label_bytes(labels@)),
        ),
        r matches Err(e) ==> spec_collect(i@, buf@, buf@.len()) == Err::<
            (Seq<u8>, Seq<Seq<u8>>),
            _,
        >(e),
{
    let ghost goal = spec_collect(i@, buf@, buf@.len());
    let mut labels: Vec<String> = Vec::new();
    let mut after: Option<&'a [u8]> = None;
    let mut hops: usize = buf.len();
    let mut cur: &'a [u8] = i;
    assert(label_bytes(labels@) =~= Seq::<Seq<u8>>::empty());
    loop
        invariant
            goal == spec_collect(i@, buf@, buf@.len()),
            goal == resumed(
                label_bytes(labels@),
                match after {
                    Some(a) => Some(a@),
                    None => None,
                },
                spec_collect(cur@, buf@, hops as nat),
            ),
        decreases hops, cur@.len(),
    {
        let ghost done = label_bytes(labels@);
        let Some((body, first)) = be_u8(cur) else {
            return Err(ParseError { kind: ParseErrorKind::Truncated, remaining: cur.len() });
        };
        if first == 0 {
            assert(done + Seq::<Seq<u8>>::empty() =~= done);
            return Ok(
                (
                    match after {
                        Some(a) => a,
                        None => body,
                    },
                    labels,
                ),
            );
        }
        if first >= 0xc0 {
            let Some((rest, word)) = be_u16(cur) else {
                return Err(ParseError { kind: ParseErrorKind::Truncated, remaining: cur.len() });
            };
            let target: u16 = word - 0xc000;
            if target as usize >= buf.len() {
                return Err(
                    ParseError {
                        kind: ParseErrorKind::PointerOutOfRange(target),
                        remaining: cur.len(),
                    },
                );
            }
            if hops == 0 {
                return Err(ParseError { kind: ParseErrorKind::PointerLoop, remaining: cur.len() });
            }
            if after.is_none() {
                after = Some(rest);
            }
            hops = hops - 1;
            cur = slice_subrange(buf, target as usize, buf.len());
        } else {
            let Some((rest, bytes)) = take(body, first as usize) else {
                return Err(ParseError { kind: ParseErrorKind::Truncated, remaining: body.len() });
            };
            assert(bytes@ =~= cur@.subrange(1, 1 + first));
            assert(rest@ =~= cur@.skip(1 + first));
            let Some(label) = from_utf8(bytes) else {
                return Err(
                    ParseError { kind: ParseErrorKind::InvalidLabel, remaining: body.len() },
                );
            };
            labels.push(label.to_owned());
            proof {
                assert(label_bytes(labels@) =~= done.push(bytes@));
                let tail = spec_collect(rest@, buf@, hops as nat);
                if let Ok((_, more)) = tail {
                    assert(done.push(bytes@) + more =~= done + (seq![bytes@] + more));
                }
            }
            cur = rest;
        }
    }
}

/// The labels joined by dots (the byte `0x2e`).
pub open spec fn dotted(labels: Seq<Seq<u8>>) -> Seq<u8>
    decreases labels.len(),
{
    if labels.len() == 0 {
        Seq::empty()
    } else if labels.len() == 1 {
        labels[0]
    } else {
        labels[0] + seq![0x2eu8] + dotted(labels.drop_first())
    }
}

/// Reads a name: its labels, joined by dots and taken as UTF-8. Each label
/// being UTF-8, this is to take each as UTF-8 and to join them by dots (see
/// [`crate::dots`]).
pub open spec fn spec_parse_domain_name(i: Seq<u8>, buf: Seq<u8>) -> Parsed<Seq<char>> {
    match spec_collect(i, buf, buf.len()) {
        Ok((rest, labels)) => Ok((rest, decode_utf8(dotted(labels)))),
        Err(e) => Err(e),
    }
}

/// Joining one more label to a list that was joined before.
proof fn lemma_dotted_push(labels: Seq<Seq<u8>>, last: Seq<u8>)
    ensures
        dotted(labels.push(last)) == if labels.len() == 0 {
            last
        } else {
            dotted(labels) + seq![0x2eu8] + last
        },
    decreases labels.len(),
{
    if labels.len() > 0 {
        assert(labels.push(last).drop_first() =~= labels.drop_first().push(last));
        lemma_dotted_push(labels.drop_first(), last);
        assert(dotted(labels.push(last)) =~= dotted(labels) + seq![0x2eu8] + last);
    }
}

/// A dot is UTF-8 by itself.
proof fn lemma_dot_valid()
    ensures
        valid_utf8(seq![0x2eu8]),
{
    let dot = seq![0x2eu8];
    reveal_with_fuel(valid_utf8, 2);
    assert(vstd::utf8::pop_first_scalar(dot).len() == 0);
}

fn join(labels: &Vec<String>) -> (r: String)
    ensures
        r@ == decode_utf8(dotted(label_bytes(labels@))),
{
    let ghost parts = label_bytes(labels@);
    let mut bytes: Vec<u8> = Vec::new();
    let mut k: usize = 0;
    while k < labels.len()
        invariant
            k <= labels@.len(),
            parts == label_bytes(labels@),
            bytes@ == dotted(parts.take(k as int)),
            valid_utf8(bytes@),
        decreases labels@.len() - k,
    {
        let part = labels[k].as_str().as_bytes();
        proof {
            assert(part@ == parts[k as int]);
            assert(parts.take(k + 1) =~= parts.take(k as int).push(part@));
            lemma_dotted_push(parts.take(k as int), part@);
            encode_utf8_valid_utf8(labels@[k as int]@);
            lemma_dot_valid();
            valid_utf8_concat(bytes@, seq![0x2eu8]);
            valid_utf8_concat(bytes@ + seq![0x2eu8], part@);
        }
        let ghost joined = bytes@;
        if k > 0 {
            bytes.push(0x2e);
        }
        let ghost before = bytes@;
        bytes.extend_from_slice(part);
        assert(bytes@ =~= before + part@);
        assert(k == 0 ==> bytes@ =~= part@);
        assert(k > 0 ==> before =~= joined + seq![0x2eu8]);
        k = k + 1;
    }
    assert(parts.take(k as int) =~= parts);
    match from_utf8(bytes.as_slice()) {
        Some(name) => {
            proof {
                encode_utf8_decode_utf8(name@);
            }
            name.to_owned()
        },
        None => unreached(),
    }
}

/// Reads a name: its labels joined by dots.
pub fn parse_domain_name<'a>(i: &'a [u8], buf: &'a [u8]) -> (r: Result<
    (&'a [u8], String),
    ParseError,
>)
    ensures
        r is Ok <==> spec_parse_domain_name(i@, buf@) is Ok,
        r matches Ok((rest, name)) ==> spec_parse_domain_name(i@, buf@) == Ok::<_, ParseError>(
            (rest@, name@),
        ),
        r matches Err(e) ==> spec_parse_domain_name(i@, buf@) == Err::<(Seq<u8>, Seq<char>), _>(e),
{
    match collect_domain_name(i, buf) {
        Ok((rest, labels)) => {
            let name = join(&labels);
            Ok((rest, name))
        },
        Err(e) => Err(e),
    }
}

/// Reads a record type: a 16-bit number that must name one.
pub open spec fn spec_parse_record(i: Seq<u8>) -> Parsed<Record> {
    match spec_take_u16(i) {
        Ok((rest, v)) => match Record::try_from_spec(v) {
            Ok(record) => Ok((rest, record)),
            Err(NotARecord(n)) => Err(failure(ParseErrorKind::NotARecord(n), i)),
        },
        Err(e) => Err(e),
    }
}

/// Reads a class: a 16-bit number that must name one.
pub open spec fn spec_parse_class(i: Seq<u8>) -> Parsed<Class> {
    match spec_take_u16(i) {
        Ok((rest, v)) => match Class::try_from_spec(v) {
            Ok(class) => Ok((rest, class)),
            Err(NotAClass(n)) => Err(failure(ParseErrorKind::NotAClass(n), i)),
        },
        Err(e) => Err(e),
    }
}

/// Reads a name with the record type and class that follow it.
pub open spec fn spec_parse_domain(i: Seq<u8>, buf: Seq<u8>) -> Parsed<DomainView> {
    match spec_parse_domain_name(i, buf) {
        Ok((i1, name)) => match spec_parse_record(i1) {
            Ok((i2, record)) => match spec_parse_class(i2) {
                Ok((i3, class)) => Ok((i3, DomainView { name, record, class })),
                Err(e) => Err(e),
            },
            Err(e) => Err(e),
        },
        Err(e) => Err(e),
    }
}

/// Reads a record type.
pub fn parse_record<'a>(i: &'a [u8]) -> (r: Result<(&'a [u8], Record), ParseError>)
    ensures
        r is Ok <==> spec_parse_record(i@) is Ok,
        r matches Ok((rest, v)) ==> spec_parse_record(i@) == Ok::<_, ParseError>((rest@, v)),
        r matches Err(e) ==> spec_parse_record(i@) == Err::<(Seq<u8>, Record), _>(e),
{
    let Some((rest, v)) = be_u16(i) else {
        return Err(ParseError { kind: ParseErrorKind::Truncated, remaining: i.len() });
    };
    match Record::try_from(v) {
        Ok(record) => Ok((rest, record)),
        Err(NotARecord(n)) => Err(
            ParseError { kind: ParseErrorKind::NotARecord(n), remaining: i.len() },
        ),
    }
}

/// Reads a class.
pub fn parse_class<'a>(i: &'a [u8]) -> (r: Result<(&'a [u8], Class), ParseError>)
    ensures
        r is Ok <==> spec_parse_class(i@) is Ok,
        r matches Ok((rest, v)) ==> spec_parse_class(i@) == Ok::<_, ParseError>((rest@, v)),
        r matches Err(e) ==> spec_parse_class(i@) == Err::<(Seq<u8>, Class), _>(e),
{
    let Some((rest, v)) = be_u16(i) else {
        return Err(ParseError { kind: ParseErrorKind::Truncated, remaining: i.len() });
    };
    match Class::try_from(v) {
        Ok(class) => Ok((rest, class)),
        Err(NotAClass(n)) => Err(
            ParseError { kind: ParseErrorKind::NotAClass(n), remaining: i.len() },
        ),
    }
}

/// Reads a name with the record type and class that follow it. Pointers in
/// the name are followed within `buf`.
pub fn parse_domain<'a>(i: &'a [u8], buf: &'a [u8]) -> (r: Result<(&'a [u8], Domain), ParseError>)
    ensures
        r is Ok <==> spec_parse_domain(i@, buf@) is Ok,
        r matches Ok((rest, d)) ==> spec_parse_domain(i@, buf@) == Ok::<_, ParseError>(
            (rest@, d@),
        ),
        r matches Err(e) ==> spec_parse_domain(i@, buf@) == Err::<(Seq<u8>, DomainView), _>(e),
{
    let (i, name) = match parse_domain_name(i, buf) {
        Ok(found) => found,
        Err(e) => {
            return Err(e);
        },
    };
    let (i, record) = match parse_record(i) {
        Ok(found) => found,
        Err(e) => {
            return Err(e);
        },
    };
    let (i, class) = match parse_class(i) {
        Ok(found) => found,
        Err(e) => {
            return Err(e);
        },
    };
    Ok((i, Domain { name, record, class }))
}

/// A list of items read one after the other, seen from the middle of reading
/// it: `done` are the items read so far, `tail` is the reading of the others.
pub open spec fn continued<T>(done: Seq<T>, tail: Parsed<Seq<T>>) -> Parsed<Seq<T>> {
    match tail {
        Ok((rest, items)) => Ok((rest, done + items)),
        Err(e) => Err(e),
    }
}

/// Reads `count` questions, one after the other.
pub open spec fn spec_parse_questions(i: Seq<u8>, count: nat, buf: Seq<u8>) -> Parsed<
    Seq<DomainView>,
>
    decreases count,
{
    if count == 0 {
        Ok((i, Seq::empty()))
    } else {
        match spec_parse_domain(i, buf) {
            Ok((rest, d)) => continued(
                seq![d],
                spec_parse_questions(rest, (count - 1) as nat, buf),
            ),
            Err(e) => Err(e),
        }
    }
}

/// Reads a big-endian 32-bit number.
pub open spec fn spec_take_u32(i: Seq<u8>) -> Parsed<u32> {
    if i.len() < 4 {
        Err(failure(ParseErrorKind::Truncated, i))
    } else {
        Ok((i.skip(4), spec_u32(i[0], i[1], i[2], i[3])))
    }
}

/// Reads the data of an answer: a 16-bit length, which must be four, and the
/// four octets of an address.
pub open spec fn spec_parse_data(i: Seq<u8>) -> Parsed<Data> {
    match spec_take_u16(i) {
        Ok((rest, len)) => if len != 4 {
            Err(failure(ParseErrorKind::DataLength(len), i))
        } else if rest.len() < 4 {
            Err(failure(ParseErrorKind::Truncated, rest))
        } else {
            Ok((rest.skip(4), Data::Ipv4(Ipv4Addr::spec_new(rest[0], rest[1], rest[2], rest[3]))))
        },
        Err(e) => Err(e),
    }
}

/// Reads an answer: name, record type and class, then the time to live, then
/// the data.
pub open spec fn spec_parse_route(i: Seq<u8>, buf: Seq<u8>) -> Parsed<RouteView> {
    match spec_parse_domain(i, buf) {
        Ok((i1, domain)) => match spec_take_u32(i1) {
            Ok((i2, ttl)) => match spec_parse_data(i2) {
                Ok((i3, data)) => Ok((i3, RouteView { domain, ttl, data })),
                Err(e) => Err(e),
            },
            Err(e) => Err(e),
        },
        Err(e) => Err(e),
    }
}

/// Reads `count` answers, one after the other.
pub open spec fn spec_parse_answers(i: Seq<u8>, count: nat, buf: Seq<u8>) -> Parsed<
    Seq<RouteView>,
>
    decreases count,
{
    if count == 0 {
        Ok((i, Seq::empty()))
    } else {
        match spec_parse_route(i, buf) {
            Ok((rest, a)) => continued(seq![a], spec_parse_answers(rest, (count - 1) as nat, buf)),
            Err(e) => Err(e),
        }
    }
}

/// How the names of a message are read.
#[derive(Clone, Copy, Debug, PartialEq, Eq, Structural)]
pub enum Names {
    /// Compression pointers are followed within the message.
    Compressed,
    /// The simple way: names are spelled out, and a name that holds a pointer
    /// is a failure, as a pointer that leads outside the message is.
    Plain,
}

/// What the pointers of a message `buf` are followed in: the message, or
/// nothing where names are read the simple way.
pub open spec fn pointer_base(buf: Seq<u8>, names: Names) -> Seq<u8> {
    match names {
        Names::Compressed => buf,
        Names::Plain => Seq::empty(),
    }
}

/// Reads a message whose names point into `base`: the header, then as many
/// questions and as many answers as the header counts.
pub open spec fn spec_parse_message_in(buf: Seq<u8>, base: Seq<u8>) -> Parsed<MessageView> {
    match spec_parse_header(buf) {
        Ok((i1, header)) => match spec_parse_questions(i1, header.qd_count as nat, base) {
            Ok((i2, questions)) => match spec_parse_answers(i2, header.an_count as nat, base) {
                Ok((i3, answers)) => Ok((i3, MessageView { header, questions, answers })),
                Err(e) => Err(e),
            },
            Err(e) => Err(e),
        },
        Err(e) => Err(e),
    }
}

/// Reads a message; the pointers in its names are followed within it.
pub open spec fn spec_parse_message(buf: Seq<u8>) -> Parsed<MessageView> {
    spec_parse_message_in(buf, buf)
}

/// Reads `c` questions. Pointers in their names are followed within `buf`.
pub fn parse_questions<'a>(i: &'a [u8], c: u16, buf: &'a [u8]) -> (r: Result<
    (&'a [u8], Vec<Domain>),
    ParseError,
>)
    ensures
        r is Ok <==> spec_parse_questions(i@, c as nat, buf@) is Ok,
        r matches Ok((rest, qs)) ==> qs@.len() == c && spec_parse_questions(i@, c as nat, buf@)
            == Ok::<_, ParseError>((rest@, domain_views(qs@))),
        r matches Err(e) ==> spec_parse_questions(i@, c as nat, buf@) == Err::<
            (Seq<u8>, Seq<DomainView>),
            _,
        >(e),
{
    let ghost goal = spec_parse_questions(i@, c as nat, buf@);
    let mut qs: Vec<Domain> = Vec::new();
    let mut cur: &'a [u8] = i;
    let mut k: u16 = 0;
    assert(domain_views(qs@) =~= Seq::empty());
    while k < c
        invariant
            k <= c,
            qs@.len() == k,
            goal == spec_parse_questions(i@, c as nat, buf@),
            goal == continued(
                domain_views(qs@),
                spec_parse_questions(cur@, (c - k) as nat, buf@),
            ),
        decreases c - k,
    {
        let ghost done = domain_views(qs@);
        let (rest, q) = match parse_domain(cur, buf) {
            Ok(found) => found,
            Err(e) => {
                return Err(e);
            },
        };
        qs.push(q);
        proof {
            assert(domain_views(qs@) =~= done.push(q@));
            if let Ok((_, more)) = spec_parse_questions(rest@, (c - k - 1) as nat, buf@) {
                assert(done.push(q@) + more =~= done + (seq![q@] + more));
            }
        }
        cur = rest;
        k = k + 1;
    }
    assert(domain_views(qs@) + Seq::<DomainView>::empty() =~= domain_views(qs@));
    Ok((cur, qs))
}

/// Reads the data of an answer.
pub fn parse_data<'a>(i: &'a [u8]) -> (r: Result<(&'a [u8], Data), ParseError>)
    ensures
        r is Ok <==> spec_parse_data(i@) is Ok,
        r matches Ok((rest, v)) ==> spec_parse_data(i@) == Ok::<_, ParseError>((rest@, v)),
        r matches Err(e) ==> spec_parse_data(i@) == Err::<(Seq<u8>, Data), _>(e),
{
    let Some((body, len)) = be_u16(i) else {
        return Err(ParseError { kind: ParseErrorKind::Truncated, remaining: i.len() });
    };
    if len != 4 {
        return Err(ParseError { kind: ParseErrorKind::DataLength(len), remaining: i.len() });
    }
    let Some((rest, ip)) = take(body, len as usize) else {
        return Err(ParseError { kind: ParseErrorKind::Truncated, remaining: body.len() });
    };
    let ip = Ipv4Addr::new(ip[0], ip[1], ip[2], ip[3]);
    Ok((rest, Data::Ipv4(ip)))
}

/// Reads `c` answers. Pointers in their names are followed within `buf`.
pub fn parse_answers<'a>(i: &'a [u8], c: u16, buf: &'a [u8]) -> (r: Result<
    (&'a [u8], Vec<Route>),
    ParseError,
>)
    ensures
        r is Ok <==> spec_parse_answers(i@, c as nat, buf@) is Ok,
        r matches Ok((rest, ans)) ==> ans@.len() == c && spec_parse_answers(i@, c as nat, buf@)
            == Ok::<_, ParseError>((rest@, route_views(ans@))),
        r matches Err(e) ==> spec_parse_answers(i@, c as nat, buf@) == Err::<
            (Seq<u8>, Seq<RouteView>),
            _,
        >(e),
{
    let ghost goal = spec_parse_answers(i@, c as nat, buf@);
    let mut ans: Vec<Route> = Vec::new();
    let mut cur: &'a [u8] = i;
    let mut k: u16 = 0;
    assert(route_views(ans@) =~= Seq::empty());
    while k < c
        invariant
            k <= c,
            ans@.len() == k,
            goal == spec_parse_answers(i@, c as nat, buf@),
            goal == continued(route_views(ans@), spec_parse_answers(cur@, (c - k) as nat, buf@)),
        decreases c - k,
    {
        let ghost done = route_views(ans@);
        let (rest, domain) = match parse_domain(cur, buf) {
            Ok(found) => found,
            Err(e) => {
                return Err(e);
            },
        };
        let Some((rest, ttl)) = be_u32(rest) else {
            return Err(ParseError { kind: ParseErrorKind::Truncated, remaining: rest.len() });
        };
        let (rest, data) = match parse_data(rest) {
            Ok(found) => found,
            Err(e) => {
                return Err(e);
            },
        };
        let route = Route::new(domain, ttl, data);
        ans.push(route);
        proof {
            let a = ans@[k as int]@;
            assert(route_views(ans@) =~= done.push(a));
            if let Ok((_, more)) = spec_parse_answers(rest@, (c - k - 1) as nat, buf@) {
                assert(done.push(a) + more =~= done + (seq![a] + more));
            }
        }
        cur = rest;
        k = k + 1;
    }
    assert(route_views(ans@) + Seq::<RouteView>::empty() =~= route_views(ans@));
    Ok((cur, ans))
}

/// Questions that are read are as many as were asked for.
pub proof fn lemma_questions_count(i: Seq<u8>, count: nat, base: Seq<u8>)
    ensures
        spec_parse_questions(i, count, base) matches Ok((_, qs)) ==> qs.len() == count,
    decreases count,
{
    if count > 0 {
        if let Ok((rest, _)) = spec_parse_domain(i, base) {
            lemma_questions_count(rest, (count - 1) as nat, base);
        }
    }
}

/// Answers that are read are as many as were asked for.
pub proof fn lemma_answers_count(i: Seq<u8>, count: nat, base: Seq<u8>)
    ensures
        spec_parse_answers(i, count, base) matches Ok((_, ans)) ==> ans.len() == count,
    decreases count,
{
    if count > 0 {
        if let Ok((rest, _)) = spec_parse_route(i, base) {
            lemma_answers_count(rest, (count - 1) as nat, base);
        }
    }
}

/// The counts in the header of a message that is read are the lengths of its
/// lists: they are the numbers of items that were read.
pub proof fn lemma_parsed_counts(buf: Seq<u8>, base: Seq<u8>)
    ensures
        spec_parse_message_in(buf, base) matches Ok((_, m)) ==> m.counts_match(),
{
    if let Ok((i1, header)) = spec_parse_header(buf) {
        lemma_questions_count(i1, header.qd_count as nat, base);
        if let Ok((i2, _)) = spec_parse_questions(i1, header.qd_count as nat, base) {
            lemma_answers_count(i2, header.an_count as nat, base);
        }
    }
}

fn parse_message_in<'a>(buf: &'a [u8], base: &'a [u8]) -> (r: Result<
    (&'a [u8], Message),
    ParseError,
>)
    ensures
        r is Ok <==> spec_parse_message_in(buf@, base@) is Ok,
        r matches Ok((rest, m)) ==> spec_parse_message_in(buf@, base@) == Ok::<_, ParseError>(
            (rest@, m@),
        ),
        r matches Err(e) ==> spec_parse_message_in(buf@, base@) == Err::<
            (Seq<u8>, MessageView),
            _,
        >(e),
{
    let (i, header) = match parse_header(buf) {
        Ok(found) => found,
        Err(e) => {
            return Err(e);
        },
    };
    let (i, questions) = match parse_questions(i, header.qd_count, base) {
        Ok(found) => found,
        Err(e) => {
            return Err(e);
        },
    };
    let (i, answers) = match parse_answers(i, header.an_count, base) {
        Ok(found) => found,
        Err(e) => {
            return Err(e);
        },
    };
    let mut msg = Message::new(header);
    if msg.set_questions(questions).is_err() {
        unreached::<()>();
    }
    if msg.set_answers(answers).is_err() {
        unreached::<()>();
    }
    Ok((i, msg))
}

/// Reads a message. It is read whole or not at all: the first item that
/// cannot be read is the failure of the message, and it begins in the message.
pub fn parse_message<'a>(buf: &'a [u8]) -> (r: Result<(&'a [u8], Message), ParseError>)
    ensures
        r is Ok <==> spec_parse_message(buf@) is Ok,
        r matches Ok((rest, m)) ==> spec_parse_message(buf@) == Ok::<_, ParseError>((rest@, m@)),
        r matches Err(e) ==> spec_parse_message(buf@) == Err::<(Seq<u8>, MessageView), _>(e)
            && e.remaining <= buf@.len(),
{
    let len = buf.len();
    proof {
        assert(buf@.len() == len);
        lemma_message_bounded(buf@, buf@);
    }
    parse_message_in(buf, buf)
}

/// Reads a message from the start of a buffer, its names in the given way;
/// what follows the message is not looked at.
pub open spec fn spec_decode_as(buf: Seq<u8>, names: Names) -> Result<MessageView, ParseError> {
    match spec_parse_message_in(buf, pointer_base(buf, names)) {
        Ok((_, m)) => Ok(m),
        Err(e) => Err(e),
    }
}

/// Reads a message from the start of a buffer; the pointers in its names are
/// followed.
pub open spec fn spec_decode(buf: Seq<u8>) -> Result<MessageView, ParseError> {
    spec_decode_as(buf, Names::Compressed)
}

/// Decodes the message at the start of `buf`, reading its names in the given
/// way. A failure lies in the message: [`ParseError::offset`] tells where.
pub fn decode(buf: &[u8], names: Names) -> (r: Result<Message, ParseError>)
    ensures
        r is Ok <==> spec_decode_as(buf@, names) is Ok,
        r matches Ok(m) ==> spec_decode_as(buf@, names) == Ok::<_, ParseError>(m@),
        r matches Err(e) ==> spec_decode_as(buf@, names) == Err::<MessageView, _>(e)
            && e.remaining <= buf@.len(),
{
    let len = buf.len();
    proof {
        assert(buf@.len() == len);
        lemma_message_bounded(buf@, pointer_base(buf@, names));
    }
    let base = match names {
        Names::Compressed => buf,
        Names::Plain => {
            let none = slice_subrange(buf, 0, 0);
            assert(none@ =~= Seq::<u8>::empty());
            none
        },
    };
    match parse_message_in(buf, base) {
        Ok((_, m)) => Ok(m),
        Err(e) => Err(e),
    }
}

impl<'a> TryFrom<&'a [u8]> for Message {
    type Error = ParseError;

    /// Decodes the message at the start of `buf`.
    fn try_from(buf: &'a [u8]) -> (r: Result<Self, ParseError>)
        ensures
            r is Ok <==> spec_decode(buf@) is Ok,
            r matches Ok(m) ==> spec_decode(buf@) == Ok::<_, ParseError>(m@),
            r matches Err(e) ==> spec_decode(buf@) == Err::<MessageView, _>(e) && e.remaining
                <= buf@.len(),
    {
        decode(buf, Names::Compressed)
    }
}

/// What `try_from` returns is said in its own `ensures`, over the view of the
/// message: a specification cannot name the message itself.
impl<'a> vstd::std_specs::convert::TryFromSpecImpl<&'a [u8]> for Message {
    open spec fn obeys_try_from_spec() -> bool {
        false
    }

    open spec fn try_from_spec(buf: &'a [u8]) -> Result<Self, ParseError> {
        arbitrary()
    }
}

} // verus!
