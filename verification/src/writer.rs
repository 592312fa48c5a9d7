//! Encoding: from a [`Message`] to its bytes.
//!
//! [`Serialize::wire`] is the definition of the wire format as it is written;
//! [`Serialize::write`] appends exactly those bytes to a buffer.

use crate::message::data::Data;
use crate::message::domain::{domain_views, Domain, DomainView};
use crate::message::header::{Authoritative, Header, QueryMode, Recursion, Truncation};
use crate::message::route::{route_views, Route, RouteView};
use crate::message::{Message, MessageView};
use crate::output::{
    fits, freeze, frozen, put_slice, put_u16, put_u32, put_u8, spec_u16_bytes, spec_u32_bytes,
    with_capacity, written,
};
use bytes::{Bytes, BytesMut};
use vstd::prelude::*;
use vstd::slice::slice_subrange;
use vstd::utf8::encode_utf8;

verus! {

/// What can be written to the wire.
pub trait Serialize {
    /// The bytes that stand for the value on the wire.
    spec fn wire(&self) -> Seq<u8>;

    /// Appends the wire form of the value to `buf`.
    fn write(&self, buf: &mut BytesMut)
        requires
            fits(*old(buf), self.wire().len() as int),
        ensures
            written(*final(buf)) == written(*old(buf)) + self.wire(),
    ;
}

/// The first flag byte of a header: from the most significant bit down, the
/// query/response bit, the low four bits of the kind of query, and the
/// authoritative, truncated and recursion-desired bits.
pub open spec fn spec_flags_hi(h: Header) -> u8 {
    (if h.qr == QueryMode::Response {
        0x80u8
    } else {
        0u8
    }) | (0x78u8 & (h.op_code.0 << 3u8)) | (if h.aa == Authoritative::Owned {
        0x04u8
    } else {
        0u8
    }) | (if h.tc == Truncation::Truncated {
        0x02u8
    } else {
        0u8
    }) | (if h.rd == Recursion::Enabled {
        0x01u8
    } else {
        0u8
    })
}

/// The second flag byte of a header: the recursion-available bit, three
/// reserved bits, always zero, and the low four bits of the response code.
pub open spec fn spec_flags_lo(h: Header) -> u8 {
    (if h.ra == Recursion::Enabled {
        0x80u8
    } else {
        0u8
    }) | (0x0fu8 & h.r_code.0)
}

/// The twelve bytes of a header: the identifier, the two flag bytes, and the
/// counts of questions, answers, additional records and name servers.
pub open spec fn spec_write_header(h: Header) -> Seq<u8> {
    spec_u16_bytes(h.id.0) + seq![spec_flags_hi(h), spec_flags_lo(h)] + spec_u16_bytes(h.qd_count)
        + spec_u16_bytes(h.an_count) + spec_u16_bytes(h.ar_count) + spec_u16_bytes(h.ns_count)
}

impl Serialize for Header {
    open spec fn wire(&self) -> Seq<u8> {
        spec_write_header(*self)
    }

    fn write(&self, buf: &mut BytesMut) {
        let ghost start = written(*buf);
        put_u16(buf, self.id.0);

        let qr: u8 = if self.qr == QueryMode::Response {
            0x80
        } else {
            0
        };
        let aa: u8 = if self.aa == Authoritative::Owned {
            0x04
        } else {
            0
        };
        let tc: u8 = if self.tc == Truncation::Truncated {
            0x02
        } else {
            0
        };
        let rd: u8 = if self.rd == Recursion::Enabled {
            0x01
        } else {
            0
        };
        let hi: u8 = qr | (0x78u8 & (self.op_code.0 << 3u8)) | aa | tc | rd;
        put_u8(buf, hi);

        let ra: u8 = if self.ra == Recursion::Enabled {
            0x80
        } else {
            0
        };
        let lo: u8 = ra | (0x0fu8 & self.r_code.0);
        put_u8(buf, lo);

        put_u16(buf, self.qd_count);
        put_u16(buf, self.an_count);
        put_u16(buf, self.ar_count);
        put_u16(buf, self.ns_count);
        assert(written(*buf) =~= start + spec_write_header(*self));
    }
}

/// The length of the first label of a dotted name: the number of bytes before
/// its first dot, or all of them.
pub open spec fn first_label_len(name: Seq<u8>) -> nat
    decreases name.len(),
{
    if name.len() == 0 || name[0] == 0x2e {
        0
    } else {
        1 + first_label_len(name.drop_first())
    }
}

/// The wire form of a name given by its UTF-8 bytes: the name is split at
/// every dot (the byte `0x2e`, which stands in the bytes of no other
/// character: see [`crate::dots`]); each part is written as one byte that
/// holds its length, reduced modulo 256, followed by its bytes; a zero byte
/// ends the name. Names are never compressed.
pub open spec fn spec_write_name(name: Seq<u8>) -> Seq<u8>
    decreases name.len(),
{
    let n = first_label_len(name);
    seq![(n % 0x100) as u8] + name.take(n as int) + if n < name.len() {
        spec_write_name(name.skip(n + 1 as int))
    } else {
        seq![0u8]
    }
}

/// The first label ends inside the name.
pub proof fn lemma_first_label_len(name: Seq<u8>)
    ensures
        first_label_len(name) <= name.len(),
        first_label_len(name) < name.len() ==> name[first_label_len(name) as int] == 0x2e,
        forall|j: int| 0 <= j < first_label_len(name) ==> name[j] != 0x2e,
    decreases name.len(),
{
    if name.len() == 0 || name[0] == 0x2e {
    } else {
        let tail = name.drop_first();
        lemma_first_label_len(tail);
        assert forall|j: int| 0 <= j < first_label_len(name) implies name[j] != 0x2e by {
            if j > 0 {
                assert(name[j] == tail[j - 1]);
            }
        }
    }
}

/// On the wire a name takes two bytes more than it has.
pub proof fn lemma_write_name_len(name: Seq<u8>)
    ensures
        spec_write_name(name).len() == name.len() + 2,
    decreases name.len(),
{
    lemma_first_label_len(name);
    let n = first_label_len(name);
    if n < name.len() {
        lemma_write_name_len(name.skip(n + 1 as int));
    }
}

impl Serialize for &str {
    open spec fn wire(&self) -> Seq<u8> {
        spec_write_name(encode_utf8(self@))
    }

    fn write(&self, buf: &mut BytesMut) {
        let name = self.as_bytes();
        let ghost goal = written(*buf) + spec_write_name(name@);
        let mut start: usize = 0;
        proof {
            assert(name@.skip(0) =~= name@);
            lemma_write_name_len(name@);
        }
        loop
            invariant_except_break
                start <= name@.len(),
                written(*buf) + spec_write_name(name@.skip(start as int)) == goal,
            invariant
                goal.len() <= isize::MAX,
            ensures
                written(*buf) + seq![0u8] == goal,
            decreases name@.len() - start,
        {
            let ghost left = name@.skip(start as int);
            let mut end: usize = start;
            proof {
                lemma_write_name_len(left);
            }
            while end < name.len() && name[end] != 0x2e
                invariant
                    start <= end <= name@.len(),
                    left == name@.skip(start as int),
                    first_label_len(left) == (end - start) + first_label_len(
                        name@.skip(end as int),
                    ),
                decreases name@.len() - end,
            {
                assert(name@.skip(end as int).drop_first() =~= name@.skip(end + 1));
                end = end + 1;
            }
            assert(first_label_len(left) == end - start);
            let label = slice_subrange(name, start, end);
            assert(label@ =~= left.take(end - start));
            put_u8(buf, ((end - start) % 0x100) as u8);
            put_slice(buf, label);
            if end == name.len() {
                assert(written(*buf) + seq![0u8] =~= goal);
                break ;
            }
            proof {
                assert(left.skip(end - start + 1) =~= name@.skip(end + 1));
                assert(written(*buf) + spec_write_name(name@.skip(end + 1)) =~= goal);
            }
            start = end + 1;
        }
        put_u8(buf, 0);
        assert(written(*buf) =~= goal);
    }
}

/// The wire form of a question: the name, the record type, the class.
pub open spec fn spec_write_domain(d: DomainView) -> Seq<u8> {
    spec_write_name(encode_utf8(d.name)) + spec_u16_bytes(d.record.spec_code()) + spec_u16_bytes(
        d.class.spec_code(),
    )
}

impl Serialize for Domain {
    open spec fn wire(&self) -> Seq<u8> {
        spec_write_domain(self@)
    }

    fn write(&self, buf: &mut BytesMut) {
        let ghost start = written(*buf);
        self.name.as_str().write(buf);
        put_u16(buf, self.record.code());
        put_u16(buf, self.class.code());
        assert(written(*buf) =~= start + spec_write_domain(self@));
    }
}

impl Serialize for Data {
    open spec fn wire(&self) -> Seq<u8> {
        self.spec_bytes()
    }

    fn write(&self, buf: &mut BytesMut) {
        match self {
            Data::Ipv4(ip) => {
                let octets = ip.octets();
                put_slice(buf, octets.as_slice());
            },
        }
    }
}

/// The wire form of an answer: the question it answers, the time to live,
/// the length of the data, the data.
pub open spec fn spec_write_route(a: RouteView) -> Seq<u8> {
    spec_write_domain(a.domain) + spec_u32_bytes(a.ttl) + spec_u16_bytes(
        a.data.spec_bytes().len() as u16,
    ) + a.data.spec_bytes()
}

impl Serialize for Route {
    open spec fn wire(&self) -> Seq<u8> {
        spec_write_route(self@)
    }

    fn write(&self, buf: &mut BytesMut) {
        let ghost start = written(*buf);
        self.domain().write(buf);
        put_u32(buf, self.ttl());
        put_u16(buf, self.data().len());
        self.data().write(buf);
        assert(written(*buf) =~= start + spec_write_route(self@));
    }
}

/// The wire forms of the items of a list, one after the other.
pub open spec fn spec_write_all<T: Serialize>(items: Seq<T>) -> Seq<u8>
    decreases items.len(),
{
    if items.len() == 0 {
        Seq::empty()
    } else {
        items[0].wire() + spec_write_all(items.drop_first())
    }
}

impl<T: Serialize> Serialize for Vec<T> {
    open spec fn wire(&self) -> Seq<u8> {
        spec_write_all(self@)
    }

    fn write(&self, buf: &mut BytesMut) {
        let ghost goal = written(*buf) + spec_write_all(self@);
        let mut k: usize = 0;
        assert(self@.skip(0) =~= self@);
        while k < self.len()
            invariant
                k <= self@.len(),
                written(*buf) + spec_write_all(self@.skip(k as int)) == goal,
                goal.len() <= isize::MAX,
            decreases self@.len() - k,
        {
            proof {
                assert(self@.skip(k as int).drop_first() =~= self@.skip(k + 1));
            }
            let ghost before = written(*buf);
            self[k].write(buf);
            assert(written(*buf) + spec_write_all(self@.skip(k + 1)) =~= before + spec_write_all(
                self@.skip(k as int),
            ));
            k = k + 1;
        }
        assert(written(*buf) =~= goal);
    }
}

/// The wire forms of the questions of a list, one after the other.
pub open spec fn spec_write_questions(qs: Seq<DomainView>) -> Seq<u8>
    decreases qs.len(),
{
    if qs.len() == 0 {
        Seq::empty()
    } else {
        spec_write_domain(qs[0]) + spec_write_questions(qs.drop_first())
    }
}

/// The wire forms of the answers of a list, one after the other.
pub open spec fn spec_write_answers(ans: Seq<RouteView>) -> Seq<u8>
    decreases ans.len(),
{
    if ans.len() == 0 {
        Seq::empty()
    } else {
        spec_write_route(ans[0]) + spec_write_answers(ans.drop_first())
    }
}

/// The wire form of a message: the header, the questions in order, the
/// answers in order.
pub open spec fn spec_write_message(m: MessageView) -> Seq<u8> {
    spec_write_header(m.header) + spec_write_questions(m.questions) + spec_write_answers(m.answers)
}

proof fn lemma_write_all_domains(qs: Seq<Domain>)
    ensures
        spec_write_all(qs) == spec_write_questions(domain_views(qs)),
    decreases qs.len(),
{
    if qs.len() > 0 {
        lemma_write_all_domains(qs.drop_first());
        assert(domain_views(qs).drop_first() =~= domain_views(qs.drop_first()));
    }
}

proof fn lemma_write_all_routes(ans: Seq<Route>)
    ensures
        spec_write_all(ans) == spec_write_answers(route_views(ans)),
    decreases ans.len(),
{
    if ans.len() > 0 {
        lemma_write_all_routes(ans.drop_first());
        assert(route_views(ans).drop_first() =~= route_views(ans.drop_first()));
    }
}

/// A question takes six bytes more than its name has.
pub proof fn lemma_write_domain_len(d: DomainView)
    ensures
        spec_write_domain(d).len() == encode_utf8(d.name).len() + 6,
{
    lemma_write_name_len(encode_utf8(d.name));
}

/// An answer takes sixteen bytes more than its name has.
pub proof fn lemma_write_route_len(a: RouteView)
    ensures
        spec_write_route(a).len() == encode_utf8(a.domain.name).len() + 16,
{
    lemma_write_domain_len(a.domain);
    match a.data {
        Data::Ipv4(ip) => {
            ip.lemma_octets_new();
        },
    }
}

impl Message {
    /// The number of bytes that the message takes on the wire, where a buffer
    /// can hold that many.
    pub fn wire_len(&self) -> (r: Option<usize>)
        ensures
            r is Some <==> spec_write_message(self@).len() <= isize::MAX,
            r matches Some(n) ==> n == spec_write_message(self@).len(),
    {
        let limit: usize = isize::MAX as usize;
        let questions = self.questions();
        let answers = self.answers();
        let ghost qs = domain_views(questions@);
        let ghost ans = route_views(answers@);
        let ghost full = spec_write_message(self@).len();
        let mut total: usize = 12;
        let mut k: usize = 0;
        assert(qs.skip(0) =~= qs);
        while k < questions.len()
            invariant
                limit == isize::MAX,
                k <= questions@.len(),
                qs == domain_views(questions@),
                full == spec_write_message(self@).len(),
                total <= limit,
                total + spec_write_questions(qs.skip(k as int)).len() + spec_write_answers(
                    ans,
                ).len() == full,
            decreases questions@.len() - k,
        {
            proof {
                assert(qs.skip(k as int).drop_first() =~= qs.skip(k + 1));
                lemma_write_domain_len(qs[k as int]);
            }
            let n = questions[k].name.as_str().as_bytes().len();
            assert(n == encode_utf8(qs[k as int].name).len());
            assert(spec_write_questions(qs.skip(k as int)).len() == n + 6 + spec_write_questions(
                qs.skip(k + 1),
            ).len());
            if n > limit - total || limit - total - n < 6 {
                return None;
            }
            total = total + n + 6;
            k = k + 1;
        }
        let mut k: usize = 0;
        assert(ans.skip(0) =~= ans);
        while k < answers.len()
            invariant
                limit == isize::MAX,
                k <= answers@.len(),
                ans == route_views(answers@),
                full == spec_write_message(self@).len(),
                total <= limit,
                total + spec_write_answers(ans.skip(k as int)).len() == full,
            decreases answers@.len() - k,
        {
            proof {
                assert(ans.skip(k as int).drop_first() =~= ans.skip(k + 1));
                lemma_write_route_len(ans[k as int]);
            }
            let n = answers[k].domain().name.as_str().as_bytes().len();
            assert(n == encode_utf8(ans[k as int].domain.name).len());
            assert(spec_write_answers(ans.skip(k as int)).len() == n + 16 + spec_write_answers(
                ans.skip(k + 1),
            ).len());
            if n > limit - total || limit - total - n < 16 {
                return None;
            }
            total = total + n + 16;
            k = k + 1;
        }
        Some(total)
    }

    /// The bytes of the message on the wire.
    pub fn flush(&self) -> (r: Bytes)
        requires
            spec_write_message(self@).len() <= isize::MAX,
        ensures
            frozen(r) == spec_write_message(self@),
    {
        let mut buf = with_capacity(12);
        let questions = self.questions();
        let answers = self.answers();
        proof {
            lemma_write_all_domains(questions@);
            lemma_write_all_routes(answers@);
        }
        self.header().write(&mut buf);
        questions.write(&mut buf);
        answers.write(&mut buf);
        assert(written(buf) =~= spec_write_message(self@));
        freeze(buf)
    }

    /// The bytes of the message on the wire, unless they are more than a
    /// buffer can hold.
    pub fn try_flush(&self) -> (r: Option<Bytes>)
        ensures
            r is Some <==> spec_write_message(self@).len() <= isize::MAX,
            r matches Some(bytes) ==> frozen(bytes) == spec_write_message(self@),
    {
        match self.wire_len() {
            Some(_) => Some(self.flush()),
            None => None,
        }
    }
}

} // verus!
