//! What is written can be read back: the laws that tie the writer to the
//! parser.

use crate::input::spec_u16;
use crate::message::data::Data;
use crate::message::domain::DomainView;
use crate::message::header::{Authoritative, Header, QueryMode, Recursion, Truncation};
use crate::message::route::RouteView;
use crate::message::MessageView;
use crate::output::{spec_u16_bytes, spec_u32_bytes};
use crate::parser::{
    dotted, pointer_base, spec_collect, spec_decode, spec_decode_as, spec_parse_answers,
    spec_parse_data, spec_parse_domain, spec_parse_domain_name, spec_parse_header,
    spec_parse_message, spec_parse_message_in, spec_parse_questions, spec_parse_route,
    spec_take_u16, spec_take_u32, Names, ParseError,
};
use crate::writer::{
    first_label_len, lemma_first_label_len, spec_flags_hi, spec_flags_lo, spec_write_answers,
    spec_write_domain, spec_write_header, spec_write_message, spec_write_name,
    spec_write_questions, spec_write_route,
};
use vstd::prelude::*;
use vstd::utf8::{
    encode_utf8, encode_utf8_decode_utf8, encode_utf8_valid_utf8, is_char_boundary,
    is_char_boundary_iff_not_is_continuation_byte, pop_first_scalar, valid_utf8,
    valid_utf8_split,
};

verus! {

/// A 16-bit number is read back from its two bytes.
pub proof fn lemma_u16_round_trip(n: u16, tail: Seq<u8>)
    ensures
        spec_take_u16(spec_u16_bytes(n) + tail) == Ok::<_, ParseError>((tail, n)),
{
    let i = spec_u16_bytes(n) + tail;
    assert(i.skip(2) =~= tail);
    assert(i[0] == (n / 0x100) as u8);
    assert(i[1] == (n % 0x100) as u8);
}

/// A 32-bit number is read back from its four bytes.
pub proof fn lemma_u32_round_trip(n: u32, tail: Seq<u8>)
    ensures
        spec_take_u32(spec_u32_bytes(n) + tail) == Ok::<_, ParseError>((tail, n)),
{
    let i = spec_u32_bytes(n) + tail;
    assert(i.skip(4) =~= tail);
    assert(i[0] == (n / 0x100_0000) as u8);
    assert(i[1] == (n / 0x1_0000 % 0x100) as u8);
    assert(i[2] == (n / 0x100 % 0x100) as u8);
    assert(i[3] == (n % 0x100) as u8);
}

proof fn lemma_flags_hi_bits(qr: u8, op: u8, aa: u8, tc: u8, rd: u8)
    by (bit_vector)
    requires
        qr == 0 || qr == 0x80,
        op < 16,
        aa == 0 || aa == 0x04,
        tc == 0 || tc == 0x02,
        rd == 0 || rd == 0x01,
    ensures
        (((qr | (0x78u8 & (op << 3u8)) | aa | tc | rd) >> 7u8) & 1 == 1) <==> qr == 0x80,
        ((qr | (0x78u8 & (op << 3u8)) | aa | tc | rd) >> 3u8) & 0x0f == op,
        (((qr | (0x78u8 & (op << 3u8)) | aa | tc | rd) >> 2u8) & 1 == 1) <==> aa == 0x04,
        (((qr | (0x78u8 & (op << 3u8)) | aa | tc | rd) >> 1u8) & 1 == 1) <==> tc == 0x02,
        (((qr | (0x78u8 & (op << 3u8)) | aa | tc | rd) >> 0u8) & 1 == 1) <==> rd == 0x01,
{
}

proof fn lemma_flags_lo_bits(ra: u8, code: u8)
    by (bit_vector)
    requires
        ra == 0 || ra == 0x80,
        code < 16,
    ensures
        (((ra | (0x0fu8 & code)) >> 7u8) & 1 == 1) <==> ra == 0x80,
        (ra | (0x0fu8 & code)) & 0x0f == code,
{
}

/// What a header must meet to be read back as it is: both of its codes fit
/// the four bits that the wire has for them.
pub open spec fn header_fits(h: Header) -> bool {
    h.op_code.0 < 16 && h.r_code.0 < 16
}

/// A header whose codes fit four bits is read back from its twelve bytes,
/// whatever follows them.
pub proof fn lemma_header_round_trip(h: Header, tail: Seq<u8>)
    requires
        header_fits(h),
    ensures
        spec_parse_header(spec_write_header(h) + tail) == Ok::<_, ParseError>((tail, h)),
{
    let i = spec_write_header(h) + tail;
    assert(i.skip(12) =~= tail);
    assert(spec_u16(i[0], i[1]) == h.id.0);
    assert(spec_u16(i[4], i[5]) == h.qd_count);
    assert(spec_u16(i[6], i[7]) == h.an_count);
    assert(spec_u16(i[8], i[9]) == h.ar_count);
    assert(spec_u16(i[10], i[11]) == h.ns_count);
    assert(i[2] == spec_flags_hi(h));
    assert(i[3] == spec_flags_lo(h));
    lemma_flags_hi_bits(
        if h.qr == QueryMode::Response {
            0x80u8
        } else {
            0u8
        },
        h.op_code.0,
        if h.aa == Authoritative::Owned {
            0x04u8
        } else {
            0u8
        },
        if h.tc == Truncation::Truncated {
            0x02u8
        } else {
            0u8
        },
        if h.rd == Recursion::Enabled {
            0x01u8
        } else {
            0u8
        },
    );
    lemma_flags_lo_bits(
        if h.ra == Recursion::Enabled {
            0x80u8
        } else {
            0u8
        },
        h.r_code.0,
    );
    lemma_bit_is_zero_or_one(spec_flags_hi(h), 7);
    lemma_bit_is_zero_or_one(spec_flags_hi(h), 2);
    lemma_bit_is_zero_or_one(spec_flags_hi(h), 1);
    lemma_bit_is_zero_or_one(spec_flags_hi(h), 0);
    lemma_bit_is_zero_or_one(spec_flags_lo(h), 7);
}

proof fn lemma_bit_is_zero_or_one(byte: u8, k: u8)
    by (bit_vector)
    ensures
        (byte >> k) & 1 == 0 || (byte >> k) & 1 == 1,
{
}

/// The parts of a dotted name: what stands between its dots.
pub open spec fn split_dots(name: Seq<u8>) -> Seq<Seq<u8>>
    decreases name.len(),
{
    let n = first_label_len(name);
    seq![name.take(n as int)] + if n < name.len() {
        split_dots(name.skip(n + 1 as int))
    } else {
        Seq::empty()
    }
}

/// What a name must meet to be read back as it is: each of its parts has at
/// least one byte, so that it does not end the name on the wire, and fewer
/// than 192, so that its length is not taken for a pointer.
pub open spec fn labels_fit(name: Seq<u8>) -> bool
    decreases name.len(),
{
    let n = first_label_len(name);
    1 <= n < 0xc0 && (n < name.len() ==> labels_fit(name.skip(n + 1 as int)))
}

/// The parts of a name, joined by dots, are the name.
pub proof fn lemma_dotted_split(name: Seq<u8>)
    ensures
        split_dots(name).len() >= 1,
        dotted(split_dots(name)) == name,
    decreases name.len(),
{
    lemma_first_label_len(name);
    let n = first_label_len(name);
    if n < name.len() {
        let rest = name.skip(n + 1 as int);
        lemma_dotted_split(rest);
        let parts = split_dots(name);
        assert(parts[0] == name.take(n as int));
        assert(parts.drop_first() =~= split_dots(rest));
        assert(name =~= name.take(n as int) + seq![0x2eu8] + rest);
    } else {
        assert(name.take(n as int) =~= name);
    }
}

/// The parts of a UTF-8 name are UTF-8: a dot never stands inside the bytes
/// of a character.
pub proof fn lemma_label_valid(name: Seq<u8>)
    requires
        valid_utf8(name),
    ensures
        valid_utf8(name.take(first_label_len(name) as int)),
        first_label_len(name) < name.len() ==> valid_utf8(
            name.skip(first_label_len(name) + 1 as int),
        ),
{
    lemma_first_label_len(name);
    let n = first_label_len(name) as int;
    if n < name.len() {
        is_char_boundary_iff_not_is_continuation_byte(name, n);
        assert(is_char_boundary(name, n));
        valid_utf8_split(name, n);
        let dot_on = name.subrange(n, name.len() as int);
        assert(name.take(n) =~= name.subrange(0, n));
        assert(dot_on[0] == 0x2e);
        assert(pop_first_scalar(dot_on) =~= name.skip(n + 1));
    } else {
        assert(name.take(n) =~= name);
    }
}

/// A UTF-8 name whose parts fit is read back, part by part, from its wire
/// form, whatever follows it and whatever message it stands in.
pub proof fn lemma_labels_round_trip(name: Seq<u8>, tail: Seq<u8>, buf: Seq<u8>, hops: nat)
    requires
        valid_utf8(name),
        labels_fit(name),
    ensures
        spec_collect(spec_write_name(name) + tail, buf, hops) == Ok::<_, ParseError>(
            (tail, split_dots(name)),
        ),
    decreases name.len(),
{
    lemma_first_label_len(name);
    lemma_label_valid(name);
    let n = first_label_len(name) as int;
    let i = spec_write_name(name) + tail;
    assert(i[0] == n as u8);
    assert(i.subrange(1, 1 + n) =~= name.take(n));
    if n < name.len() {
        let rest = name.skip(n + 1);
        lemma_labels_round_trip(rest, tail, buf, hops);
        assert(i.skip(1 + n) =~= spec_write_name(rest) + tail);
    } else {
        let end = seq![0u8] + tail;
        assert(i.skip(1 + n) =~= end);
        assert(end.skip(1) =~= tail);
        assert(spec_collect(end, buf, hops) == Ok::<_, ParseError>(
            (tail, Seq::<Seq<u8>>::empty()),
        ));
        assert(seq![name.take(n)] + Seq::<Seq<u8>>::empty() =~= split_dots(name));
    }
}

/// A name whose parts fit is read back from its wire form.
pub proof fn lemma_name_round_trip(name: Seq<char>, tail: Seq<u8>, buf: Seq<u8>)
    requires
        labels_fit(encode_utf8(name)),
    ensures
        spec_parse_domain_name(spec_write_name(encode_utf8(name)) + tail, buf) == Ok::<
            _,
            ParseError,
        >((tail, name)),
{
    let bytes = encode_utf8(name);
    encode_utf8_valid_utf8(name);
    encode_utf8_decode_utf8(name);
    lemma_labels_round_trip(bytes, tail, buf, buf.len());
    lemma_dotted_split(bytes);
}

/// What a question or the owner of an answer must meet to be read back as it
/// is: the parts of its name fit.
pub open spec fn domain_fits(d: DomainView) -> bool {
    labels_fit(encode_utf8(d.name))
}

/// A question whose name fits is read back from its wire form.
pub proof fn lemma_domain_round_trip(d: DomainView, tail: Seq<u8>, buf: Seq<u8>)
    requires
        domain_fits(d),
    ensures
        spec_parse_domain(spec_write_domain(d) + tail, buf) == Ok::<_, ParseError>((tail, d)),
{
    let record = spec_u16_bytes(d.record.spec_code());
    let class = spec_u16_bytes(d.class.spec_code());
    let name = spec_write_name(encode_utf8(d.name));
    assert(spec_write_domain(d) + tail =~= name + (record + (class + tail)));
    lemma_name_round_trip(d.name, record + (class + tail), buf);
    lemma_u16_round_trip(d.record.spec_code(), class + tail);
    lemma_u16_round_trip(d.class.spec_code(), tail);
}

/// The data of an answer are read back from their wire form.
pub proof fn lemma_data_round_trip(data: Data, tail: Seq<u8>)
    ensures
        spec_parse_data(spec_u16_bytes(data.spec_bytes().len() as u16) + data.spec_bytes() + tail)
            == Ok::<_, ParseError>((tail, data)),
{
    match data {
        Data::Ipv4(ip) => {
            ip.lemma_octets_new();
            let octets = ip.spec_octets();
            let i = spec_u16_bytes(4) + octets + tail;
            assert(i =~= spec_u16_bytes(4) + (octets + tail));
            lemma_u16_round_trip(4, octets + tail);
            assert((octets + tail).skip(4) =~= tail);
        },
    }
}

/// An answer whose name fits is read back from its wire form.
pub proof fn lemma_route_round_trip(a: RouteView, tail: Seq<u8>, buf: Seq<u8>)
    requires
        domain_fits(a.domain),
    ensures
        spec_parse_route(spec_write_route(a) + tail, buf) == Ok::<_, ParseError>((tail, a)),
{
    let ttl = spec_u32_bytes(a.ttl);
    let data = spec_u16_bytes(a.data.spec_bytes().len() as u16) + a.data.spec_bytes() + tail;
    assert(spec_write_route(a) + tail =~= spec_write_domain(a.domain) + (ttl + data));
    lemma_domain_round_trip(a.domain, ttl + data, buf);
    lemma_u32_round_trip(a.ttl, data);
    lemma_data_round_trip(a.data, tail);
}

/// Questions whose names fit are read back, in order, from their wire forms.
pub proof fn lemma_questions_round_trip(qs: Seq<DomainView>, tail: Seq<u8>, buf: Seq<u8>)
    requires
        forall|k: int| 0 <= k < qs.len() ==> domain_fits(#[trigger] qs[k]),
    ensures
        spec_parse_questions(spec_write_questions(qs) + tail, qs.len(), buf) == Ok::<
            _,
            ParseError,
        >((tail, qs)),
    decreases qs.len(),
{
    if qs.len() == 0 {
        assert(spec_write_questions(qs) + tail =~= tail);
        assert(qs =~= Seq::empty());
    } else {
        let rest = qs.drop_first();
        let after = spec_write_questions(rest) + tail;
        assert(spec_write_questions(qs) + tail =~= spec_write_domain(qs[0]) + after);
        lemma_domain_round_trip(qs[0], after, buf);
        assert forall|k: int| 0 <= k < rest.len() implies domain_fits(#[trigger] rest[k]) by {
            assert(rest[k] == qs[k + 1]);
        }
        lemma_questions_round_trip(rest, tail, buf);
        assert(seq![qs[0]] + rest =~= qs);
    }
}

/// Answers whose names fit are read back, in order, from their wire forms.
pub proof fn lemma_answers_round_trip(ans: Seq<RouteView>, tail: Seq<u8>, buf: Seq<u8>)
    requires
        forall|k: int| 0 <= k < ans.len() ==> domain_fits((#[trigger] ans[k]).domain),
    ensures
        spec_parse_answers(spec_write_answers(ans) + tail, ans.len(), buf) == Ok::<_, ParseError>(
            (tail, ans),
        ),
    decreases ans.len(),
{
    if ans.len() == 0 {
        assert(spec_write_answers(ans) + tail =~= tail);
        assert(ans =~= Seq::empty());
    } else {
        let rest = ans.drop_first();
        let after = spec_write_answers(rest) + tail;
        assert(spec_write_answers(ans) + tail =~= spec_write_route(ans[0]) + after);
        lemma_route_round_trip(ans[0], after, buf);
        assert forall|k: int| 0 <= k < rest.len() implies domain_fits(
            (#[trigger] rest[k]).domain,
        ) by {
            assert(rest[k] == ans[k + 1]);
        }
        lemma_answers_round_trip(rest, tail, buf);
        assert(seq![ans[0]] + rest =~= ans);
    }
}

/// What a message must meet to be read back as it is: the header counts are
/// the lengths of the lists, the codes of the header fit four bits, and the
/// names of all questions and answers fit.
pub open spec fn message_fits(m: MessageView) -> bool {
    &&& m.counts_match()
    &&& header_fits(m.header)
    &&& forall|k: int| 0 <= k < m.questions.len() ==> domain_fits(#[trigger] m.questions[k])
    &&& forall|k: int| 0 <= k < m.answers.len() ==> domain_fits((#[trigger] m.answers[k]).domain)
}

/// A message that fits is read back from its wire form, whatever its names
/// would point into, and no byte is left over.
pub proof fn lemma_message_round_trip_in(m: MessageView, base: Seq<u8>)
    requires
        message_fits(m),
    ensures
        spec_parse_message_in(spec_write_message(m), base) == Ok::<_, ParseError>(
            (Seq::<u8>::empty(), m),
        ),
{
    let buf = spec_write_message(m);
    let none = Seq::<u8>::empty();
    let answers = spec_write_answers(m.answers) + none;
    let questions = spec_write_questions(m.questions) + answers;
    assert(buf =~= spec_write_header(m.header) + questions);
    lemma_header_round_trip(m.header, questions);
    lemma_questions_round_trip(m.questions, answers, base);
    lemma_answers_round_trip(m.answers, none, base);
}

/// Round trip: a message that fits is decoded from the bytes it was encoded
/// to, header, questions and answers, in whichever way names are read.
pub proof fn lemma_message_round_trip(m: MessageView, names: Names)
    requires
        message_fits(m),
    ensures
        spec_parse_message(spec_write_message(m)) == Ok::<_, ParseError>(
            (Seq::<u8>::empty(), m),
        ),
        spec_decode(spec_write_message(m)) == Ok::<_, ParseError>(m),
        spec_decode_as(spec_write_message(m), names) == Ok::<_, ParseError>(m),
{
    let buf = spec_write_message(m);
    lemma_message_round_trip_in(m, buf);
    lemma_message_round_trip_in(m, pointer_base(buf, names));
}

} // verus!
