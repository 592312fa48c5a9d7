//! Reading names the simple way refuses compressed names and changes nothing
//! else: what it reads is read the same where pointers are followed.

use crate::parser::{
    is_pointer, spec_collect, spec_decode_as, spec_parse_answers, spec_parse_domain,
    spec_parse_domain_name, spec_parse_header, spec_parse_questions, spec_parse_route, Names,
};
use vstd::prelude::*;

verus! {

/// The simple way refuses every pointer: labels that begin with one are not
/// read, and a name with a pointer behind some of its labels is not read
/// either.
pub proof fn lemma_plain_refuses_pointers(i: Seq<u8>, hops: nat)
    ensures
        i.len() > 0 && is_pointer(i[0]) ==> spec_collect(i, Seq::empty(), hops) is Err,
        i.len() > 0 && 0 < i[0] < 0xc0 && i.len() >= 1 + i[0] && spec_collect(
            i.skip(1 + i[0]),
            Seq::empty(),
            hops,
        ) is Err ==> spec_collect(i, Seq::empty(), hops) is Err,
{
}

/// Labels that are read without a pointer to follow are read the same
/// wherever pointers would lead.
pub proof fn lemma_collect_plain(i: Seq<u8>, base: Seq<u8>, hops: nat)
    requires
        spec_collect(i, Seq::empty(), 0) is Ok,
    ensures
        spec_collect(i, base, hops) == spec_collect(i, Seq::empty(), 0),
    decreases i.len(),
{
    if i.len() > 0 && 0 < i[0] < 0xc0 && i.len() >= 1 + i[0] {
        lemma_collect_plain(i.skip(1 + i[0]), base, hops);
    }
}

/// A name that is read the simple way is read the same within any message.
pub proof fn lemma_name_plain(i: Seq<u8>, base: Seq<u8>)
    requires
        spec_parse_domain_name(i, Seq::empty()) is Ok,
    ensures
        spec_parse_domain_name(i, base) == spec_parse_domain_name(i, Seq::empty()),
{
    lemma_collect_plain(i, base, base.len());
}

/// A question that is read the simple way is read the same within any
/// message.
pub proof fn lemma_domain_plain(i: Seq<u8>, base: Seq<u8>)
    requires
        spec_parse_domain(i, Seq::empty()) is Ok,
    ensures
        spec_parse_domain(i, base) == spec_parse_domain(i, Seq::empty()),
{
    lemma_name_plain(i, base);
}

/// Questions that are read the simple way are read the same within any
/// message.
pub proof fn lemma_questions_plain(i: Seq<u8>, count: nat, base: Seq<u8>)
    requires
        spec_parse_questions(i, count, Seq::empty()) is Ok,
    ensures
        spec_parse_questions(i, count, base) == spec_parse_questions(i, count, Seq::empty()),
    decreases count,
{
    if count > 0 {
        lemma_domain_plain(i, base);
        let rest = spec_parse_domain(i, Seq::empty())->Ok_0.0;
        lemma_questions_plain(rest, (count - 1) as nat, base);
    }
}

/// An answer that is read the simple way is read the same within any
/// message.
pub proof fn lemma_route_plain(i: Seq<u8>, base: Seq<u8>)
    requires
        spec_parse_route(i, Seq::empty()) is Ok,
    ensures
        spec_parse_route(i, base) == spec_parse_route(i, Seq::empty()),
{
    lemma_domain_plain(i, base);
}

/// Answers that are read the simple way are read the same within any
/// message.
pub proof fn lemma_answers_plain(i: Seq<u8>, count: nat, base: Seq<u8>)
    requires
        spec_parse_answers(i, count, Seq::empty()) is Ok,
    ensures
        spec_parse_answers(i, count, base) == spec_parse_answers(i, count, Seq::empty()),
    decreases count,
{
    if count > 0 {
        lemma_route_plain(i, base);
        let rest = spec_parse_route(i, Seq::empty())->Ok_0.0;
        lemma_answers_plain(rest, (count - 1) as nat, base);
    }
}

/// A message that decodes the simple way decodes to the same message where
/// pointers are followed.
pub proof fn lemma_decode_plain(buf: Seq<u8>)
    requires
        spec_decode_as(buf, Names::Plain) is Ok,
    ensures
        spec_decode_as(buf, Names::Compressed) == spec_decode_as(buf, Names::Plain),
{
    let header = spec_parse_header(buf)->Ok_0;
    lemma_questions_plain(header.0, header.1.qd_count as nat, buf);
    let questions = spec_parse_questions(header.0, header.1.qd_count as nat, Seq::empty())->Ok_0;
    lemma_answers_plain(questions.0, header.1.an_count as nat, buf);
}

} // verus!
