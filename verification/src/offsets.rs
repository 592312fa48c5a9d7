//! Where a failure lies. A failure tells how many bytes were left where the
//! item that failed begins; the laws here show that this is never more than
//! the input had, so that it names an offset in the message.

use crate::parser::{
    pointer_target, spec_collect, spec_parse_answers, spec_parse_class, spec_parse_data,
    spec_parse_domain, spec_parse_domain_name, spec_parse_header, spec_parse_message_in,
    spec_parse_questions, spec_parse_record, spec_parse_route, spec_take_u32, Parsed,
};
use vstd::prelude::*;

verus! {

/// What holds of every reader: it gives back no more input than it took, and
/// where it fails, the item that failed begins in the input `i` or, behind a
/// pointer, in the message `base`.
pub open spec fn bounded<T>(r: Parsed<T>, i: Seq<u8>, base: Seq<u8>) -> bool {
    match r {
        Ok((rest, _)) => rest.len() <= i.len(),
        Err(e) => e.remaining <= i.len() || e.remaining <= base.len(),
    }
}

/// Reading labels stays within the input and the message.
pub proof fn lemma_collect_bounded(i: Seq<u8>, base: Seq<u8>, hops: nat)
    requires
        i.len() <= usize::MAX,
        base.len() <= usize::MAX,
    ensures
        bounded(spec_collect(i, base, hops), i, base),
    decreases hops, i.len(),
{
    if i.len() == 0 || i[0] == 0 {
    } else if i[0] >= 0xc0 {
        if i.len() >= 2 && pointer_target(i[0], i[1]) < base.len() && hops > 0 {
            let there = base.skip(pointer_target(i[0], i[1]));
            lemma_collect_bounded(there, base, (hops - 1) as nat);
        }
    } else if i.len() >= 1 + i[0] {
        lemma_collect_bounded(i.skip(1 + i[0]), base, hops);
    }
}

/// Reading a question stays within the input and the message.
pub proof fn lemma_domain_bounded(i: Seq<u8>, base: Seq<u8>)
    requires
        i.len() <= usize::MAX,
        base.len() <= usize::MAX,
    ensures
        bounded(spec_parse_domain_name(i, base), i, base),
        bounded(spec_parse_domain(i, base), i, base),
{
    lemma_collect_bounded(i, base, base.len());
    if let Ok((i1, _)) = spec_parse_domain_name(i, base) {
        if let Ok((i2, _)) = spec_parse_record(i1) {
            assert(bounded(spec_parse_class(i2), i, base));
        }
    }
}

/// Reading questions stays within the input and the message.
pub proof fn lemma_questions_bounded(i: Seq<u8>, count: nat, base: Seq<u8>)
    requires
        i.len() <= usize::MAX,
        base.len() <= usize::MAX,
    ensures
        bounded(spec_parse_questions(i, count, base), i, base),
    decreases count,
{
    if count > 0 {
        lemma_domain_bounded(i, base);
        if let Ok((rest, _)) = spec_parse_domain(i, base) {
            lemma_questions_bounded(rest, (count - 1) as nat, base);
        }
    }
}

/// Reading an answer stays within the input and the message.
pub proof fn lemma_route_bounded(i: Seq<u8>, base: Seq<u8>)
    requires
        i.len() <= usize::MAX,
        base.len() <= usize::MAX,
    ensures
        bounded(spec_parse_route(i, base), i, base),
{
    lemma_domain_bounded(i, base);
    if let Ok((i1, _)) = spec_parse_domain(i, base) {
        if let Ok((i2, _)) = spec_take_u32(i1) {
            assert(bounded(spec_parse_data(i2), i, base));
        }
    }
}

/// Reading answers stays within the input and the message.
pub proof fn lemma_answers_bounded(i: Seq<u8>, count: nat, base: Seq<u8>)
    requires
        i.len() <= usize::MAX,
        base.len() <= usize::MAX,
    ensures
        bounded(spec_parse_answers(i, count, base), i, base),
    decreases count,
{
    if count > 0 {
        lemma_route_bounded(i, base);
        if let Ok((rest, _)) = spec_parse_route(i, base) {
            lemma_answers_bounded(rest, (count - 1) as nat, base);
        }
    }
}

/// A message fails at an item that begins within it: its length less what
/// the failure tells is the offset of that item.
pub proof fn lemma_message_bounded(buf: Seq<u8>, base: Seq<u8>)
    requires
        buf.len() <= usize::MAX,
        base.len() <= buf.len(),
    ensures
        spec_parse_message_in(buf, base) matches Err(e) ==> e.remaining <= buf.len(),
{
    if let Ok((i1, header)) = spec_parse_header(buf) {
        lemma_questions_bounded(i1, header.qd_count as nat, base);
        if let Ok((i2, _)) = spec_parse_questions(i1, header.qd_count as nat, base) {
            lemma_answers_bounded(i2, header.an_count as nat, base);
        }
    }
}

} // verus!
