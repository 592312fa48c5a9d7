//! Compression pointers and loops. A name is read with one pointer allowed
//! for each byte of its message; the laws here show that this allowance
//! refuses no name that any allowance could read, so that what it refuses
//! runs in a loop.

use crate::parser::{
    is_pointer, pointer_target, spec_collect, spec_parse_domain_name, ParseError,
};
use vstd::prelude::*;
use vstd::set_lib::{lemma_int_range, lemma_len_subset, set_int_range};

verus! {

/// The number of pointers that are followed when the labels of a name are
/// read from `i` with `hops` pointers allowed.
pub open spec fn hops_taken(i: Seq<u8>, buf: Seq<u8>, hops: nat) -> nat
    decreases hops, i.len(),
{
    if i.len() == 0 || i[0] == 0 {
        0
    } else if is_pointer(i[0]) {
        if i.len() < 2 || pointer_target(i[0], i[1]) >= buf.len() || hops == 0 {
            0
        } else {
            1 + hops_taken(buf.skip(pointer_target(i[0], i[1])), buf, (hops - 1) as nat)
        }
    } else if i.len() < 1 + i[0] {
        0
    } else {
        hops_taken(i.skip(1 + i[0]), buf, hops)
    }
}

/// The offsets that the pointers lead to which are followed when the labels
/// of a name are read from `i` with `hops` pointers allowed.
pub open spec fn targets(i: Seq<u8>, buf: Seq<u8>, hops: nat) -> Set<int>
    decreases hops, i.len(),
{
    if i.len() == 0 || i[0] == 0 {
        Set::empty()
    } else if is_pointer(i[0]) {
        if i.len() < 2 || pointer_target(i[0], i[1]) >= buf.len() || hops == 0 {
            Set::empty()
        } else {
            targets(buf.skip(pointer_target(i[0], i[1])), buf, (hops - 1) as nat).insert(
                pointer_target(i[0], i[1]),
            )
        }
    } else if i.len() < 1 + i[0] {
        Set::empty()
    } else {
        targets(i.skip(1 + i[0]), buf, hops)
    }
}

/// A name that is read follows no more pointers than were allowed.
pub proof fn lemma_hops_within(i: Seq<u8>, buf: Seq<u8>, hops: nat)
    requires
        spec_collect(i, buf, hops) is Ok,
    ensures
        hops_taken(i, buf, hops) <= hops,
    decreases hops, i.len(),
{
    if i.len() == 0 || i[0] == 0 {
    } else if is_pointer(i[0]) {
        lemma_hops_within(buf.skip(pointer_target(i[0], i[1])), buf, (hops - 1) as nat);
    } else {
        lemma_hops_within(i.skip(1 + i[0]), buf, hops);
    }
}

/// A name that is read is read the same, along the same pointers, with any
/// allowance that covers the pointers it follows.
pub proof fn lemma_allowance(i: Seq<u8>, buf: Seq<u8>, hops: nat, other: nat)
    requires
        spec_collect(i, buf, hops) is Ok,
        other >= hops_taken(i, buf, hops),
    ensures
        spec_collect(i, buf, other) == spec_collect(i, buf, hops),
        hops_taken(i, buf, other) == hops_taken(i, buf, hops),
        targets(i, buf, other) == targets(i, buf, hops),
    decreases hops, i.len(),
{
    if i.len() == 0 || i[0] == 0 {
    } else if is_pointer(i[0]) {
        lemma_allowance(
            buf.skip(pointer_target(i[0], i[1])),
            buf,
            (hops - 1) as nat,
            (other - 1) as nat,
        );
    } else {
        lemma_allowance(i.skip(1 + i[0]), buf, hops, other);
    }
}

/// A name is read along the same number of pointers with every allowance
/// that reads it.
pub proof fn lemma_hops_agree(i: Seq<u8>, buf: Seq<u8>, hops: nat, other: nat)
    requires
        spec_collect(i, buf, hops) is Ok,
        spec_collect(i, buf, other) is Ok,
    ensures
        hops_taken(i, buf, other) == hops_taken(i, buf, hops),
{
    lemma_hops_within(i, buf, hops);
    lemma_hops_within(i, buf, other);
    if hops <= other {
        lemma_allowance(i, buf, hops, other);
    } else {
        lemma_allowance(i, buf, other, hops);
    }
}

/// What stands at an offset that a name leads to is read, with some
/// allowance, along fewer pointers than the name. The allowance is returned.
pub proof fn lemma_target_is_nearer(i: Seq<u8>, buf: Seq<u8>, hops: nat, t: int) -> (at: nat)
    requires
        spec_collect(i, buf, hops) is Ok,
        targets(i, buf, hops).contains(t),
    ensures
        0 <= t < buf.len(),
        spec_collect(buf.skip(t), buf, at) is Ok,
        hops_taken(buf.skip(t), buf, at) < hops_taken(i, buf, hops),
    decreases hops, i.len(),
{
    if i.len() == 0 || i[0] == 0 {
        0
    } else if is_pointer(i[0]) {
        let first = pointer_target(i[0], i[1]);
        if t == first {
            (hops - 1) as nat
        } else {
            lemma_target_is_nearer(buf.skip(first), buf, (hops - 1) as nat, t)
        }
    } else {
        lemma_target_is_nearer(i.skip(1 + i[0]), buf, hops, t)
    }
}

/// A name that is read leads to no offset twice: the offsets it leads to are
/// as many as the pointers it follows, and all lie in the message.
pub proof fn lemma_targets_differ(i: Seq<u8>, buf: Seq<u8>, hops: nat)
    requires
        spec_collect(i, buf, hops) is Ok,
    ensures
        targets(i, buf, hops).finite(),
        targets(i, buf, hops).len() == hops_taken(i, buf, hops),
        targets(i, buf, hops).subset_of(set_int_range(0, buf.len() as int)),
    decreases hops, i.len(),
{
    if i.len() == 0 || i[0] == 0 {
    } else if is_pointer(i[0]) {
        let first = pointer_target(i[0], i[1]);
        let there = buf.skip(first);
        let left = (hops - 1) as nat;
        lemma_targets_differ(there, buf, left);
        if targets(there, buf, left).contains(first) {
            let at = lemma_target_is_nearer(there, buf, left, first);
            lemma_hops_agree(there, buf, left, at);
        }
    } else {
        lemma_targets_differ(i.skip(1 + i[0]), buf, hops);
    }
}

/// One pointer for each byte of the message is allowance enough: labels that
/// any allowance reads are read the same with this one.
pub proof fn lemma_hops_suffice(i: Seq<u8>, buf: Seq<u8>, hops: nat)
    requires
        spec_collect(i, buf, hops) is Ok,
    ensures
        hops_taken(i, buf, hops) <= buf.len(),
        spec_collect(i, buf, buf.len()) == spec_collect(i, buf, hops),
{
    lemma_targets_differ(i, buf, hops);
    lemma_int_range(0, buf.len() as int);
    lemma_len_subset(targets(i, buf, hops), set_int_range(0, buf.len() as int));
    lemma_allowance(i, buf, hops, buf.len());
}

/// A name that is refused is refused with every allowance: where its
/// pointers are the reason, following them never comes to an end.
pub proof fn lemma_refused_names_loop(i: Seq<u8>, buf: Seq<u8>, hops: nat)
    requires
        spec_parse_domain_name(i, buf) is Err,
    ensures
        spec_collect(i, buf, hops) is Err,
{
    if spec_collect(i, buf, hops) is Ok {
        lemma_hops_suffice(i, buf, hops);
    }
}

/// A name that is written as nothing but a pointer reads as the name that
/// stands where the pointer leads, letter for letter, and the input goes on
/// after the two bytes of the pointer.
pub proof fn lemma_pointer_reads_target(b0: u8, b1: u8, tail: Seq<u8>, buf: Seq<u8>)
    requires
        is_pointer(b0),
        pointer_target(b0, b1) < buf.len(),
        spec_parse_domain_name(buf.skip(pointer_target(b0, b1)), buf) is Ok,
    ensures
        spec_parse_domain_name(seq![b0, b1] + tail, buf) == Ok::<_, ParseError>(
            (tail, spec_parse_domain_name(buf.skip(pointer_target(b0, b1)), buf)->Ok_0.1),
        ),
{
    let i = seq![b0, b1] + tail;
    let there = buf.skip(pointer_target(b0, b1));
    assert(i[0] == b0 && i[1] == b1);
    assert(i.skip(2) =~= tail);
    assert(spec_collect(i, buf, buf.len() + 1) == Ok::<_, ParseError>(
        (tail, spec_collect(there, buf, buf.len())->Ok_0.1),
    ));
    lemma_hops_suffice(i, buf, buf.len() + 1);
}

} // verus!
