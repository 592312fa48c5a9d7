//! Dots in names. The writer splits the UTF-8 bytes of a name at every byte
//! `0x2e`, and the parser joins the bytes of the labels with that byte before
//! it takes them as UTF-8. The laws here show that this is to split the name
//! at every dot it has as a character, and to join the labels, each taken as
//! UTF-8, with dots.

use crate::parser::{dotted, pointer_target, spec_collect, spec_parse_domain_name};
use crate::writer::{first_label_len, lemma_first_label_len, spec_write_name};
use vstd::prelude::*;
use vstd::utf8::{
    decode_utf8, decode_utf8_encode_utf8, encode_scalar, encode_utf8, encode_utf8_decode_utf8,
    valid_utf8,
};

verus! {

/// The number of characters of a name before its first dot, or of the whole
/// name where it has none.
pub open spec fn first_part_len(name: Seq<char>) -> nat
    decreases name.len(),
{
    if name.len() == 0 || name[0] == '.' {
        0
    } else {
        1 + first_part_len(name.drop_first())
    }
}

/// The wire form of a name given by its characters: the name is split at
/// every dot; each part is written as one byte that holds the length of its
/// UTF-8 encoding, reduced modulo 256, followed by that encoding; a zero byte
/// ends the name.
pub open spec fn spec_write_chars(name: Seq<char>) -> Seq<u8>
    decreases name.len(),
{
    let k = first_part_len(name);
    let part = encode_utf8(name.take(k as int));
    seq![(part.len() % 0x100) as u8] + part + if k < name.len() {
        spec_write_chars(name.skip(k + 1 as int))
    } else {
        seq![0u8]
    }
}

/// The first part ends inside the name, at a dot or at the end of the name,
/// and holds no dot.
pub proof fn lemma_first_part_len(name: Seq<char>)
    ensures
        first_part_len(name) <= name.len(),
        first_part_len(name) < name.len() ==> name[first_part_len(name) as int] == '.',
        forall|j: int| 0 <= j < first_part_len(name) ==> name[j] != '.',
    decreases name.len(),
{
    if name.len() == 0 || name[0] == '.' {
    } else {
        let tail = name.drop_first();
        lemma_first_part_len(tail);
        assert forall|j: int| 0 <= j < first_part_len(name) implies name[j] != '.' by {
            if j > 0 {
                assert(name[j] == tail[j - 1]);
            }
        }
    }
}

proof fn lemma_dot_bits(v: u32)
    by (bit_vector)
    requires
        v != 0x2e,
    ensures
        v <= 0x7f ==> (v & 0x7F) as u8 != 0x2e,
        0xC0u8 | ((v >> 6) & 0x1F) as u8 != 0x2e,
        0xE0u8 | ((v >> 12) & 0x0F) as u8 != 0x2e,
        0xF0u8 | ((v >> 18) & 0x7) as u8 != 0x2e,
        0x80u8 | (v & 0x3F) as u8 != 0x2e,
        0x80u8 | ((v >> 6) & 0x3F) as u8 != 0x2e,
        0x80u8 | ((v >> 12) & 0x3F) as u8 != 0x2e,
{
}

proof fn lemma_dot_itself()
    by (bit_vector)
    ensures
        (0x2eu32 & 0x7F) as u8 == 0x2e,
{
}

/// The encoding of a dot is the byte `0x2e`, and the encoding of any other
/// character holds no such byte.
pub proof fn lemma_dot_encoding(c: char)
    ensures
        c == '.' ==> encode_scalar(c as u32) == seq![0x2eu8],
        c != '.' ==> ({
            let bytes = encode_scalar(c as u32);
            forall|j: int| 0 <= j < bytes.len() ==> #[trigger] bytes[j] != 0x2e
        }),
{
    let v = c as u32;
    if c == '.' {
        assert(v == 0x2e);
        lemma_dot_itself();
        assert(encode_scalar(v) =~= seq![0x2eu8]);
    } else {
        assert(v != 0x2e);
        lemma_dot_bits(v);
    }
}

/// The encoding of two strings of characters, one after the other, is the
/// encoding of the first followed by that of the second.
pub proof fn lemma_encode_concat(a: Seq<char>, b: Seq<char>)
    ensures
        encode_utf8(a + b) == encode_utf8(a) + encode_utf8(b),
    decreases a.len(),
{
    if a.len() == 0 {
        assert(a + b =~= b);
        assert(encode_utf8(a) + encode_utf8(b) =~= encode_utf8(b));
    } else {
        assert((a + b)[0] == a[0]);
        assert((a + b).drop_first() =~= a.drop_first() + b);
        lemma_encode_concat(a.drop_first(), b);
        assert(encode_utf8(a + b) =~= encode_utf8(a) + encode_utf8(b));
    }
}

/// The encoding of characters that are no dots holds no byte `0x2e`.
pub proof fn lemma_no_dot_bytes(s: Seq<char>)
    requires
        forall|j: int| 0 <= j < s.len() ==> s[j] != '.',
    ensures
        forall|k: int| 0 <= k < encode_utf8(s).len() ==> encode_utf8(s)[k] != 0x2e,
    decreases s.len(),
{
    if s.len() > 0 {
        let head = encode_scalar(s[0] as u32);
        let tail = s.drop_first();
        lemma_dot_encoding(s[0]);
        assert forall|j: int| 0 <= j < tail.len() implies tail[j] != '.' by {
            assert(tail[j] == s[j + 1]);
        }
        lemma_no_dot_bytes(tail);
        assert forall|k: int| 0 <= k < encode_utf8(s).len() implies encode_utf8(s)[k] != 0x2e by {
            if k < head.len() {
                assert(encode_utf8(s)[k] == head[k]);
            } else {
                assert(encode_utf8(s)[k] == encode_utf8(tail)[k - head.len()]);
            }
        }
    }
}

/// Behind bytes that are no `0x2e`, the first label goes on.
pub proof fn lemma_first_label_behind(before: Seq<u8>, rest: Seq<u8>)
    requires
        forall|k: int| 0 <= k < before.len() ==> before[k] != 0x2e,
    ensures
        first_label_len(before + rest) == before.len() + first_label_len(rest),
    decreases before.len(),
{
    if before.len() == 0 {
        assert(before + rest =~= rest);
    } else {
        let tail = before.drop_first();
        assert((before + rest)[0] == before[0]);
        assert((before + rest).drop_first() =~= tail + rest);
        assert forall|k: int| 0 <= k < tail.len() implies tail[k] != 0x2e by {
            assert(tail[k] == before[k + 1]);
        }
        lemma_first_label_behind(tail, rest);
    }
}

/// The first label of the encoding of a name is the encoding of its first
/// part, and what follows the dot behind it is the encoding of what follows
/// the dot in the name.
pub proof fn lemma_first_label_is_first_part(name: Seq<char>)
    ensures
        first_label_len(encode_utf8(name)) == encode_utf8(
            name.take(first_part_len(name) as int),
        ).len(),
        encode_utf8(name).take(first_label_len(encode_utf8(name)) as int) == encode_utf8(
            name.take(first_part_len(name) as int),
        ),
        first_part_len(name) < name.len() <==> first_label_len(encode_utf8(name)) < encode_utf8(
            name,
        ).len(),
        first_part_len(name) < name.len() ==> encode_utf8(name).skip(
            first_label_len(encode_utf8(name)) + 1 as int,
        ) == encode_utf8(name.skip(first_part_len(name) + 1 as int)),
{
    lemma_first_part_len(name);
    let k = first_part_len(name) as int;
    let part = name.take(k);
    let bytes = encode_utf8(name);
    let first = encode_utf8(part);
    lemma_no_dot_bytes(part);
    if k < name.len() {
        let dot = seq!['.'];
        let rest = name.skip(k + 1);
        assert(name =~= part + (dot + rest));
        lemma_encode_concat(part, dot + rest);
        lemma_encode_concat(dot, rest);
        lemma_dot_encoding('.');
        assert(dot[0] == '.');
        assert(dot.drop_first() =~= Seq::<char>::empty());
        assert(encode_utf8(dot.drop_first()) =~= Seq::<u8>::empty());
        assert(encode_utf8(dot) =~= seq![0x2eu8]);
        let behind = seq![0x2eu8] + encode_utf8(rest);
        assert(bytes == first + behind);
        assert(behind[0] == 0x2e);
        lemma_first_label_behind(first, behind);
        assert(bytes.take(first.len() as int) =~= first);
        assert(bytes.skip(first.len() + 1 as int) =~= encode_utf8(rest));
    } else {
        assert(part =~= name);
        assert(bytes + Seq::<u8>::empty() =~= bytes);
        lemma_first_label_behind(bytes, Seq::empty());
        assert(bytes.take(bytes.len() as int) =~= bytes);
    }
}

/// To split the bytes of a name at every byte `0x2e` is to split the name at
/// every dot: the wire form of a name is that of its characters.
pub proof fn lemma_write_name_by_chars(name: Seq<char>)
    ensures
        spec_write_name(encode_utf8(name)) == spec_write_chars(name),
    decreases name.len(),
{
    lemma_first_part_len(name);
    lemma_first_label_is_first_part(name);
    lemma_first_label_len(encode_utf8(name));
    let k = first_part_len(name);
    if k < name.len() {
        lemma_write_name_by_chars(name.skip(k + 1 as int));
    }
}

/// The parts joined by dots.
pub open spec fn dotted_chars(parts: Seq<Seq<char>>) -> Seq<char>
    decreases parts.len(),
{
    if parts.len() == 0 {
        Seq::empty()
    } else if parts.len() == 1 {
        parts[0]
    } else {
        parts[0] + seq!['.'] + dotted_chars(parts.drop_first())
    }
}

/// The characters that each label of a list encodes.
pub open spec fn label_chars(labels: Seq<Seq<u8>>) -> Seq<Seq<char>> {
    labels.map_values(|l: Seq<u8>| decode_utf8(l))
}

/// The labels of a name that is read are UTF-8, each of them.
pub proof fn lemma_collect_valid(i: Seq<u8>, buf: Seq<u8>, hops: nat)
    ensures
        spec_collect(i, buf, hops) matches Ok((_, labels)) ==> forall|k: int|
            0 <= k < labels.len() ==> valid_utf8(#[trigger] labels[k]),
    decreases hops, i.len(),
{
    if i.len() == 0 || i[0] == 0 {
    } else if i[0] >= 0xc0 {
        if i.len() >= 2 && pointer_target(i[0], i[1]) < buf.len() && hops > 0 {
            let there = buf.skip(pointer_target(i[0], i[1]));
            lemma_collect_valid(there, buf, (hops - 1) as nat);
        }
    } else if i.len() >= 1 + i[0] {
        lemma_collect_valid(i.skip(1 + i[0]), buf, hops);
    }
}

/// Labels that are UTF-8, joined by the byte `0x2e`, encode the characters
/// of the labels joined by dots.
pub proof fn lemma_dotted_by_chars(labels: Seq<Seq<u8>>)
    requires
        forall|k: int| 0 <= k < labels.len() ==> valid_utf8(#[trigger] labels[k]),
    ensures
        encode_utf8(dotted_chars(label_chars(labels))) == dotted(labels),
        decode_utf8(dotted(labels)) == dotted_chars(label_chars(labels)),
    decreases labels.len(),
{
    let parts = label_chars(labels);
    if labels.len() == 0 {
    } else {
        decode_utf8_encode_utf8(labels[0]);
        assert(parts[0] == decode_utf8(labels[0]));
        if labels.len() > 1 {
            let rest = labels.drop_first();
            assert forall|k: int| 0 <= k < rest.len() implies valid_utf8(#[trigger] rest[k]) by {
                assert(rest[k] == labels[k + 1]);
            }
            lemma_dotted_by_chars(rest);
            assert(parts.drop_first() =~= label_chars(rest));
            let dot = seq!['.'];
            lemma_encode_concat(parts[0] + dot, dotted_chars(parts.drop_first()));
            lemma_encode_concat(parts[0], dot);
            lemma_dot_encoding('.');
            assert(dot[0] == '.');
            assert(encode_utf8(dot.drop_first()) =~= Seq::<u8>::empty());
            assert(encode_utf8(dot) =~= seq![0x2eu8]);
        }
    }
    encode_utf8_decode_utf8(dotted_chars(parts));
}

/// A name that is read is its labels, each taken as UTF-8, joined by dots.
pub proof fn lemma_name_by_chars(i: Seq<u8>, buf: Seq<u8>)
    ensures
        spec_parse_domain_name(i, buf) matches Ok((_, name)) ==> name == dotted_chars(
            label_chars(spec_collect(i, buf, buf.len())->Ok_0.1),
        ),
{
    lemma_collect_valid(i, buf, buf.len());
    if let Ok((_, labels)) = spec_collect(i, buf, buf.len()) {
        lemma_dotted_by_chars(labels);
    }
}

} // verus!
