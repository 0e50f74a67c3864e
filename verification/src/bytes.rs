//! Big-endian numbers, length-prefixed vectors and sequences of byte strings.

use vstd::prelude::*;

verus! {

/// The number that `s` spells in big-endian order.
pub open spec fn be_value(s: Seq<u8>) -> nat
    decreases s.len(),
{
    if s.len() == 0 {
        0
    } else {
        be_value(s.drop_last()) * 256 + s.last() as nat
    }
}

/// The lowest `width` bytes of `v` in big-endian order.
pub open spec fn be_bytes(v: nat, width: nat) -> Seq<u8>
    decreases width,
{
    if width == 0 {
        Seq::empty()
    } else {
        be_bytes(v / 256, (width - 1) as nat).push((v % 256) as u8)
    }
}

/// How many numbers `width` bytes can spell.
pub open spec fn be_limit(width: nat) -> nat
    decreases width,
{
    if width == 0 {
        1
    } else {
        be_limit((width - 1) as nat) * 256
    }
}

/// A vector on the wire: its length in `width` bytes, then its content.
pub open spec fn prefixed(content: Seq<u8>, width: nat) -> Seq<u8> {
    be_bytes(content.len(), width) + content
}

/// The vector with a `width`-byte length that `s` starts with, and what follows it.
pub open spec fn take_prefixed(s: Seq<u8>, width: nat) -> Option<(Seq<u8>, Seq<u8>)> {
    if s.len() < width {
        None
    } else {
        let end = width + be_value(s.take(width as int));
        if s.len() < end {
            None
        } else {
            Some((s.subrange(width as int, end as int), s.skip(end as int)))
        }
    }
}

/// The contents of each vector of bytes in `v`.
pub open spec fn vec_views(v: Seq<Vec<u8>>) -> Seq<Seq<u8>> {
    Seq::new(v.len(), |i: int| v[i]@)
}

/// The contents of each slice of bytes in `v`.
pub open spec fn slice_views(v: Seq<&[u8]>) -> Seq<Seq<u8>> {
    Seq::new(v.len(), |i: int| v[i]@)
}

/// Writing a number gives as many bytes as were asked for.
pub proof fn lemma_be_bytes_len(v: nat, width: nat)
    ensures
        be_bytes(v, width).len() == width,
    decreases width,
{
    if width > 0 {
        lemma_be_bytes_len(v / 256, (width - 1) as nat);
    }
}

/// A string of bytes spells a number below the limit of its width.
pub proof fn lemma_be_value_bound(s: Seq<u8>)
    ensures
        be_value(s) < be_limit(s.len()),
    decreases s.len(),
{
    if s.len() > 0 {
        lemma_be_value_bound(s.drop_last());
    }
}

/// Reading back a written number gives that number, if the width can hold it.
pub proof fn law_be_value_of_bytes(v: nat, width: nat)
    requires
        v < be_limit(width),
    ensures
        be_value(be_bytes(v, width)) == v,
    decreases width,
{
    if width > 0 {
        law_be_value_of_bytes(v / 256, (width - 1) as nat);
        let init = be_bytes(v / 256, (width - 1) as nat);
        assert(be_bytes(v, width).drop_last() =~= init);
    }
}

/// Writing the number that a string of bytes spells gives that string.
pub proof fn law_be_bytes_of_value(s: Seq<u8>)
    ensures
        be_bytes(be_value(s), s.len()) == s,
    decreases s.len(),
{
    if s.len() > 0 {
        law_be_bytes_of_value(s.drop_last());
        assert(be_value(s) / 256 == be_value(s.drop_last()));
        assert(s.drop_last().push(s.last()) =~= s);
    } else {
        assert(be_bytes(be_value(s), s.len()) =~= s);
    }
}

/// A string starts with a vector exactly when it is the vector's encoding and
/// what follows it.
pub proof fn law_take_prefixed(s: Seq<u8>, width: nat, content: Seq<u8>, rest: Seq<u8>)
    ensures
        take_prefixed(s, width) == Some((content, rest)) <==> {
            &&& content.len() < be_limit(width)
            &&& s == prefixed(content, width) + rest
        },
{
    if take_prefixed(s, width) == Some((content, rest)) {
        let head = s.take(width as int);
        lemma_be_value_bound(head);
        law_be_bytes_of_value(head);
        assert(s =~= prefixed(content, width) + rest);
    }
    if content.len() < be_limit(width) && s == prefixed(content, width) + rest {
        let head = be_bytes(content.len(), width);
        lemma_be_bytes_len(content.len(), width);
        law_be_value_of_bytes(content.len(), width);
        assert(s.take(width as int) =~= head);
        assert(s.subrange(width as int, (width + content.len()) as int) =~= content);
        assert(s.skip((width + content.len()) as int) =~= rest);
    }
}

/// A vector, its length and what follows it make up the whole.
pub proof fn lemma_take_prefixed_len(s: Seq<u8>, width: nat)
    ensures
        take_prefixed(s, width) matches Some((content, rest)) ==> width + content.len()
            + rest.len() == s.len(),
{
}

/// Appending a vector of bytes appends its content.
pub proof fn lemma_vec_views_push(v: Seq<Vec<u8>>, b: Vec<u8>)
    ensures
        vec_views(v.push(b)) == vec_views(v).push(b@),
{
    assert(vec_views(v.push(b)) =~= vec_views(v).push(b@));
}

/// Big-endian order: nothing spells zero, and a further byte counts once where
/// every byte ahead of it counts 256 times as much as before.
pub proof fn law_be_value_positional(s: Seq<u8>, b: u8)
    ensures
        be_value(Seq::empty()) == 0,
        be_value(s.push(b)) == be_value(s) * 256 + b,
{
    assert(s.push(b).drop_last() =~= s);
}

/// A further byte multiplies by 256 how many numbers can be spelled.
pub proof fn law_be_limit(width: nat)
    ensures
        be_limit(0) == 1,
        be_limit(width + 1) == be_limit(width) * 256,
        be_limit(1) == 0x100,
        be_limit(2) == 0x1_0000,
        be_limit(3) == 0x100_0000,
{
    reveal_with_fuel(be_limit, 4);
}

/// A vector on the wire starts with its length, and its content is all that
/// follows.
pub proof fn law_prefixed_layout(content: Seq<u8>, width: nat)
    requires
        content.len() < be_limit(width),
    ensures
        prefixed(content, width).len() == width + content.len(),
        be_value(prefixed(content, width).take(width as int)) == content.len(),
        prefixed(content, width).skip(width as int) == content,
{
    lemma_be_bytes_len(content.len(), width);
    law_be_value_of_bytes(content.len(), width);
    assert(prefixed(content, width).take(width as int) =~= be_bytes(content.len(), width));
    assert(prefixed(content, width).skip(width as int) =~= content);
}

/// The contents of byte strings stand one for one, in their order.
pub proof fn law_views(v: Seq<Vec<u8>>, s: Seq<&[u8]>, i: int)
    ensures
        vec_views(v).len() == v.len(),
        0 <= i < v.len() ==> vec_views(v)[i] == v[i]@,
        slice_views(s).len() == s.len(),
        0 <= i < s.len() ==> slice_views(s)[i] == s[i]@,
{
}

} // verus!
