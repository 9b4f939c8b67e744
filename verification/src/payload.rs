//! Payload framing: a message occupies a fixed-size buffer slot, and its
//! payload is the content of the slot up to the first zero byte.

use vstd::prelude::*;

verus! {

/// Index of the first zero byte of `buf`, or `buf.len()` when it holds none.
pub open spec fn first_zero(buf: Seq<u8>) -> int
    decreases buf.len(),
{
    if buf.len() == 0 || buf[0] == 0 {
        0
    } else {
        1 + first_zero(buf.drop_first())
    }
}

/// The payload carried by a buffer slot: everything before the first zero byte.
pub open spec fn payload_of(buf: Seq<u8>) -> Seq<u8> {
    buf.take(first_zero(buf))
}

/// A payload laid out in a slot of `size` bytes, the unused tail filled with zeros.
pub open spec fn padded(payload: Seq<u8>, size: nat) -> Seq<u8> {
    payload + Seq::new((size - payload.len()) as nat, |i: int| 0u8)
}

/// `first_zero` lies inside the buffer, no byte before it is zero, and it
/// stops on a zero byte unless it reached the end.
pub proof fn lemma_first_zero_bounds(buf: Seq<u8>)
    ensures
        0 <= first_zero(buf) <= buf.len(),
        forall|i: int| 0 <= i < first_zero(buf) ==> buf[i] != 0,
        first_zero(buf) < buf.len() ==> buf[first_zero(buf)] == 0,
    decreases buf.len(),
{
    if buf.len() == 0 || buf[0] == 0 {
    } else {
        let rest = buf.drop_first();
        lemma_first_zero_bounds(rest);
        assert forall|i: int| 0 <= i < first_zero(buf) implies buf[i] != 0 by {
            if i > 0 {
                assert(buf[i] == rest[i - 1]);
            }
        }
        assert(first_zero(buf) < buf.len() ==> buf[first_zero(buf)] == rest[first_zero(rest)]);
    }
}

/// Any position that is preceded by no zero byte, and that is the end of the
/// buffer or holds a zero byte, is the first zero.
pub proof fn lemma_first_zero_is(buf: Seq<u8>, k: int)
    requires
        0 <= k <= buf.len(),
        forall|i: int| 0 <= i < k ==> buf[i] != 0,
        k < buf.len() ==> buf[k] == 0,
    ensures
        first_zero(buf) == k,
{
    lemma_first_zero_bounds(buf);
    let f = first_zero(buf);
    if f < k {
        assert(buf[f] == 0);
    } else if k < f {
        assert(buf[k] == 0);
    }
}

/// The payload is the longest zero-free prefix of the buffer.
pub proof fn lemma_payload_is_zero_free_prefix(buf: Seq<u8>)
    ensures
        payload_of(buf).is_prefix_of(buf),
        forall|i: int| 0 <= i < payload_of(buf).len() ==> payload_of(buf)[i] != 0,
        payload_of(buf).len() < buf.len() ==> buf[payload_of(buf).len() as int] == 0,
{
    lemma_first_zero_bounds(buf);
}

/// Zero padding is stripped in full: a payload without a zero byte, laid out
/// in a slot that is large enough, is read back unchanged.
pub proof fn lemma_padding_is_stripped(payload: Seq<u8>, size: nat)
    requires
        payload.len() <= size,
        forall|i: int| 0 <= i < payload.len() ==> payload[i] != 0,
    ensures
        payload_of(padded(payload, size)) == payload,
{
    let slot = padded(payload, size);
    assert forall|i: int| 0 <= i < payload.len() implies slot[i] != 0 by {
        assert(slot[i] == payload[i]);
    }
    lemma_first_zero_is(slot, payload.len() as int);
    assert(slot.take(payload.len() as int) =~= payload);
}

/// A payload is cut at its first zero byte: when that byte stands at
/// position `at`, exactly the `at` bytes before it are read back.
pub proof fn lemma_payload_cut_at_first_zero(payload: Seq<u8>, at: int, size: nat)
    requires
        payload.len() <= size,
        0 <= at < payload.len(),
        payload[at] == 0,
        forall|i: int| 0 <= i < at ==> payload[i] != 0,
    ensures
        payload_of(padded(payload, size)) == payload.take(at),
{
    let slot = padded(payload, size);
    assert forall|i: int| 0 <= i < at implies slot[i] != 0 by {
        assert(slot[i] == payload[i]);
    }
    assert(slot[at] == payload[at]);
    lemma_first_zero_is(slot, at);
    assert(slot.take(at) =~= payload.take(at));
}

/// Extracts the payload from a receive buffer.
pub fn trim_payload(buf: &Vec<u8>) -> (payload: Vec<u8>)
    ensures
        payload@ == payload_of(buf@),
{
    let mut payload: Vec<u8> = Vec::new();
    let mut i: usize = 0;
    while i < buf.len() && buf[i] != 0
        invariant
            0 <= i <= buf.len(),
            payload@ == buf@.take(i as int),
            forall|j: int| 0 <= j < i ==> buf@[j] != 0,
        decreases buf.len() - i,
    {
        payload.push(buf[i]);
        i = i + 1;
        assert(payload@ =~= buf@.take(i as int));
    }
    proof {
        lemma_first_zero_is(buf@, i as int);
    }
    payload
}

/// A receive buffer of `size` bytes, all zero.
pub fn zeroed_buffer(size: usize) -> (buf: Vec<u8>)
    ensures
        buf@ == Seq::new(size as nat, |i: int| 0u8),
{
    let mut buf: Vec<u8> = Vec::new();
    let mut i: usize = 0;
    while i < size
        invariant
            0 <= i <= size,
            buf@ == Seq::new(i as nat, |j: int| 0u8),
        decreases size - i,
    {
        buf.push(0u8);
        i = i + 1;
        assert(buf@ =~= Seq::new(i as nat, |j: int| 0u8));
    }
    buf
}

} // verus!
