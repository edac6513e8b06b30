//! Little-endian encoding of integers.

use vstd::prelude::*;

verus! {

/// The `len` lowest bytes of `value`, the least significant one first.
pub open spec fn le_bytes(value: nat, len: nat) -> Seq<u8>
    decreases len,
{
    if len == 0 {
        Seq::empty()
    } else {
        seq![(value % 256) as u8] + le_bytes(value / 256, (len - 1) as nat)
    }
}

/// An encoding has exactly the number of bytes that were asked for.
pub broadcast proof fn lemma_le_bytes_len(value: nat, len: nat)
    ensures
        #[trigger] le_bytes(value, len).len() == len,
    decreases len,
{
    if len > 0 {
        lemma_le_bytes_len(value / 256, (len - 1) as nat);
    }
}

/// Appends the `len` lowest bytes of `value` to `out`, the least significant one first.
pub fn push_le(out: &mut Vec<u8>, value: u64, len: u8)
    ensures
        final(out)@ == old(out)@ + le_bytes(value as nat, len as nat),
{
    let mut rest: u64 = value;
    let mut left: u8 = len;
    let ghost start = out@;
    assert(out@ + le_bytes(rest as nat, left as nat) =~= start + le_bytes(
        value as nat,
        len as nat,
    ));
    while left > 0
        invariant
            out@ + le_bytes(rest as nat, left as nat) == start + le_bytes(value as nat, len as nat),
        decreases left,
    {
        let ghost before = out@;
        let byte: u8 = (rest % 256) as u8;
        out.push(byte);
        proof {
            let tail = le_bytes((rest / 256) as nat, (left - 1) as nat);
            assert(le_bytes(rest as nat, left as nat) == seq![byte] + tail);
            assert(before.push(byte) + tail =~= before + (seq![byte] + tail));
        }
        rest = rest / 256;
        left = left - 1;
    }
    assert(out@ + le_bytes(rest as nat, 0) =~= out@);
}

} // verus!
