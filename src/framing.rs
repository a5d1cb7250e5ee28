//! Wire framing of sweep payloads: an 8-byte big-endian length, then exactly
//! that many payload bytes.

use vstd::prelude::*;

verus! {

/// Bytes in the length prefix of a frame.
pub const PREFIX_LEN: usize = 8;

/// `256` to the power `k`.
pub open spec fn pow256(k: nat) -> nat
    decreases k,
{
    if k == 0 {
        1
    } else {
        256 * pow256((k - 1) as nat)
    }
}

/// The number that bytes stand for, most significant first.
pub open spec fn be_value(b: Seq<u8>) -> nat
    decreases b.len(),
{
    if b.len() == 0 {
        0
    } else {
        be_value(b.drop_last()) * 256 + b.last() as nat
    }
}

/// The `k` lowest bytes of `n`, most significant first.
pub open spec fn be_bytes(n: nat, k: nat) -> Seq<u8>
    decreases k,
{
    if k == 0 {
        Seq::empty()
    } else {
        be_bytes(n / 256, (k - 1) as nat).push((n % 256) as u8)
    }
}

proof fn lemma_be_bytes_len(n: nat, k: nat)
    ensures
        be_bytes(n, k).len() == k,
    decreases k,
{
    if k > 0 {
        lemma_be_bytes_len(n / 256, (k - 1) as nat);
    }
}

proof fn lemma_be_value_bound(b: Seq<u8>)
    ensures
        be_value(b) < pow256(b.len()),
    decreases b.len(),
{
    if b.len() > 0 {
        let rest = b.drop_last();
        lemma_be_value_bound(rest);
        let v = be_value(rest);
        let p = pow256(rest.len());
        assert(v * 256 + b.last() < 256 * p) by (nonlinear_arith)
            requires
                v < p,
                b.last() < 256,
        ;
    }
}

/// Reading back the bytes of a number that fits in `k` bytes gives the number.
pub proof fn lemma_be_round_trip(n: nat, k: nat)
    requires
        n < pow256(k),
    ensures
        be_value(be_bytes(n, k)) == n,
    decreases k,
{
    if k > 0 {
        let q = n / 256;
        let p = pow256((k - 1) as nat);
        assert(q < p) by (nonlinear_arith)
            requires
                n < 256 * p,
                q == n / 256,
        ;
        lemma_be_round_trip(q, (k - 1) as nat);
        let b = be_bytes(n, k);
        assert(b.drop_last() =~= be_bytes(q, (k - 1) as nat));
        assert(n == q * 256 + n % 256);
    }
}

/// A frame's length prefix decodes to the length that was encoded.
pub proof fn lemma_prefix_round_trip(len: u64)
    ensures
        be_bytes(len as nat, PREFIX_LEN as nat).len() == PREFIX_LEN,
        be_value(be_bytes(len as nat, PREFIX_LEN as nat)) == len,
{
    lemma_be_bytes_len(len as nat, PREFIX_LEN as nat);
    reveal_with_fuel(pow256, 9);
    assert(pow256(8) == 0x1_0000_0000_0000_0000);
    lemma_be_round_trip(len as nat, PREFIX_LEN as nat);
}

fn encode_be(n: u64, k: usize) -> (r: Vec<u8>)
    ensures
        r@ == be_bytes(n as nat, k as nat),
    decreases k,
{
    if k == 0 {
        Vec::new()
    } else {
        let mut v = encode_be(n / 256, k - 1);
        v.push((n % 256) as u8);
        v
    }
}

/// The length prefix of a payload of `len` bytes.
pub fn encode_length(len: u64) -> (r: Vec<u8>)
    ensures
        r@ == be_bytes(len as nat, PREFIX_LEN as nat),
        r@.len() == PREFIX_LEN,
{
    proof {
        lemma_be_bytes_len(len as nat, PREFIX_LEN as nat);
    }
    encode_be(len, PREFIX_LEN)
}

/// The payload length that a frame's first eight bytes announce; `None` if
/// fewer than eight bytes are given.
pub fn decode_length(prefix: &[u8]) -> (r: Option<u64>)
    ensures
        r is None <==> prefix@.len() < PREFIX_LEN,
        r matches Some(n) ==> n == be_value(prefix@.subrange(0, PREFIX_LEN as int)),
{
    if prefix.len() < PREFIX_LEN {
        return None;
    }
    let mut acc: u64 = 0;
    let mut i: usize = 0;
    while i < PREFIX_LEN
        invariant
            i <= PREFIX_LEN <= prefix@.len(),
            acc == be_value(prefix@.subrange(0, i as int)),
        decreases PREFIX_LEN - i,
    {
        proof {
            lemma_be_value_bound(prefix@.subrange(0, i as int));
            reveal_with_fuel(pow256, 8);
            assert(pow256(7) == 0x100_0000_0000_0000);
            lemma_pow256_mono(i as nat, 7);
            assert(prefix@.subrange(0, i as int + 1).drop_last() =~= prefix@.subrange(0, i as int));
        }
        acc = acc * 256 + prefix[i] as u64;
        i = i + 1;
    }
    Some(acc)
}

proof fn lemma_pow256_mono(a: nat, b: nat)
    requires
        a <= b,
    ensures
        pow256(a) <= pow256(b),
    decreases b - a,
{
    if a < b {
        lemma_pow256_mono(a, (b - 1) as nat);
    }
}

/// A frame: the payload's length as an 8-byte big-endian prefix, then the
/// payload.
pub fn encode_frame(payload: &[u8]) -> (r: Vec<u8>)
    ensures
        r@.len() == PREFIX_LEN + payload@.len(),
        r@.subrange(0, PREFIX_LEN as int) == be_bytes(payload@.len(), PREFIX_LEN as nat),
        r@.subrange(PREFIX_LEN as int, r@.len() as int) == payload@,
{
    let mut out = encode_length(payload.len() as u64);
    let mut k: usize = 0;
    while k < payload.len()
        invariant
            k <= payload@.len(),
            out@ == be_bytes(payload@.len(), PREFIX_LEN as nat) + payload@.subrange(0, k as int),
        decreases payload@.len() - k,
    {
        out.push(payload[k]);
        k = k + 1;
        assert(out@ =~= be_bytes(payload@.len(), PREFIX_LEN as nat) + payload@.subrange(
            0,
            k as int,
        ));
    }
    proof {
        lemma_be_bytes_len(payload@.len(), PREFIX_LEN as nat);
        assert(out@.subrange(0, PREFIX_LEN as int) =~= be_bytes(
            payload@.len(),
            PREFIX_LEN as nat,
        ));
        assert(out@.subrange(PREFIX_LEN as int, out@.len() as int) =~= payload@);
    }
    out
}

} // verus!
