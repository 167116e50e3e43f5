use vstd::prelude::*;

verus! {

/// The lowest `n` bytes of `x`, least significant first.
pub open spec fn le_bytes(x: nat, n: nat) -> Seq<u8>
    decreases n,
{
    if n == 0 {
        Seq::empty()
    } else {
        seq![(x % 256) as u8] + le_bytes(x / 256, (n - 1) as nat)
    }
}

/// The two's-complement bit pattern of a signed 64-bit value, as a natural number.
pub open spec fn twos_complement(v: i64) -> nat {
    if v >= 0 {
        v as nat
    } else {
        (v + 0x1_0000_0000_0000_0000) as nat
    }
}

/// The eight little-endian bytes of a prediction.
pub open spec fn prediction_bytes(v: i64) -> Seq<u8> {
    le_bytes(twos_complement(v), 8)
}

/// What a commitment hashes: prediction bytes, then salt, then participant identity.
pub open spec fn preimage(prediction: i64, salt: Seq<u8>, participant: Seq<u8>) -> Seq<u8> {
    prediction_bytes(prediction) + salt + participant
}

/// The Keccak-256 digest of a byte string.
pub uninterp spec fn keccak_of(data: Seq<u8>) -> Seq<u8>;

/// Relies on `solana_program::keccak::hash` (reached through `anchor_lang`):
/// its 32 bytes are the Keccak-256 digest of the input, a function of the input alone.
#[verifier::external_body]
fn keccak256(data: &Vec<u8>) -> (r: [u8; 32])
    ensures
        r@ == keccak_of(data@),
{
    anchor_lang::solana_program::keccak::hash(data.as_slice()).0
}

/// The little-endian bytes of a prediction, as `i64::to_le_bytes` lays them out.
pub fn prediction_le_bytes(v: i64) -> (r: Vec<u8>)
    ensures
        r@ == prediction_bytes(v),
{
    let u: u64 = if v >= 0 {
        v as u64
    } else {
        0xFFFF_FFFF_FFFF_FFFFu64 - ((-(v + 1)) as u64)
    };
    assert(u as nat == twos_complement(v));
    let mut x: u64 = u;
    let mut out: Vec<u8> = Vec::new();
    let mut k: usize = 0;
    while k < 8
        invariant
            k <= 8,
            out@.len() == k,
            out@ + le_bytes(x as nat, (8 - k) as nat) == le_bytes(u as nat, 8),
        decreases 8 - k,
    {
        let b: u8 = (x % 256) as u8;
        proof {
            let rest = le_bytes((x / 256) as nat, (8 - k - 1) as nat);
            assert(le_bytes(x as nat, (8 - k) as nat) == seq![b] + rest);
            assert(out@.push(b) + rest =~= out@ + (seq![b] + rest));
        }
        out.push(b);
        x = x / 256;
        k = k + 1;
    }
    assert(le_bytes(x as nat, 0) =~= Seq::<u8>::empty());
    assert(out@ =~= out@ + le_bytes(x as nat, 0));
    out
}

/// Appends every byte of `src` to `out`.
fn append_bytes(out: &mut Vec<u8>, src: &[u8; 32])
    ensures
        final(out)@ == old(out)@ + src@,
{
    let mut i: usize = 0;
    while i < 32
        invariant
            i <= 32,
            src@.len() == 32,
            out@ == old(out)@ + src@.subrange(0, i as int),
        decreases 32 - i,
    {
        proof {
            assert(src@.subrange(0, i + 1) =~= src@.subrange(0, i as int).push(src@[i as int]));
        }
        out.push(src[i]);
        i = i + 1;
    }
    assert(src@.subrange(0, 32) =~= src@);
}

/// The bytes a commitment digest is taken over.
pub fn hash_preimage(prediction: i64, salt: &[u8; 32], participant: &[u8; 32]) -> (r: Vec<u8>)
    ensures
        r@ == preimage(prediction, salt@, participant@),
{
    let mut out = prediction_le_bytes(prediction);
    append_bytes(&mut out, salt);
    append_bytes(&mut out, participant);
    out
}

/// The commitment a participant publishes for a prediction and a salt.
pub fn commitment_hash_of(prediction: i64, salt: &[u8; 32], participant: &[u8; 32]) -> (r: [u8; 32])
    ensures
        r@ == keccak_of(preimage(prediction, salt@, participant@)),
{
    let data = hash_preimage(prediction, salt, participant);
    keccak256(&data)
}

/// Byte-for-byte equality of two 32-byte values (digests, identities).
pub fn bytes32_eq(a: &[u8; 32], b: &[u8; 32]) -> (r: bool)
    ensures
        r == (a@ == b@),
{
    let mut i: usize = 0;
    while i < 32
        invariant
            i <= 32,
            a@.len() == 32,
            b@.len() == 32,
            forall|j: int| 0 <= j < i ==> a@[j] == b@[j],
        decreases 32 - i,
    {
        if a[i] != b[i] {
            return false;
        }
        i = i + 1;
    }
    assert(a@ =~= b@);
    true
}

/// Whether `hash` is the commitment to `prediction` and `salt` by `participant`.
pub fn verify(hash: &[u8; 32], prediction: i64, salt: &[u8; 32], participant: &[u8; 32]) -> (r: bool)
    ensures
        r == (hash@ == keccak_of(preimage(prediction, salt@, participant@))),
{
    let computed = commitment_hash_of(prediction, salt, participant);
    bytes32_eq(&computed, hash)
}

/// `256ⁿ`.
pub open spec fn pow256(n: nat) -> nat
    decreases n,
{
    if n == 0 {
        1
    } else {
        256 * pow256((n - 1) as nat)
    }
}

proof fn lemma_le_bytes_len(x: nat, n: nat)
    ensures
        le_bytes(x, n).len() == n,
    decreases n,
{
    if n > 0 {
        lemma_le_bytes_len(x / 256, (n - 1) as nat);
    }
}

proof fn lemma_le_bytes_injective(x: nat, y: nat, n: nat)
    requires
        x < pow256(n),
        y < pow256(n),
        le_bytes(x, n) == le_bytes(y, n),
    ensures
        x == y,
    decreases n,
{
    if n > 0 {
        let m = (n - 1) as nat;
        let p = pow256(m);
        assert(le_bytes(x, n)[0] == le_bytes(y, n)[0]);
        let bx = x % 256;
        let by_ = y % 256;
        assert(((bx as u8) as int) == bx);
        assert(((by_ as u8) as int) == by_);
        assert(le_bytes(x, n) == seq![bx as u8] + le_bytes(x / 256, m));
        assert(le_bytes(y, n) == seq![by_ as u8] + le_bytes(y / 256, m));
        assert((seq![bx as u8] + le_bytes(x / 256, m))[0] == bx as u8);
        assert((seq![by_ as u8] + le_bytes(y / 256, m))[0] == by_ as u8);
        assert(x % 256 == y % 256);
        lemma_le_bytes_len(x / 256, m);
        lemma_le_bytes_len(y / 256, m);
        assert(le_bytes(x / 256, m) =~= le_bytes(x, n).subrange(1, n as int));
        assert(le_bytes(y / 256, m) =~= le_bytes(y, n).subrange(1, n as int));
        assert(x / 256 < p && y / 256 < p) by (nonlinear_arith)
            requires
                x < 256 * p,
                y < 256 * p,
        ;
        lemma_le_bytes_injective(x / 256, y / 256, m);
        assert(x == y) by (nonlinear_arith)
            requires
                x / 256 == y / 256,
                x % 256 == y % 256,
        ;
    }
}

/// A commitment binds its opening: two openings with the same preimage are the
/// same prediction, salt and identity. So flipping any bit of any of the three
/// changes what is hashed, and `verify` accepts the changed opening only on a
/// Keccak-256 collision.
pub proof fn lemma_preimage_injective(
    pred_a: i64,
    salt_a: Seq<u8>,
    who_a: Seq<u8>,
    pred_b: i64,
    salt_b: Seq<u8>,
    who_b: Seq<u8>,
)
    requires
        salt_a.len() == 32,
        salt_b.len() == 32,
        who_a.len() == 32,
        who_b.len() == 32,
        preimage(pred_a, salt_a, who_a) == preimage(pred_b, salt_b, who_b),
    ensures
        pred_a == pred_b,
        salt_a == salt_b,
        who_a == who_b,
{
    let a = preimage(pred_a, salt_a, who_a);
    lemma_le_bytes_len(twos_complement(pred_a), 8);
    lemma_le_bytes_len(twos_complement(pred_b), 8);
    assert(prediction_bytes(pred_a) =~= a.subrange(0, 8));
    assert(prediction_bytes(pred_b) =~= a.subrange(0, 8));
    assert(salt_a =~= a.subrange(8, 40));
    assert(salt_b =~= a.subrange(8, 40));
    assert(who_a =~= a.subrange(40, 72));
    assert(who_b =~= a.subrange(40, 72));
    reveal_with_fuel(pow256, 9);
    assert(pow256(8) == 0x1_0000_0000_0000_0000);
    lemma_le_bytes_injective(twos_complement(pred_a), twos_complement(pred_b), 8);
}

} // verus!
