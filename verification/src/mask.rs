use vstd::prelude::*;

verus! {

/// The masking transform of RFC 6455, section 5.3: byte `i` of the payload
/// is XORed with byte `i % 4` of the masking key.
pub open spec fn apply_mask(payload: Seq<u8>, key: Seq<u8>) -> Seq<u8> {
    Seq::new(payload.len(), |i: int| payload[i] ^ key[i % 4])
}

/// Applies (or removes, the transform being its own inverse) the masking
/// key to `payload` in place.
pub fn unmask(payload: &mut [u8], mask: [u8; 4])
    ensures
        final(payload)@ == apply_mask(old(payload)@, mask@),
{
    let len = payload.len();
    let mut i: usize = 0;
    while i < len
        invariant
            0 <= i <= len,
            len == old(payload)@.len(),
            payload@.len() == len,
            mask@.len() == 4,
            forall|j: int| 0 <= j < i ==> payload@[j] == old(payload)@[j] ^ mask@[j % 4],
            forall|j: int| i <= j < len ==> payload@[j] == old(payload)@[j],
        decreases len - i,
    {
        let b = payload[i] ^ mask[i % 4];
        payload[i] = b;
        i = i + 1;
    }
    assert(payload@ =~= apply_mask(old(payload)@, mask@));
}

/// Law (masking is an involution): applying the same key twice gives back
/// the payload, so the receiver's unmasking undoes the sender's masking.
pub proof fn lemma_mask_involution(payload: Seq<u8>, key: Seq<u8>)
    requires
        key.len() == 4,
    ensures
        apply_mask(apply_mask(payload, key), key) == payload,
{
    let twice = apply_mask(apply_mask(payload, key), key);
    assert forall|i: int| 0 <= i < payload.len() implies twice[i] == payload[i] by {
        let a = payload[i];
        let k = key[i % 4];
        assert((a ^ k) ^ k == a) by (bit_vector);
    }
    assert(twice =~= payload);
}

/// Law (the key repeats every four bytes, at every offset): masking keeps
/// the length, XORs each of the first four bytes with the key byte of the
/// same position, and XORs any two bytes whose positions differ by a
/// multiple of four with the same key byte, however long the payload.
pub proof fn lemma_mask_key_stream(payload: Seq<u8>, key: Seq<u8>)
    requires
        key.len() == 4,
    ensures
        apply_mask(payload, key).len() == payload.len(),
        forall|i: int|
            0 <= i < 4 && i < payload.len() ==> #[trigger] apply_mask(payload, key)[i] == payload[i]
                ^ key[i],
        forall|i: int, j: int|
            0 <= i < payload.len() && 0 <= j < payload.len() && i % 4 == j % 4 ==> (
            #[trigger] apply_mask(payload, key)[i]) ^ payload[i] == (
            #[trigger] apply_mask(payload, key)[j]) ^ payload[j],
{
    let out = apply_mask(payload, key);
    assert forall|i: int| 0 <= i < payload.len() implies out[i] ^ payload[i] == key[i % 4] by {
        let a = payload[i];
        let k = key[i % 4];
        assert((a ^ k) ^ a == k) by (bit_vector);
    }
}

/// Law (masking in blocks): masking a payload whose first part is a whole
/// number of four-byte blocks is masking the two parts apart and joining
/// the results, so the key position never restarts inside a payload.
pub proof fn lemma_mask_concat(a: Seq<u8>, b: Seq<u8>, key: Seq<u8>)
    requires
        key.len() == 4,
        a.len() % 4 == 0,
    ensures
        apply_mask(a + b, key) == apply_mask(a, key) + apply_mask(b, key),
{
    let n = a.len() as int;
    let whole = apply_mask(a + b, key);
    let parts = apply_mask(a, key) + apply_mask(b, key);
    assert forall|i: int| n <= i < n + b.len() implies whole[i] == parts[i] by {
        let j = i - n;
        assert(i % 4 == j % 4) by (nonlinear_arith)
            requires
                n % 4 == 0,
                i == n + j,
                0 <= n,
                0 <= j,
        ;
    }
    assert(apply_mask(a + b, key) =~= apply_mask(a, key) + apply_mask(b, key));
}

} // verus!
