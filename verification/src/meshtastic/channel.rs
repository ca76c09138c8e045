//! The one-byte fingerprint of a channel.
use vstd::prelude::*;
use vstd::string::StringSliceAdditionalSpecFns;

verus! {

/// XOR of all bytes of `bytes`, starting from zero.
pub open spec fn xor_fold(bytes: Seq<u8>) -> u8
    decreases bytes.len(),
{
    if bytes.len() == 0 {
        0u8
    } else {
        xor_fold(bytes.drop_last()) ^ bytes.last()
    }
}

/// The fingerprint of a channel: the XOR of the UTF-8 bytes of its name
/// followed by the bytes of its key.
pub open spec fn channel_hash_spec(name: Seq<u8>, key: Seq<u8>) -> u8 {
    xor_fold(name + key)
}

/// Folding one more byte in XORs it onto the fold of the rest.
pub proof fn lemma_xor_fold_push(bytes: Seq<u8>, byte: u8)
    ensures
        xor_fold(bytes.push(byte)) == xor_fold(bytes) ^ byte,
{
    assert(bytes.push(byte).drop_last() =~= bytes);
}

/// XORs `bytes` onto `seed`, byte by byte.
fn fold_into(seed: u8, bytes: &[u8], Ghost(before): Ghost<Seq<u8>>) -> (res: u8)
    requires
        seed == xor_fold(before),
    ensures
        res == xor_fold(before + bytes@),
{
    let mut res: u8 = seed;
    let mut i: usize = 0;
    assert(before + bytes@.take(0) =~= before);
    while i < bytes.len()
        invariant
            i <= bytes.len(),
            res == xor_fold(before + bytes@.take(i as int)),
        decreases bytes.len() - i,
    {
        proof {
            lemma_xor_fold_push(before + bytes@.take(i as int), bytes@[i as int]);
            assert((before + bytes@.take(i as int)).push(bytes@[i as int]) =~= before
                + bytes@.take(i as int + 1));
        }
        res = res ^ bytes[i];
        i = i + 1;
    }
    assert(bytes@.take(bytes@.len() as int) =~= bytes@);
    res
}

/// Computes the fingerprint of the channel called `name` that is keyed with
/// `key`.
pub fn channel_hash(name: &str, key: &[u8]) -> (hash: u8)
    ensures
        hash == channel_hash_spec(name.spec_bytes(), key@),
{
    let name_bytes = name.as_bytes();
    let folded_name = fold_into(0u8, name_bytes, Ghost(Seq::empty()));
    assert(Seq::<u8>::empty() + name_bytes@ =~= name_bytes@);
    fold_into(folded_name, key, Ghost(name_bytes@))
}

/// The fold of a sequence is the fold of the sequence without one of its
/// bytes, XORed with that byte.
pub proof fn lemma_xor_fold_remove(bytes: Seq<u8>, i: int)
    requires
        0 <= i < bytes.len(),
    ensures
        xor_fold(bytes) == xor_fold(bytes.remove(i)) ^ bytes[i],
    decreases bytes.len(),
{
    if i == bytes.len() - 1 {
        assert(bytes.remove(i) =~= bytes.drop_last());
    } else {
        let init = bytes.drop_last();
        let last = bytes.last();
        lemma_xor_fold_remove(init, i);
        assert(bytes.remove(i) =~= init.remove(i).push(last));
        lemma_xor_fold_push(init.remove(i), last);
        let rest = xor_fold(init.remove(i));
        let taken = init[i];
        assert((rest ^ taken) ^ last == (rest ^ last) ^ taken) by (bit_vector);
    }
}

/// The fold of two sequences joined is the XOR of their folds.
pub proof fn lemma_xor_fold_concat(a: Seq<u8>, b: Seq<u8>)
    ensures
        xor_fold(a + b) == xor_fold(a) ^ xor_fold(b),
    decreases b.len(),
{
    if b.len() == 0 {
        assert(a + b =~= a);
        let x = xor_fold(a);
        assert(x ^ 0u8 == x) by (bit_vector);
    } else {
        lemma_xor_fold_concat(a, b.drop_last());
        assert((a + b).drop_last() =~= a + b.drop_last());
        let x = xor_fold(a);
        let y = xor_fold(b.drop_last());
        let z = b.last();
        assert((x ^ y) ^ z == x ^ (y ^ z)) by (bit_vector);
    }
}

/// The fold does not depend on the order of the bytes: two sequences that
/// hold the same bytes, each as often as the other, fold to the same value.
pub proof fn lemma_xor_fold_permutation(a: Seq<u8>, b: Seq<u8>)
    requires
        a.to_multiset() == b.to_multiset(),
    ensures
        xor_fold(a) == xor_fold(b),
    decreases a.len(),
{
    a.to_multiset_ensures();
    b.to_multiset_ensures();
    assert(a.len() == b.len());
    if a.len() > 0 {
        let x = a.last();
        assert(a[a.len() - 1] == x);
        assert(a.contains(x));
        assert(b.to_multiset().count(x) > 0);
        assert(b.contains(x));
        let j = choose|j: int| 0 <= j < b.len() && b[j] == x;
        assert(a.drop_last() =~= a.remove(a.len() - 1));
        assert(a.drop_last().to_multiset() =~= b.remove(j).to_multiset());
        lemma_xor_fold_permutation(a.drop_last(), b.remove(j));
        lemma_xor_fold_remove(b, j);
    }
}

/// The fingerprint of a channel is the fold of the bytes of its name and key
/// taken in any order.
pub proof fn lemma_channel_hash_any_order(name: Seq<u8>, key: Seq<u8>, shuffled: Seq<u8>)
    requires
        shuffled.to_multiset() == (name + key).to_multiset(),
    ensures
        channel_hash_spec(name, key) == xor_fold(shuffled),
{
    lemma_xor_fold_permutation(name + key, shuffled);
}

} // verus!
