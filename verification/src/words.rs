//! Sequences of numbers as bytes.

use vstd::bytes::{
    lemma_auto_spec_u32_to_from_le_bytes, lemma_auto_spec_u64_to_from_le_bytes,
    spec_u32_to_le_bytes, spec_u64_to_le_bytes, u32_to_le_bytes, u64_to_le_bytes,
};
use vstd::prelude::*;

verus! {

/// The little-endian bytes of numbers, one behind the other.
pub open spec fn encoded_words(words: Seq<u32>) -> Seq<u8> {
    Seq::new(4 * words.len(), |k: int| spec_u32_to_le_bytes(words[k / 4])[k % 4])
}

/// Encodes numbers as little-endian bytes, one behind the other.
pub fn encode_words(words: &Vec<u32>) -> (bytes: Vec<u8>)
    ensures
        bytes@ == encoded_words(words@),
{
    proof {
        lemma_auto_spec_u32_to_from_le_bytes();
    }
    let mut bytes: Vec<u8> = Vec::new();
    let mut i: usize = 0;
    while i < words.len()
        invariant
            i <= words@.len(),
            bytes@ == encoded_words(words@.take(i as int)),
            forall|x: u32| #[trigger] spec_u32_to_le_bytes(x).len() == 4,
        decreases words@.len() - i,
    {
        let ghost before = bytes@;
        let mut word: Vec<u8> = u32_to_le_bytes(words[i]);
        bytes.append(&mut word);
        proof {
            let more = encoded_words(words@.take(i + 1));
            assert forall|k: int| 0 <= k < bytes@.len() implies #[trigger] bytes@[k] == more[k] by {
                if k < 4 * i {
                    assert(before[k] == encoded_words(words@.take(i as int))[k]);
                } else {
                    assert(k / 4 == i && k % 4 == k - 4 * i);
                }
            }
            assert(bytes@ =~= more);
        }
        i = i + 1;
    }
    assert(words@.take(i as int) =~= words@);
    bytes
}

/// The little-endian bytes of addresses, one behind the other.
pub open spec fn encoded_addresses(addresses: Seq<u64>) -> Seq<u8> {
    Seq::new(8 * addresses.len(), |k: int| spec_u64_to_le_bytes(addresses[k / 8])[k % 8])
}

/// Encodes addresses as little-endian bytes, one behind the other.
pub fn encode_addresses(addresses: &Vec<u64>) -> (bytes: Vec<u8>)
    ensures
        bytes@ == encoded_addresses(addresses@),
{
    proof {
        lemma_auto_spec_u64_to_from_le_bytes();
    }
    let mut bytes: Vec<u8> = Vec::new();
    let mut i: usize = 0;
    while i < addresses.len()
        invariant
            i <= addresses@.len(),
            bytes@ == encoded_addresses(addresses@.take(i as int)),
            forall|x: u64| #[trigger] spec_u64_to_le_bytes(x).len() == 8,
        decreases addresses@.len() - i,
    {
        let ghost before = bytes@;
        let mut word: Vec<u8> = u64_to_le_bytes(addresses[i]);
        bytes.append(&mut word);
        proof {
            let more = encoded_addresses(addresses@.take(i + 1));
            assert forall|k: int| 0 <= k < bytes@.len() implies #[trigger] bytes@[k] == more[k] by {
                if k < 8 * i {
                    assert(before[k] == encoded_addresses(addresses@.take(i as int))[k]);
                } else {
                    assert(k / 8 == i && k % 8 == k - 8 * i);
                }
            }
            assert(bytes@ =~= more);
        }
        i = i + 1;
    }
    assert(addresses@.take(i as int) =~= addresses@);
    bytes
}

} // verus!
