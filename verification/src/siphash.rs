//! The keyed hash of dictionary keys: SipHash with one compression round and
//! three finalization rounds.

use vstd::bytes::{spec_u64_from_le_bytes, u64_from_le_bytes};
use vstd::prelude::*;
use vstd::slice::slice_subrange;

verus! {

/// `x` with its bits moved `n` places up, the top ones coming in at the bottom.
pub open spec fn rotated(x: u64, n: u64) -> u64 {
    (x << n) | (x >> ((64 - n) as u64))
}

fn rotate(x: u64, n: u64) -> (result: u64)
    requires
        0 < n < 64,
    ensures
        result == rotated(x, n),
{
    (x << n) | (x >> (64 - n))
}

/// The four words that the hash works on.
pub struct SipState {
    pub v0: u64,
    pub v1: u64,
    pub v2: u64,
    pub v3: u64,
}

/// The state after one round.
pub open spec fn sip_rounded(s: SipState) -> SipState {
    let a0 = s.v0.wrapping_add(s.v1);
    let a1 = rotated(s.v1, 13) ^ a0;
    let b0 = rotated(a0, 32);
    let a2 = s.v2.wrapping_add(s.v3);
    let a3 = rotated(s.v3, 16) ^ a2;
    let c0 = b0.wrapping_add(a3);
    let b3 = rotated(a3, 21) ^ c0;
    let b2 = a2.wrapping_add(a1);
    let b1 = rotated(a1, 17) ^ b2;
    SipState { v0: c0, v1: b1, v2: rotated(b2, 32), v3: b3 }
}

/// One round on the four words.
pub fn sip_round(v0: &mut u64, v1: &mut u64, v2: &mut u64, v3: &mut u64)
    ensures
        (SipState { v0: *final(v0), v1: *final(v1), v2: *final(v2), v3: *final(v3) })
            == sip_rounded(SipState { v0: *old(v0), v1: *old(v1), v2: *old(v2), v3: *old(v3) }),
{
    *v0 = v0.wrapping_add(*v1);
    *v1 = rotate(*v1, 13);
    *v1 = *v1 ^ *v0;
    *v0 = rotate(*v0, 32);
    *v2 = v2.wrapping_add(*v3);
    *v3 = rotate(*v3, 16);
    *v3 = *v3 ^ *v2;
    *v0 = v0.wrapping_add(*v3);
    *v3 = rotate(*v3, 21);
    *v3 = *v3 ^ *v0;
    *v2 = v2.wrapping_add(*v1);
    *v1 = rotate(*v1, 17);
    *v1 = *v1 ^ *v2;
    *v2 = rotate(*v2, 32);
}

/// The state before any input.
pub open spec fn sip_start(k0: u64, k1: u64) -> SipState {
    SipState {
        v0: k0 ^ 0x736f_6d65_7073_6575,
        v1: k1 ^ 0x646f_7261_6e64_6f6d,
        v2: k0 ^ 0x6c79_6765_6e65_7261,
        v3: k1 ^ 0x7465_6462_7974_6573,
    }
}

/// The state after one more word of input.
pub open spec fn sip_absorbed(s: SipState, word: u64) -> SipState {
    let r = sip_rounded(SipState { v3: s.v3 ^ word, ..s });
    SipState { v0: r.v0 ^ word, ..r }
}

/// The state after the first `n` whole words of `bytes`.
pub open spec fn sip_words(k0: u64, k1: u64, bytes: Seq<u8>, n: nat) -> SipState
    decreases n,
{
    if n == 0 {
        sip_start(k0, k1)
    } else {
        let m = (n - 1) as nat;
        sip_absorbed(
            sip_words(k0, k1, bytes, m),
            spec_u64_from_le_bytes(bytes.subrange((8 * m) as int, (8 * m + 8) as int)),
        )
    }
}

/// The last word: the length in its top byte, and the first `n` bytes of what
/// the whole words left over.
pub open spec fn sip_tail(bytes: Seq<u8>, n: nat) -> u64
    decreases n,
{
    if n == 0 {
        (bytes.len() as u64) << 56
    } else {
        let m = (n - 1) as nat;
        sip_tail(bytes, m) | ((bytes[(8 * (bytes.len() / 8) + m) as int] as u64) << (8 * m) as u64)
    }
}

/// The hash of `bytes` under the key `k0`, `k1`.
pub open spec fn sip_hash(k0: u64, k1: u64, bytes: Seq<u8>) -> u64 {
    let words = sip_words(k0, k1, bytes, bytes.len() / 8);
    let all = sip_absorbed(words, sip_tail(bytes, bytes.len() % 8));
    let end = sip_rounded(sip_rounded(sip_rounded(SipState { v2: all.v2 ^ 0xff, ..all })));
    end.v0 ^ end.v1 ^ end.v2 ^ end.v3
}

/// Hashes `bytes` under the key `k0`, `k1`.
pub fn siphash13(k0: u64, k1: u64, bytes: &[u8]) -> (hash: u64)
    ensures
        hash == sip_hash(k0, k1, bytes@),
{
    let mut v0: u64 = k0 ^ 0x736f_6d65_7073_6575;
    let mut v1: u64 = k1 ^ 0x646f_7261_6e64_6f6d;
    let mut v2: u64 = k0 ^ 0x6c79_6765_6e65_7261;
    let mut v3: u64 = k1 ^ 0x7465_6462_7974_6573;
    let len: usize = bytes.len();
    let words: usize = len / 8;
    let mut i: usize = 0;
    while i < words
        invariant
            i <= words,
            len == bytes@.len(),
            words == len / 8,
            (SipState { v0, v1, v2, v3 }) == sip_words(k0, k1, bytes@, i as nat),
        decreases words - i,
    {
        let word: u64 = u64_from_le_bytes(slice_subrange(bytes, 8 * i, 8 * i + 8));
        v3 = v3 ^ word;
        sip_round(&mut v0, &mut v1, &mut v2, &mut v3);
        v0 = v0 ^ word;
        i = i + 1;
    }
    let rest: usize = len % 8;
    let mut tail: u64 = (len as u64) << 56;
    let mut j: usize = 0;
    while j < rest
        invariant
            j <= rest,
            len == bytes@.len(),
            words == len / 8,
            rest == len % 8,
            tail == sip_tail(bytes@, j as nat),
        decreases rest - j,
    {
        let byte: u64 = bytes[8 * words + j] as u64;
        let shift: u64 = (8 * j) as u64;
        tail = tail | (byte << shift);
        j = j + 1;
    }
    v3 = v3 ^ tail;
    sip_round(&mut v0, &mut v1, &mut v2, &mut v3);
    v0 = v0 ^ tail;
    v2 = v2 ^ 0xff;
    sip_round(&mut v0, &mut v1, &mut v2, &mut v3);
    sip_round(&mut v0, &mut v1, &mut v2, &mut v3);
    sip_round(&mut v0, &mut v1, &mut v2, &mut v3);
    v0 ^ v1 ^ v2 ^ v3
}

} // verus!
