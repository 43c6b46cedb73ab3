//! What the hash of dictionary keys is: a run of states that takes in the key of the context
//! and every byte of the input, and that could be walked back.

use vstd::bytes::{
    lemma_auto_spec_u64_to_from_le_bytes, spec_u64_from_le_bytes, spec_u64_to_le_bytes,
    spec_u64_to_le_bytes_open, spec_u64_to_le_bytes_to_open,
};
use vstd::prelude::*;

use crate::siphash::{
    rotated, sip_absorbed, sip_hash, sip_round, sip_rounded, sip_start, sip_tail, sip_words,
    siphash13, SipState,
};

verus! {

/// `x` with its bits moved `n` places down, the bottom ones coming in at the top.
pub open spec fn turned_back(x: u64, n: u64) -> u64 {
    (x >> n) | (x << ((64 - n) as u64))
}

/// The state that one round was made on.
pub open spec fn undone(t: SipState) -> SipState {
    let sum_b = turned_back(t.v2, 32);
    let b = turned_back(t.v1 ^ sum_b, 17);
    let c = sum_b.wrapping_sub(b);
    let d = turned_back(t.v3 ^ t.v0, 21);
    let sum_a = turned_back(t.v0.wrapping_sub(d), 32);
    let v1 = turned_back(b ^ sum_a, 13);
    let v3 = turned_back(d ^ c, 16);
    SipState { v0: sum_a.wrapping_sub(v1), v1, v2: c.wrapping_sub(v3), v3 }
}

proof fn lemma_turned_back(x: u64, n: u64)
    requires
        0 < n < 64,
    ensures
        turned_back(rotated(x, n), n) == x,
{
    let m = (64 - n) as u64;
    let y = rotated(x, n);
    assert((y >> n) | (y << m) == x) by (bit_vector)
        requires
            0 < n < 64,
            m == 64 - n,
            y == (x << n) | (x >> m),
    ;
}

proof fn lemma_crossed_twice(x: u64, y: u64)
    ensures
        (x ^ y) ^ y == x,
{
    assert((x ^ y) ^ y == x) by (bit_vector);
}

proof fn lemma_undone(s: SipState)
    ensures
        undone(sip_rounded(s)) == s,
{
    let a0 = s.v0.wrapping_add(s.v1);
    let a1 = rotated(s.v1, 13) ^ a0;
    let b0 = rotated(a0, 32);
    let a2 = s.v2.wrapping_add(s.v3);
    let a3 = rotated(s.v3, 16) ^ a2;
    let c0 = b0.wrapping_add(a3);
    let b2 = a2.wrapping_add(a1);
    lemma_turned_back(b2, 32);
    lemma_crossed_twice(rotated(a1, 17), b2);
    lemma_turned_back(a1, 17);
    lemma_crossed_twice(rotated(a3, 21), c0);
    lemma_turned_back(a3, 21);
    lemma_turned_back(a0, 32);
    lemma_crossed_twice(rotated(s.v1, 13), a0);
    lemma_turned_back(s.v1, 13);
    lemma_crossed_twice(rotated(s.v3, 16), a2);
    lemma_turned_back(s.v3, 16);
}

/// A round can be undone, so that no two states become one.
pub proof fn law_round_can_be_undone(v0: &mut u64, v1: &mut u64, v2: &mut u64, v3: &mut u64)
    requires
        call_ensures(sip_round, (v0, v1, v2, v3), ()),
    ensures
        undone(
            SipState { v0: *final(v0), v1: *final(v1), v2: *final(v2), v3: *final(v3) },
        ) == (SipState { v0: *old(v0), v1: *old(v1), v2: *old(v2), v3: *old(v3) }),
{
    lemma_undone(SipState { v0: *v0, v1: *v1, v2: *v2, v3: *v3 });
}

/// `t` is the state after `word` was taken in by `s`.
pub open spec fn takes_in(s: SipState, word: u64, t: SipState) -> bool {
    undone(SipState { v0: t.v0 ^ word, ..t }) == (SipState { v3: s.v3 ^ word, ..s })
}

/// The bytes that the whole words of an input leave over.
pub open spec fn left_over(bytes: Seq<u8>) -> Seq<u8> {
    bytes.skip(8 * (bytes.len() as int / 8))
}

/// The last word holds the bytes that are left over, then zeros, then the length.
pub open spec fn is_last_word(bytes: Seq<u8>, word: u64) -> bool {
    spec_u64_to_le_bytes(word) == left_over(bytes) + Seq::new(
        (7 - left_over(bytes).len()) as nat,
        |i: int| 0u8,
    ) + seq![(bytes.len() % 256) as u8]
}

/// The states go from the key of the context over every word of the input and the last
/// word, and the hash is what three more rounds leave.
pub open spec fn is_run(
    k0: u64,
    k1: u64,
    bytes: Seq<u8>,
    words: Seq<u64>,
    states: Seq<SipState>,
    end: SipState,
    hash: u64,
) -> bool {
    let n = bytes.len() as int / 8;
    &&& words.len() == n + 1
    &&& states.len() == n + 2
    &&& states[0].v0 == k0 ^ 0x736f_6d65_7073_6575
    &&& states[0].v1 == k1 ^ 0x646f_7261_6e64_6f6d
    &&& states[0].v2 == k0 ^ 0x6c79_6765_6e65_7261
    &&& states[0].v3 == k1 ^ 0x7465_6462_7974_6573
    &&& forall|i: int|
        0 <= i < n ==> spec_u64_to_le_bytes(#[trigger] words[i]) == bytes.subrange(8 * i, 8 * i + 8)
    &&& is_last_word(bytes, words[n])
    &&& forall|i: int|
        #![trigger states[i]]
        0 <= i <= n ==> takes_in(states[i], words[i], states[i + 1])
    &&& undone(undone(undone(end))) == (SipState { v2: states[n + 1].v2 ^ 0xff, ..states[n + 1] })
    &&& hash == end.v0 ^ end.v1 ^ end.v2 ^ end.v3
}

spec fn byte_at(x: u64, j: u64) -> u64 {
    (x >> ((8 * j) as u64)) & 0xff
}

proof fn lemma_tail(bytes: Seq<u8>, n: nat)
    requires
        n <= bytes.len() % 8,
        bytes.len() <= u64::MAX,
    ensures
        forall|j: u64|
            #![trigger byte_at(sip_tail(bytes, n), j)]
            j < 8 ==> byte_at(sip_tail(bytes, n), j) == if j == 7 {
                (bytes.len() % 256) as u64
            } else if j < n {
                left_over(bytes)[j as int] as u64
            } else {
                0
            },
    decreases n,
{
    let t = sip_tail(bytes, n);
    if n == 0 {
        let l = bytes.len() as u64;
        assert forall|j: u64| j < 8 implies #[trigger] byte_at(t, j) == if j == 7 {
            (bytes.len() % 256) as u64
        } else {
            0
        } by {
            let shift = (8 * j) as u64;
            assert(((l << 56) >> shift) & 0xff == if shift == 56 {
                l % 256
            } else {
                0
            }) by (bit_vector)
                requires
                    shift == 0 || shift == 8 || shift == 16 || shift == 24 || shift == 32 || shift
                        == 40 || shift == 48 || shift == 56,
            ;
        }
    } else {
        let m = (n - 1) as nat;
        lemma_tail(bytes, m);
        let s = sip_tail(bytes, m);
        let b = bytes[(8 * (bytes.len() / 8) + m) as int] as u64;
        let at = (8 * m) as u64;
        assert(left_over(bytes)[m as int] == bytes[(8 * (bytes.len() / 8) + m) as int]);
        assert(byte_at(s, m as u64) == 0);
        assert forall|j: u64| j < 8 implies #[trigger] byte_at(t, j) == if j == 7 {
            (bytes.len() % 256) as u64
        } else if j < n {
            left_over(bytes)[j as int] as u64
        } else {
            0
        } by {
            let shift = (8 * j) as u64;
            assert(byte_at(s, j) == (s >> shift) & 0xff);
            assert(((s | (b << at)) >> shift) & 0xff == if shift == at {
                b
            } else {
                (s >> shift) & 0xff
            }) by (bit_vector)
                requires
                    shift == 0 || shift == 8 || shift == 16 || shift == 24 || shift == 32 || shift
                        == 40 || shift == 48 || shift == 56,
                    at == 0 || at == 8 || at == 16 || at == 24 || at == 32 || at == 40 || at == 48,
                    b < 256,
                    (s >> at) & 0xff == 0,
            ;
        }
    }
}

proof fn lemma_last_word(bytes: Seq<u8>)
    requires
        bytes.len() <= u64::MAX,
    ensures
        is_last_word(bytes, sip_tail(bytes, bytes.len() % 8)),
{
    let n = bytes.len() % 8;
    let x = sip_tail(bytes, n);
    lemma_tail(bytes, n);
    spec_u64_to_le_bytes_to_open(x);
    let said = left_over(bytes) + Seq::new((7 - left_over(bytes).len()) as nat, |i: int| 0u8)
        + seq![(bytes.len() % 256) as u8];
    assert(left_over(bytes).len() == n);
    assert(said.len() == 8);
    assert(x & 0xff == (x >> 0) & 0xff) by (bit_vector);
    assert(byte_at(x, 0) == x & 0xff);
    assert(byte_at(x, 1) == (x >> 8) & 0xff);
    assert(byte_at(x, 2) == (x >> 16) & 0xff);
    assert(byte_at(x, 3) == (x >> 24) & 0xff);
    assert(byte_at(x, 4) == (x >> 32) & 0xff);
    assert(byte_at(x, 5) == (x >> 40) & 0xff);
    assert(byte_at(x, 6) == (x >> 48) & 0xff);
    assert(byte_at(x, 7) == (x >> 56) & 0xff);
    assert(spec_u64_to_le_bytes_open(x) =~= said);
}

pub proof fn lemma_hash_is_run(k0: u64, k1: u64, b: Seq<u8>)
    requires
        b.len() <= u64::MAX,
    ensures
        exists|words: Seq<u64>, states: Seq<SipState>, end: SipState| #[trigger]
            is_run(k0, k1, b, words, states, end, sip_hash(k0, k1, b)),
{
    let n = b.len() as int / 8;
    let tail = sip_tail(b, b.len() % 8);
    let words = Seq::new(
        (n + 1) as nat,
        |i: int|
            if i == n {
                tail
            } else {
                spec_u64_from_le_bytes(b.subrange(8 * i, 8 * i + 8))
            },
    );
    let last = sip_absorbed(sip_words(k0, k1, b, n as nat), tail);
    let states = Seq::new(
        (n + 2) as nat,
        |i: int|
            if i == n + 1 {
                last
            } else {
                sip_words(k0, k1, b, i as nat)
            },
    );
    let first = SipState { v2: last.v2 ^ 0xff, ..last };
    let end = sip_rounded(sip_rounded(sip_rounded(first)));
    lemma_undone(first);
    lemma_undone(sip_rounded(first));
    lemma_undone(sip_rounded(sip_rounded(first)));
    lemma_last_word(b);
    lemma_auto_spec_u64_to_from_le_bytes();
    assert(states[0] == sip_start(k0, k1));
    assert forall|i: int| 0 <= i < n implies spec_u64_to_le_bytes(#[trigger] words[i])
        == b.subrange(8 * i, 8 * i + 8) by {
        let word = b.subrange(8 * i, 8 * i + 8);
        assert(word.len() == 8);
        assert(spec_u64_to_le_bytes(spec_u64_from_le_bytes(word)) == word);
    }
    assert forall|i: int|
        #![trigger states[i]]
        0 <= i <= n implies takes_in(states[i], words[i], states[i + 1]) by {
        let s = states[i];
        let word = words[i];
        assert(states[i + 1] == sip_absorbed(s, word));
        let mixed = SipState { v3: s.v3 ^ word, ..s };
        let r = sip_rounded(mixed);
        lemma_undone(mixed);
        lemma_crossed_twice(r.v0, word);
        let t = states[i + 1];
        assert((SipState { v0: t.v0 ^ word, ..t }) == r);
    }
    let hash = sip_hash(k0, k1, b);
    assert(is_run(k0, k1, b, words, states, end, hash));
}

/// The hash takes in the key of the context, every byte of the input in its place, and the
/// length, and could be walked back from its end.
pub proof fn law_hash_takes_in_everything(k0: u64, k1: u64, bytes: &[u8], hash: u64)
    requires
        call_ensures(siphash13, (k0, k1, bytes), hash),
    ensures
        exists|words: Seq<u64>, states: Seq<SipState>, end: SipState| #[trigger]
            is_run(k0, k1, bytes@, words, states, end, hash),
{
    assert(bytes@.len() == bytes.len());
    lemma_hash_is_run(k0, k1, bytes@);
}

} // verus!
