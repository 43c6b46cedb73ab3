//! Byte-addressed memory as specifications see it: a map from the addresses
//! that are allocated to the bytes they hold.

use vstd::prelude::*;

verus! {

/// `n` zero bytes.
pub open spec fn zeroed(n: nat) -> Seq<u8> {
    Seq::new(n, |i: int| 0u8)
}

/// Every address of `start..start + n` is allocated in `m`.
pub open spec fn has_range(m: Map<int, u8>, start: int, n: int) -> bool {
    forall|k: int| start <= k < start + n ==> #[trigger] m.contains_key(k)
}

/// No address of `start..start + n` is allocated in `m`.
pub open spec fn lacks_range(m: Map<int, u8>, start: int, n: int) -> bool {
    forall|k: int| start <= k < start + n ==> !#[trigger] m.contains_key(k)
}

/// The `n` bytes of `m` from `start` on.
pub open spec fn bytes_at(m: Map<int, u8>, start: int, n: nat) -> Seq<u8> {
    Seq::new(n, |i: int| m[start + i])
}

/// `m` with `bytes` stored from `start` on.
pub open spec fn overwritten(m: Map<int, u8>, start: int, bytes: Seq<u8>) -> Map<int, u8> {
    Map::new(
        |k: int| m.contains_key(k),
        |k: int|
            if start <= k < start + bytes.len() {
                bytes[k - start]
            } else {
                m[k]
            },
    )
}

/// `m` with the addresses `start..start + n` allocated and zero.
pub open spec fn extended(m: Map<int, u8>, start: int, n: int) -> Map<int, u8> {
    Map::new(
        |k: int| m.contains_key(k) || start <= k < start + n,
        |k: int|
            if start <= k < start + n {
                0u8
            } else {
                m[k]
            },
    )
}

/// `b` holds everything that `a` holds, with the same bytes.
pub open spec fn preserved(a: Map<int, u8>, b: Map<int, u8>) -> bool {
    forall|k: int| #[trigger] a.contains_key(k) ==> b.contains_key(k) && b[k] == a[k]
}

/// What was written is read back, and everything else keeps its bytes.
pub proof fn law_write_then_read(m: Map<int, u8>, start: int, bytes: Seq<u8>)
    requires
        has_range(m, start, bytes.len() as int),
    ensures
        bytes_at(overwritten(m, start, bytes), start, bytes.len()) == bytes,
        forall|other: int, n: nat|
            (other + n <= start || start + bytes.len() <= other) && has_range(m, other, n as int)
                ==> #[trigger] bytes_at(overwritten(m, start, bytes), other, n) == bytes_at(
                m,
                other,
                n,
            ),
{
    let w = overwritten(m, start, bytes);
    assert(bytes_at(w, start, bytes.len()) =~= bytes);
    assert forall|other: int, n: nat|
        (other + n <= start || start + bytes.len() <= other) && has_range(
            m,
            other,
            n as int,
        ) implies #[trigger] bytes_at(w, other, n) == bytes_at(m, other, n) by {
        assert forall|i: int| 0 <= i < n implies #[trigger] bytes_at(w, other, n)[i] == bytes_at(
            m,
            other,
            n,
        )[i] by {
            assert(m.contains_key(other + i));
        }
        assert(bytes_at(w, other, n) =~= bytes_at(m, other, n));
    }
}

/// Newly allocated memory reads as zero, and allocation changes no byte that
/// was already allocated.
pub proof fn law_new_memory_is_zero(m: Map<int, u8>, start: int, n: nat)
    requires
        lacks_range(m, start, n as int),
    ensures
        bytes_at(extended(m, start, n as int), start, n) == zeroed(n),
        preserved(m, extended(m, start, n as int)),
{
    assert(bytes_at(extended(m, start, n as int), start, n) =~= zeroed(n));
}

/// `s` with `bytes` stored from `at` on.
pub open spec fn spliced(s: Seq<u8>, at: int, bytes: Seq<u8>) -> Seq<u8> {
    Seq::new(
        s.len(),
        |i: int|
            if at <= i < at + bytes.len() {
                bytes[i - at]
            } else {
                s[i]
            },
    )
}

/// Stores `bytes` from offset `at` on.
pub fn store_bytes(destination: &mut Vec<u8>, at: usize, bytes: &[u8])
    requires
        at + bytes@.len() <= old(destination)@.len(),
    ensures
        final(destination)@ == spliced(old(destination)@, at as int, bytes@),
{
    let size: usize = destination.len();
    let mut i: usize = 0;
    while i < bytes.len()
        invariant
            i <= bytes@.len(),
            at + bytes@.len() <= size,
            size == old(destination)@.len(),
            destination@ == spliced(old(destination)@, at as int, bytes@.take(i as int)),
        decreases bytes@.len() - i,
    {
        assert(destination@.len() == old(destination)@.len());
        destination[at + i] = bytes[i];
        assert(destination@ =~= spliced(old(destination)@, at as int, bytes@.take(i + 1)));
        i = i + 1;
    }
    assert(bytes@.take(i as int) =~= bytes@);
    assert(destination@ =~= spliced(old(destination)@, at as int, bytes@));
}

/// Whether two byte strings are the same.
pub fn same_bytes(left: &[u8], right: &[u8]) -> (equal: bool)
    ensures
        equal == (left@ == right@),
{
    if left.len() != right.len() {
        return false;
    }
    let mut i: usize = 0;
    while i < left.len()
        invariant
            i <= left@.len(),
            left@.len() == right@.len(),
            forall|j: int| 0 <= j < i ==> left@[j] == right@[j],
        decreases left@.len() - i,
    {
        if left[i] != right[i] {
            return false;
        }
        i = i + 1;
    }
    assert(left@ =~= right@);
    true
}

} // verus!
