//! Strings in arena memory: a length, then the UTF-8 payload.

use vstd::bytes::*;
use vstd::prelude::*;
use vstd::utf8::*;

use crate::arena::ArenaAllocError;
use crate::context::{arena_error_text, first_error, AllocationCategory, ExecutionContext};
use crate::memory::{bytes_at, extended, has_range, overwritten, preserved};
use crate::utf8::is_utf8;

verus! {

/// Bytes of the length that precedes every string payload.
pub const STRING_HEADER_SIZE: usize = 8;

/// All parts, one after the other.
pub open spec fn joined(parts: Seq<&[u8]>) -> Seq<u8>
    decreases parts.len(),
{
    if parts.len() == 0 {
        Seq::empty()
    } else {
        joined(parts.drop_last()) + parts.last()@
    }
}

/// How a string lies in memory.
pub open spec fn string_block(payload: Seq<u8>) -> Seq<u8> {
    spec_u64_to_le_bytes(payload.len() as u64) + payload
}

/// The string that starts at `address` in `m`, if a complete and valid one
/// does.
pub open spec fn string_at(m: Map<int, u8>, address: u64) -> Option<Seq<u8>> {
    let header = bytes_at(m, address as int, STRING_HEADER_SIZE as nat);
    let length = spec_u64_from_le_bytes(header);
    let payload = bytes_at(m, address + STRING_HEADER_SIZE, length as nat);
    if address == 0 || !has_range(m, address as int, STRING_HEADER_SIZE as int) || !has_range(
        m,
        address + STRING_HEADER_SIZE,
        length as int,
    ) || length > usize::MAX || address + STRING_HEADER_SIZE > u64::MAX || !valid_utf8(payload) {
        None
    } else {
        Some(payload)
    }
}

/// A string that was stored is read back.
pub proof fn law_stored_string_is_read_back(m: Map<int, u8>, address: u64, payload: Seq<u8>)
    requires
        address > 0,
        payload.len() <= usize::MAX,
        address + STRING_HEADER_SIZE + payload.len() <= u64::MAX,
        has_range(m, address as int, STRING_HEADER_SIZE + payload.len()),
        valid_utf8(payload),
    ensures
        string_at(overwritten(m, address as int, string_block(payload)), address) == Some(payload),
{
    lemma_auto_spec_u64_to_from_le_bytes();
    let block = string_block(payload);
    let after = overwritten(m, address as int, block);
    let length = spec_u64_to_le_bytes(payload.len() as u64);
    assert(length.len() == 8);
    assert forall|k: int| address <= k < address + block.len() implies
        #[trigger] after.contains_key(k) by {
        assert(m.contains_key(k));
    }
    assert(bytes_at(after, address as int, STRING_HEADER_SIZE as nat) =~= length);
    assert(bytes_at(after, address + STRING_HEADER_SIZE, payload.len()) =~= payload);
}

/// A string stays readable while its own memory stays as it is.
pub proof fn lemma_string_same(before: Map<int, u8>, after: Map<int, u8>, address: u64)
    requires
        string_at(before, address) is Some,
        forall|k: int|
            address <= k < address + STRING_HEADER_SIZE + string_at(before, address)->0.len() ==> (
            #[trigger] after.contains_key(k)) && after[k] == before[k],
    ensures
        string_at(after, address) == string_at(before, address),
{
    let header = bytes_at(before, address as int, STRING_HEADER_SIZE as nat);
    let length = spec_u64_from_le_bytes(header);
    let start = address + STRING_HEADER_SIZE;
    let again = bytes_at(after, address as int, STRING_HEADER_SIZE as nat);
    assert forall|i: int| 0 <= i < STRING_HEADER_SIZE implies #[trigger] again[i] == header[i] by {
        assert(after.contains_key(address + i));
    }
    assert(again =~= header);
    let payload = bytes_at(before, start, length as nat);
    let stored = bytes_at(after, start, length as nat);
    assert forall|i: int| 0 <= i < length implies #[trigger] stored[i] == payload[i] by {
        assert(after.contains_key(start + i));
    }
    assert(stored =~= payload);
}

/// A string stays readable while memory is only added to.
pub proof fn lemma_string_preserved(before: Map<int, u8>, after: Map<int, u8>, address: u64)
    requires
        preserved(before, after),
        string_at(before, address) is Some,
    ensures
        string_at(after, address) == string_at(before, address),
{
    let length = string_at(before, address)->0.len();
    assert forall|k: int| address <= k < address + STRING_HEADER_SIZE + length implies (
    #[trigger] after.contains_key(k)) && after[k] == before[k] by {
        if k < address + STRING_HEADER_SIZE {
            assert(has_range(before, address as int, STRING_HEADER_SIZE as int));
        } else {
            assert(has_range(before, address + STRING_HEADER_SIZE, length as int));
        }
        assert(before.contains_key(k));
    }
    lemma_string_same(before, after, address);
}

/// The report that a string allocation without a scope makes.
pub open spec fn string_scope_text() -> Seq<char> {
    "temporary string allocation requires an active temporary scope"@
}

impl ExecutionContext {
    /// Whether `self` came out of `before` by the allocation of `payload` as a
    /// string at `address`, and nothing else.
    pub open spec fn string_allocated(
        &self,
        before: Self,
        temporary: bool,
        address: u64,
        payload: Seq<u8>,
    ) -> bool {
        let size = STRING_HEADER_SIZE + payload.len();
        &&& self.placed_with(before, temporary, address, size, 8, string_block(payload))
        &&& self.memory_statistics() == self.statistics_after(
            before,
            AllocationCategory::String,
            size,
        )
    }

    /// What storing `payload` as a string makes of the context `before`: a report
    /// and nothing else where it cannot be stored; otherwise the string, unless
    /// the memory for it is denied.
    pub open spec fn string_outcome(
        &self,
        before: Self,
        temporary: bool,
        payload: Seq<u8>,
        result: Option<u64>,
    ) -> bool {
        let size = STRING_HEADER_SIZE + payload.len();
        if temporary && before.scopes().len() == 0 {
            result is None && self.only_failed(before, string_scope_text())
        } else if payload.len() > usize::MAX {
            result is None && self.only_failed(
                before,
                "string concatenation exceeds the addressable range"@,
            )
        } else if size > usize::MAX {
            result is None && self.only_failed(
                before,
                "string allocation exceeds the addressable range"@,
            )
        } else {
            &&& result matches Some(address) ==> self.string_allocated(
                before,
                temporary,
                address,
                payload,
            )
            &&& result is None ==> self.denied(before, temporary, size, 8)
            &&& before.over_limit(temporary, size, 8) ==> {
                &&& result is None
                &&& self.error_text() == first_error(
                    before.error_text(),
                    arena_error_text(ArenaAllocError::Limit),
                )
            }
        }
    }

    /// Concatenates `parts` into one string in one of the arenas.
    pub fn allocate_string_parts_in_region(&mut self, parts: &[&[u8]], temporary: bool) -> (result:
        Option<u64>)
        requires
            old(self).wf(),
        ensures
            final(self).wf(),
            old(self).scoped() ==> final(self).scoped(),
            final(self).string_outcome(*old(self), temporary, joined(parts@), result),
    {
        if temporary && self.scope_depth() == 0 {
            self.fail_with("temporary string allocation requires an active temporary scope");
            return None;
        }
        let mut payload_bytes: usize = 0;
        let mut at: usize = 0;
        while at < parts.len()
            invariant
                at <= parts@.len(),
                payload_bytes == joined(parts@.take(at as int)).len(),
                *self == *old(self),
                old(self).wf(),
                !(temporary && old(self).scopes().len() == 0),
            decreases parts@.len() - at,
        {
            proof {
                assert(parts@.take(at + 1).drop_last() =~= parts@.take(at as int));
                lemma_joined_prefix(parts@, at + 1);
            }
            match payload_bytes.checked_add(parts[at].len()) {
                None => {
                    self.fail_with("string concatenation exceeds the addressable range");
                    return None;
                },
                Some(total) => {
                    payload_bytes = total;
                },
            }
            at = at + 1;
        }
        assert(parts@.take(at as int) =~= parts@);
        let total_bytes: usize = match STRING_HEADER_SIZE.checked_add(payload_bytes) {
            None => {
                self.fail_with("string allocation exceeds the addressable range");
                return None;
            },
            Some(total) => total,
        };
        let mut block: Vec<u8> = u64_to_le_bytes(payload_bytes as u64);
        let mut at: usize = 0;
        while at < parts.len()
            invariant
                at <= parts@.len(),
                block@ == spec_u64_to_le_bytes(payload_bytes as u64) + joined(
                    parts@.take(at as int),
                ),
            decreases parts@.len() - at,
        {
            let ghost start = block@;
            block.extend_from_slice(parts[at]);
            proof {
                assert(parts@.take(at + 1).drop_last() =~= parts@.take(at as int));
                assert(block@ =~= start + parts@[at as int]@);
                assert(block@ =~= spec_u64_to_le_bytes(payload_bytes as u64) + joined(
                    parts@.take(at + 1),
                ));
            }
            at = at + 1;
        }
        assert(parts@.take(at as int) =~= parts@);
        assert(block@ == string_block(joined(parts@)));
        proof {
            lemma_auto_spec_u64_to_from_le_bytes();
        }
        let address: u64 = match self.allocate_with(temporary, total_bytes, 8, block.as_slice()) {
            None => {
                return None;
            },
            Some(address) => address,
        };
        self.record_allocation(AllocationCategory::String, total_bytes);
        Some(address)
    }

    pub fn allocate_string_parts(&mut self, parts: &[&[u8]]) -> (result: Option<u64>)
        requires
            old(self).wf(),
        ensures
            final(self).wf(),
            old(self).scoped() ==> final(self).scoped(),
            final(self).string_outcome(*old(self), false, joined(parts@), result),
    {
        self.allocate_string_parts_in_region(parts, false)
    }

    pub fn allocate_temporary_string_parts(&mut self, parts: &[&[u8]]) -> (result: Option<u64>)
        requires
            old(self).wf(),
        ensures
            final(self).wf(),
            old(self).scoped() ==> final(self).scoped(),
            final(self).string_outcome(*old(self), true, joined(parts@), result),
    {
        self.allocate_string_parts_in_region(parts, true)
    }

    /// Stores one string in one of the arenas.
    pub fn allocate_text(&mut self, payload: &[u8], temporary: bool) -> (result: Option<u64>)
        requires
            old(self).wf(),
        ensures
            final(self).wf(),
            old(self).scoped() ==> final(self).scoped(),
            final(self).string_outcome(*old(self), temporary, payload@, result),
    {
        let parts: [&[u8]; 1] = [payload];
        proof {
            reveal_with_fuel(joined, 2);
            assert(parts@.drop_last() =~= Seq::<&[u8]>::empty());
            assert(joined(parts@) =~= payload@);
        }
        self.allocate_string_parts_in_region(&parts, temporary)
    }


    /// The payload of the string at `address`, if a complete and valid one is
    /// there.
    pub fn read_string(&self, address: u64) -> (result: Option<Vec<u8>>)
        requires
            self.wf(),
        ensures
            result is Some <==> string_at(self.mem(), address) is Some,
            result matches Some(payload) ==> string_at(self.mem(), address) == Some(payload@),
    {
        if address == 0 || address > u64::MAX - 8 {
            return None;
        }
        match self.read_memory(address, STRING_HEADER_SIZE) {
            None => None,
            Some(header) => {
                let length: u64 = u64_from_le_bytes(header.as_slice());
                if length > usize::MAX as u64 {
                    return None;
                }
                match self.read_memory(address + 8, length as usize) {
                    None => None,
                    Some(payload) => {
                        if is_utf8(payload.as_slice()) {
                            Some(payload)
                        } else {
                            None
                        }
                    },
                }
            },
        }
    }
}

/// Prefixes of parts join to at most what all parts join to.
proof fn lemma_joined_prefix(parts: Seq<&[u8]>, n: int)
    requires
        0 <= n <= parts.len(),
    ensures
        joined(parts.take(n)).len() <= joined(parts).len(),
    decreases parts.len() - n,
{
    if n == parts.len() {
        assert(parts.take(n) =~= parts);
    } else {
        lemma_joined_prefix(parts, n + 1);
        assert(parts.take(n + 1).drop_last() =~= parts.take(n));
    }
}

/// A string that was allocated can be read where it was put.
pub proof fn law_allocated_string_is_readable(
    before: ExecutionContext,
    after: ExecutionContext,
    temporary: bool,
    address: u64,
    payload: Seq<u8>,
)
    requires
        after.string_allocated(before, temporary, address, payload),
        payload.len() + STRING_HEADER_SIZE <= usize::MAX,
        valid_utf8(payload),
    ensures
        string_at(after.mem(), address) == Some(payload),
        preserved(before.mem(), after.mem()),
{
    lemma_auto_spec_u64_to_from_le_bytes();
    let size = STRING_HEADER_SIZE + payload.len();
    let padding = after.used() - before.used() - size;
    let grown = extended(before.mem(), address - padding, padding + size);
    assert forall|k: int| address <= k < address + size implies #[trigger] grown.contains_key(
        k,
    ) by {}
    law_stored_string_is_read_back(grown, address, payload);
    assert(string_block(payload).len() == size);
    assert forall|k: int| #[trigger] before.mem().contains_key(k) implies after.mem().contains_key(
        k,
    ) && after.mem()[k] == before.mem()[k] by {}
}

} // verus!
