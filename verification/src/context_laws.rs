//! What a context is for: memory that is read as it was written, a limit that holds, the
//! first error, and honest statistics.

use vstd::prelude::*;

use crate::array::{aster_rt_array_new, AsterArray};
use crate::context::{ContextIdentity, ExecutionContext, HostDevices, MemoryStats};
use crate::meaning::{carries_bytes, is_untouched, lemma_carries_bytes};
use crate::memory::{bytes_at, has_range};
use crate::object::aster_rt_object_new;
use crate::string::aster_rt_string_concat;

verus! {

/// What is stored in memory is read back, and what lies elsewhere is as it was. Nothing
/// is stored where something of the place is not allocated.
pub proof fn law_memory_is_read_as_written(
    context: &mut ExecutionContext,
    address: u64,
    bytes: &[u8],
    stored: bool,
    other: u64,
    len: usize,
    earlier: Option<Vec<u8>>,
    later: Option<Vec<u8>>,
    again: Option<Vec<u8>>,
)
    requires
        context.wf(),
        bytes@.len() <= usize::MAX,
        call_ensures(ExecutionContext::write_memory, (context, address, bytes), stored),
        call_ensures(ExecutionContext::read_memory, (context, other, len), earlier),
        call_ensures(ExecutionContext::read_memory, (final(context), other, len), later),
        call_ensures(
            ExecutionContext::read_memory,
            (final(context), address, bytes@.len() as usize),
            again,
        ),
    ensures
        stored ==> (again matches Some(found) && found@ == bytes@),
        stored <==> forall|k: int|
            address <= k < address + bytes@.len() ==> #[trigger] old(context).mem().contains_key(k),
        earlier is Some <==> later is Some,
        other + len <= address || address + bytes@.len() <= other || !stored ==> (
        earlier matches Some(found) ==> later matches Some(same) && same@ == found@),
{
    let m = context.mem();
    let w = final(context).mem();
    if stored {
        assert(has_range(m, address as int, bytes@.len() as int));
        assert(has_range(w, address as int, bytes@.len() as int));
        assert(bytes_at(w, address as int, bytes@.len()) =~= bytes@);
    }
    if earlier is Some {
        assert(has_range(m, other as int, len as int));
        assert(has_range(w, other as int, len as int));
    }
    if later is Some {
        assert forall|k: int| other <= k < other + len implies #[trigger] m.contains_key(k) by {
            assert(w.contains_key(k));
        }
    }
    if earlier is Some && (other + len <= address || address + bytes@.len() <= other || !stored) {
        let a = bytes_at(m, other as int, len as nat);
        let b = bytes_at(w, other as int, len as nat);
        assert forall|i: int| 0 <= i < len implies #[trigger] a[i] == b[i] by {
            assert(m.contains_key(other + i));
        }
        assert(a =~= b);
    }
}

/// The first report stays until it is taken, and is then forgotten. Nothing else changes.
pub proof fn law_first_report_is_taken(
    context: &mut ExecutionContext,
    middle: &mut ExecutionContext,
    last: &mut ExecutionContext,
    first: String,
    second: String,
    taken: Option<String>,
)
    requires
        context.wf(),
        call_ensures(ExecutionContext::fail, (context, first), ()),
        *middle == *final(context),
        call_ensures(ExecutionContext::fail, (middle, second), ()),
        *last == *final(middle),
        call_ensures(ExecutionContext::take_error, (last,), taken),
    ensures
        old(context).error_text() is None ==> (taken matches Some(text) && text@ == first@),
        old(context).error_text() matches Some(earlier) ==> (taken matches Some(text) && text@
            == earlier),
        final(last).error_text() is None,
        is_untouched(*old(context), *final(last)),
{
}

/// The arenas of a context never reserve more than its limit together.
pub proof fn law_memory_limit_holds(
    context: Option<&mut ExecutionContext>,
    size: i32,
    result: Option<u64>,
)
    requires
        context matches Some(c) && c.wf(),
        call_ensures(aster_rt_object_new, (context, size), result),
    ensures
        final(context->0).persistent().shape().reserved()
            + final(context->0).temporary().shape().reserved()
            <= context->0.configuration().memory_limit,
{
}

/// What the statistics of a context say of one more allocation.
pub open spec fn counts_one(
    before: MemoryStats,
    after: MemoryStats,
    objects: int,
    arrays: int,
    strings: int,
    bytes: int,
) -> bool {
    let span = 0x1_0000_0000_0000_0000int;
    &&& after.total_allocations as int == (before.total_allocations + 1) % span
    &&& after.object_allocations as int == (before.object_allocations + objects) % span
    &&& after.array_allocations as int == (before.array_allocations + arrays) % span
    &&& after.string_allocations as int == (before.string_allocations + strings) % span
    &&& after.requested_bytes as int == (before.requested_bytes + bytes) % span
    &&& after.peak_used_bytes >= before.peak_used_bytes
    &&& after.peak_reserved_bytes >= before.peak_reserved_bytes
    &&& after.peak_used_bytes >= after.used_bytes
    &&& after.peak_reserved_bytes >= after.reserved_bytes
    &&& after.used_bytes <= after.reserved_bytes
}

/// A context that collects statistics counts every object that it makes, with the bytes
/// that were asked for. One that collects none counts nothing.
pub proof fn law_objects_are_counted(
    context: Option<&mut ExecutionContext>,
    size: i32,
    result: Option<u64>,
)
    requires
        context matches Some(c) && c.wf(),
        size > 0,
        call_ensures(aster_rt_object_new, (context, size), result),
        result is Some,
    ensures
        context->0.configuration().collect_stats ==> counts_one(
            context->0.memory_statistics(),
            final(context->0).memory_statistics(),
            1,
            0,
            0,
            size as int,
        ),
        !context->0.configuration().collect_stats ==> final(context->0).memory_statistics()
            == context->0.memory_statistics(),
{
}

/// An array is counted as one array, with the bytes of its elements.
pub proof fn law_arrays_are_counted(
    context: Option<&mut ExecutionContext>,
    length: i32,
    element_size: i32,
    result: Option<AsterArray>,
)
    requires
        context matches Some(c) && c.wf(),
        length > 0,
        element_size > 0,
        length * element_size <= usize::MAX,
        call_ensures(aster_rt_array_new, (context, length, element_size), result),
        result is Some,
    ensures
        context->0.configuration().collect_stats ==> counts_one(
            context->0.memory_statistics(),
            final(context->0).memory_statistics(),
            0,
            1,
            0,
            length * element_size,
        ),
        !context->0.configuration().collect_stats ==> final(context->0).memory_statistics()
            == context->0.memory_statistics(),
{
    assert(length * element_size >= element_size) by (nonlinear_arith)
        requires
            length > 0,
            element_size > 0,
    ;
}

/// A text is counted as one string, with the bytes of its length and of itself.
pub proof fn law_strings_are_counted(
    context: Option<&mut ExecutionContext>,
    left: Option<&[u8]>,
    right: Option<&[u8]>,
    result: Option<u64>,
    a: Seq<u8>,
    b: Seq<u8>,
)
    requires
        context matches Some(c) && c.wf(),
        carries_bytes(left, a),
        carries_bytes(right, b),
        call_ensures(aster_rt_string_concat, (context, left, right), result),
        result is Some,
    ensures
        context->0.configuration().collect_stats ==> counts_one(
            context->0.memory_statistics(),
            final(context->0).memory_statistics(),
            0,
            0,
            1,
            8 + a.len() as int + b.len() as int,
        ),
        !context->0.configuration().collect_stats ==> final(context->0).memory_statistics()
            == context->0.memory_statistics(),
{
    lemma_carries_bytes(left, a);
    lemma_carries_bytes(right, b);
}

/// A new context has no memory, no scope, no error and no statistics, and no limit but
/// the one that it was made with.
pub proof fn law_new_context(
    identity: ContextIdentity,
    devices: HostDevices,
    limit: usize,
    plain: ExecutionContext,
    counting: ExecutionContext,
    limited: ExecutionContext,
)
    requires
        call_ensures(ExecutionContext::new, (identity, devices), plain),
        call_ensures(ExecutionContext::with_stats, (identity, devices), counting),
        call_ensures(ExecutionContext::with_memory_limit, (identity, limit, devices), limited),
    ensures
        is_blank(plain),
        is_blank(counting),
        is_blank(limited),
        !plain.configuration().collect_stats,
        counting.configuration().collect_stats,
        !limited.configuration().collect_stats,
        plain.configuration().memory_limit == usize::MAX,
        counting.configuration().memory_limit == usize::MAX,
        limited.configuration().memory_limit == limit,
{
}

/// Nothing has happened in a context yet.
pub open spec fn is_blank(c: ExecutionContext) -> bool {
    let stats = c.memory_statistics();
    &&& c.wf()
    &&& forall|k: int| !#[trigger] c.mem().contains_key(k)
    &&& c.scopes().len() == 0
    &&& c.error_text() is None
    &&& stats.total_allocations == 0
    &&& stats.object_allocations == 0
    &&& stats.array_allocations == 0
    &&& stats.string_allocations == 0
    &&& stats.requested_bytes == 0
    &&& stats.used_bytes == 0
    &&& stats.reserved_bytes == 0
    &&& stats.peak_used_bytes == 0
    &&& stats.peak_reserved_bytes == 0
    &&& c.configuration().task_runtime is None
}

} // verus!
