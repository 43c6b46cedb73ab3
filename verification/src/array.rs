//! Arrays: a header of plain values and zeroed elements in arena memory.

use vstd::prelude::*;

use crate::context::{at_least_one, first_error, AllocationCategory, ExecutionContext};
use crate::memory::{bytes_at, has_range, lacks_range, overwritten, preserved, zeroed};
use crate::text::{push_signed_decimal, signed_decimal};

verus! {

/// Bytes that every array header occupies in its arena.
pub const ARRAY_HEADER_SIZE: usize = 16;

/// Array header visible to generated code only through runtime calls.
#[derive(Clone, Copy, Debug, PartialEq, Eq, Structural)]
pub struct AsterArray {
    /// Where the header itself is stored.
    pub address: u64,
    /// Where the elements start.
    pub data: u64,
    pub length: i32,
    pub element_size: u32,
}

impl AsterArray {
    /// Element stride recorded when this header was allocated.
    pub fn element_size(&self) -> (size: u32)
        ensures
            size == self.element_size,
    {
        self.element_size
    }
}

/// `n`, but never negative.
pub open spec fn at_least_zero(n: int) -> int {
    if n < 0 {
        0
    } else {
        n
    }
}

/// Bytes that `length` elements of `element_size` bytes take: at least one
/// element's worth, and none that are negative.
pub open spec fn array_bytes(length: i32, element_size: u32) -> int {
    let size = at_least_one(element_size as int);
    let total = at_least_zero(length as int) * size;
    if total > usize::MAX || total < size {
        size
    } else {
        total
    }
}

/// What is reported before an array is allocated, if anything.
pub open spec fn array_report(length: i32, element_size: u32) -> Option<Seq<char>> {
    if length < 0 {
        Some("array length cannot be negative: "@ + signed_decimal(length as int))
    } else if length * at_least_one(element_size as int) > usize::MAX {
        Some("array allocation size exceeds the addressable range"@)
    } else {
        None
    }
}

/// The recorded error after what `array_report` reports.
pub open spec fn array_error(
    error: Option<Seq<char>>,
    length: i32,
    element_size: u32,
) -> Option<Seq<char>> {
    match array_report(length, element_size) {
        Some(text) => first_error(error, text),
        None => error,
    }
}

/// The report that an array allocation without a scope makes.
pub open spec fn array_scope_text() -> Seq<char> {
    "temporary array allocation requires an active temporary scope"@
}

impl ExecutionContext {
    /// Whether `self` came out of `before` by the allocation of `array` for
    /// `length` elements of `element_size` bytes: zeroed elements, then a
    /// header, both in the same arena.
    pub open spec fn array_allocated(
        &self,
        before: Self,
        temporary: bool,
        array: AsterArray,
        length: i32,
        element_size: u32,
    ) -> bool {
        let bytes = array_bytes(length, element_size);
        &&& array.length == at_least_zero(length as int)
        &&& array.element_size == at_least_one(element_size as int)
        &&& self.error_text() == array_error(before.error_text(), length, element_size)
        &&& self.memory_statistics() == self.statistics_after(
            before,
            AllocationCategory::Array,
            bytes,
        )
        &&& exists|reported: ExecutionContext, filled: ExecutionContext|
            {
                &&& reported.same_store(before)
                &&& #[trigger] filled.allocated(reported, temporary, array.data, bytes, 8)
                &&& self.allocated(
                    filled,
                    temporary,
                    array.address,
                    ARRAY_HEADER_SIZE as int,
                    8,
                )
            }
    }

    /// Whether `self` came out of `before` by a request for an array that was
    /// denied, because its elements or its header need a new page.
    pub open spec fn array_denied(
        &self,
        before: Self,
        temporary: bool,
        length: i32,
        element_size: u32,
    ) -> bool {
        let bytes = array_bytes(length, element_size);
        &&& self.carries_on(before)
        &&& self.scopes() == before.scopes()
        &&& self.region(!temporary) == before.region(!temporary)
        &&& preserved(before.mem(), self.mem())
        &&& self.memory_statistics() == before.memory_statistics()
        &&& {
            ||| exists|reported: ExecutionContext|
                {
                    &&& reported.same_store(before)
                    &&& reported.error_text() == array_error(
                        before.error_text(),
                        length,
                        element_size,
                    )
                    &&& #[trigger] self.denied(reported, temporary, bytes, 8)
                }
            ||| exists|reported: ExecutionContext, filled: ExecutionContext, data: u64|
                {
                    &&& reported.same_store(before)
                    &&& reported.error_text() == array_error(
                        before.error_text(),
                        length,
                        element_size,
                    )
                    &&& #[trigger] filled.allocated(reported, temporary, data, bytes, 8)
                    &&& self.denied(filled, temporary, ARRAY_HEADER_SIZE as int, 8)
                }
        }
    }

    /// What the allocation of an array means for memory.
    pub proof fn lemma_array_allocated(
        &self,
        before: Self,
        temporary: bool,
        array: AsterArray,
        length: i32,
        element_size: u32,
    )
        requires
            before.wf(),
            self.array_allocated(before, temporary, array, length, element_size),
        ensures
            self.carries_on(before),
            self.scopes() == before.scopes(),
            before.scoped() ==> self.scoped(),
            self.region(!temporary) == before.region(!temporary),
            preserved(before.mem(), self.mem()),
            array.data > 0,
            array.data + array_bytes(length, element_size) <= u64::MAX,
            lacks_range(before.mem(), array.data as int, array_bytes(length, element_size)),
            has_range(self.mem(), array.data as int, array_bytes(length, element_size)),
            bytes_at(self.mem(), array.data as int, array_bytes(length, element_size) as nat)
                == zeroed(array_bytes(length, element_size) as nat),
            array.address > 0,
            lacks_range(before.mem(), array.address as int, ARRAY_HEADER_SIZE as int),
            has_range(self.mem(), array.address as int, ARRAY_HEADER_SIZE as int),
            array.address + ARRAY_HEADER_SIZE <= array.data || array.data + array_bytes(
                length,
                element_size,
            ) <= array.address,
    {
        let bytes = array_bytes(length, element_size);
        assert(bytes > 0) by {
            assert(at_least_one(element_size as int) >= 1);
        }
        let (reported, filled) = choose|reported: ExecutionContext, filled: ExecutionContext|
            {
                &&& reported.same_store(before)
                &&& #[trigger] filled.allocated(reported, temporary, array.data, bytes, 8)
                &&& self.allocated(
                    filled,
                    temporary,
                    array.address,
                    ARRAY_HEADER_SIZE as int,
                    8,
                )
            };
        assert(reported.mem() == before.mem());
        filled.lemma_allocated(reported, temporary, array.data, bytes, 8);
        self.lemma_allocated(filled, temporary, array.address, ARRAY_HEADER_SIZE as int, 8);
        assert forall|k: int| array.address <= k < array.address + ARRAY_HEADER_SIZE implies
            !#[trigger] before.mem().contains_key(k) by {
            if before.mem().contains_key(k) {
                assert(filled.mem().contains_key(k));
            }
        }
        assert forall|k: int| array.data <= k < array.data + bytes implies
            #[trigger] self.mem().contains_key(k) && self.mem()[k] == filled.mem()[k] by {
            assert(filled.mem().contains_key(k));
        }
        let stored = bytes_at(self.mem(), array.data as int, bytes as nat);
        assert forall|i: int| 0 <= i < bytes implies #[trigger] stored[i] == 0u8 by {
            assert(filled.mem().contains_key(array.data + i));
            assert(bytes_at(filled.mem(), array.data as int, bytes as nat)[i] == 0u8);
        }
        assert(stored =~= zeroed(bytes as nat));
        if array.address + ARRAY_HEADER_SIZE > array.data && array.data + bytes > array.address {
            let shared = if array.address >= array.data {
                array.address as int
            } else {
                array.data as int
            };
            assert(filled.mem().contains_key(shared));
            assert(!filled.mem().contains_key(shared));
        }
    }

    /// Allocates an array in one of the arenas. A negative length is reported
    /// and treated as zero.
    pub fn allocate_array_in_region(&mut self, length: i32, element_size: u32, temporary: bool) -> (
    result: Option<AsterArray>)
        requires
            old(self).wf(),
        ensures
            final(self).wf(),
            old(self).scoped() ==> final(self).scoped(),
            temporary && old(self).scopes().len() == 0 ==> {
                &&& result is None
                &&& final(self).only_failed(*old(self), array_scope_text())
            },
            !(temporary && old(self).scopes().len() == 0) ==> {
                &&& result matches Some(array) ==> final(self).array_allocated(
                    *old(self),
                    temporary,
                    array,
                    length,
                    element_size,
                )
                &&& result is None ==> final(self).array_denied(
                    *old(self),
                    temporary,
                    length,
                    element_size,
                )
            },
    {
        if temporary && self.scope_depth() == 0 {
            self.fail_with("temporary array allocation requires an active temporary scope");
            return None;
        }
        let ghost before = *self;
        let valid_length: i32 = if length < 0 {
            0
        } else {
            length
        };
        let valid_size: u32 = if element_size == 0 {
            1
        } else {
            element_size
        };
        if length < 0 {
            let mut message: String = "array length cannot be negative: ".to_owned();
            push_signed_decimal(&mut message, length as i64);
            self.fail(message);
        }
        let one: usize = valid_size as usize;
        let bytes: usize = match (valid_length as usize).checked_mul(one) {
            Some(total) => if total < one {
                one
            } else {
                total
            },
            None => {
                self.fail_with("array allocation size exceeds the addressable range");
                one
            },
        };
        proof {
            assert(bytes == array_bytes(length, element_size)) by {
                if length < 0 {
                    assert(0 * at_least_one(element_size as int) == 0) by (nonlinear_arith);
                }
            }
        }
        let ghost reported = *self;
        let data: u64 = match self.allocate_in(temporary, bytes, 8) {
            None => {
                proof {
                    assert(reported.same_store(before));
                    assert(self.denied(
                        reported,
                        temporary,
                        array_bytes(length, element_size),
                        8,
                    ));
                }
                return None;
            },
            Some(data) => data,
        };
        let ghost filled = *self;
        let address: u64 = match self.allocate_in(temporary, ARRAY_HEADER_SIZE, 8) {
            None => {
                proof {
                    filled.lemma_allocated(reported, temporary, data, bytes as int, 8);
                    assert(reported.same_store(before));
                    assert(filled.allocated(
                        reported,
                        temporary,
                        data,
                        array_bytes(length, element_size),
                        8,
                    ));
                }
                return None;
            },
            Some(address) => address,
        };
        let array = AsterArray { address, data, length: valid_length, element_size: valid_size };
        let ghost placed = *self;
        self.record_allocation(AllocationCategory::Array, bytes);
        proof {
            assert(filled.allocated(
                reported,
                temporary,
                array.data,
                array_bytes(length, element_size),
                8,
            ));
            assert(self.allocated(filled, temporary, array.address, ARRAY_HEADER_SIZE as int, 8));
            assert(self.array_allocated(before, temporary, array, length, element_size));
        }
        Some(array)
    }

    pub fn allocate_array(&mut self, length: i32, element_size: u32) -> (result: Option<AsterArray>)
        requires
            old(self).wf(),
        ensures
            final(self).wf(),
            old(self).scoped() ==> final(self).scoped(),
            result matches Some(array) ==> final(self).array_allocated(
                *old(self),
                false,
                array,
                length,
                element_size,
            ),
            result is None ==> final(self).array_denied(*old(self), false, length, element_size),
    {
        self.allocate_array_in_region(length, element_size, false)
    }

    pub fn allocate_temporary_array(&mut self, length: i32, element_size: u32) -> (result: Option<
        AsterArray,
    >)
        requires
            old(self).wf(),
        ensures
            final(self).wf(),
            old(self).scoped() ==> final(self).scoped(),
            old(self).scopes().len() == 0 ==> {
                &&& result is None
                &&& final(self).only_failed(*old(self), array_scope_text())
            },
            old(self).scopes().len() > 0 ==> {
                &&& result matches Some(array) ==> final(self).array_allocated(
                    *old(self),
                    true,
                    array,
                    length,
                    element_size,
                )
                &&& result is None ==> final(self).array_denied(
                    *old(self),
                    true,
                    length,
                    element_size,
                )
            },
    {
        self.allocate_array_in_region(length, element_size, true)
    }
}

impl ExecutionContext {
    /// What making an array that holds `content` makes of the context `before`:
    /// a report and nothing else without a scope for it; otherwise the array,
    /// unless its memory is denied.
    pub open spec fn array_outcome(
        &self,
        before: Self,
        temporary: bool,
        length: i32,
        element_size: u32,
        content: Seq<u8>,
        result: Option<AsterArray>,
    ) -> bool {
        if temporary && before.scopes().len() == 0 {
            result is None && self.only_failed(before, array_scope_text())
        } else {
            &&& result matches Some(array) ==> {
                &&& array_report(length, element_size) is None
                &&& exists|made: ExecutionContext|
                    {
                        &&& #[trigger] made.array_allocated(
                            before,
                            temporary,
                            array,
                            length,
                            element_size,
                        )
                        &&& self.same_but_bytes(made)
                        &&& self.mem() == overwritten(made.mem(), array.data as int, content)
                    }
                &&& preserved(before.mem(), self.mem())
                &&& bytes_at(self.mem(), array.data as int, content.len()) == content
                &&& has_range(self.mem(), array.data as int, content.len() as int)
            }
            &&& result is None ==> self.array_denied(before, temporary, length, element_size)
        }
    }

    /// Allocates an array and fills it.
    pub fn allocate_filled_array(
        &mut self,
        length: i32,
        element_size: u32,
        content: &[u8],
        temporary: bool,
    ) -> (result: Option<AsterArray>)
        requires
            old(self).wf(),
            length >= 0,
            element_size > 0,
            content@.len() == length * element_size,
        ensures
            final(self).wf(),
            old(self).scoped() ==> final(self).scoped(),
            final(self).array_outcome(
                *old(self),
                temporary,
                length,
                element_size,
                content@,
                result,
            ),
    {
        let ghost before = *self;
        let array: AsterArray = match self.allocate_array_in_region(
            length,
            element_size,
            temporary,
        ) {
            None => {
                return None;
            },
            Some(array) => array,
        };
        let ghost made = *self;
        proof {
            made.lemma_array_allocated(before, temporary, array, length, element_size);
        }
        let size: usize = content.len();
        assert(size <= array_bytes(length, element_size));
        assert(has_range(made.mem(), array.data as int, size as int));
        let _stored: bool = self.write_memory(array.data, content);
        proof {
            assert forall|k: int| 0 <= k < size implies
                #[trigger] made.mem().contains_key(array.data + k) by {}
            assert(bytes_at(self.mem(), array.data as int, content@.len()) =~= content@);
            assert forall|k: int| #[trigger] before.mem().contains_key(k) implies
                self.mem().contains_key(k) && self.mem()[k] == before.mem()[k] by {
                assert(made.mem().contains_key(k) && made.mem()[k] == before.mem()[k]);
                assert(!(array.data <= k < array.data + size));
            }
            assert(made.array_allocated(before, temporary, array, length, element_size));
        }
        Some(array)
    }
}

/// A size that crosses the boundary as a signed integer: a negative one counts
/// as `fallback`.
pub open spec fn abi_size(value: i32, fallback: u32) -> u32 {
    if value < 0 {
        fallback
    } else {
        value as u32
    }
}

/// Converts a size that crosses the boundary as a signed integer.
pub fn size_from_abi(value: i32, fallback: u32) -> (size: u32)
    ensures
        size == abi_size(value, fallback),
{
    if value < 0 {
        fallback
    } else {
        value as u32
    }
}

/// Allocates a persistent array. Without a context there is nothing to do.
pub fn aster_rt_array_new(
    context: Option<&mut ExecutionContext>,
    length: i32,
    element_size: i32,
) -> (result: Option<AsterArray>)
    requires
        context matches Some(c) ==> c.wf(),
    ensures
        context is None ==> result is None,
        context matches Some(c) ==> {
            &&& final(c).wf()
            &&& c.scoped() ==> final(c).scoped()
            &&& result matches Some(array) ==> final(c).array_allocated(
                *c,
                false,
                array,
                length,
                abi_size(element_size, 1),
            )
            &&& result is None ==> final(c).array_denied(
                *c,
                false,
                length,
                abi_size(element_size, 1),
            )
        },
{
    match context {
        None => None,
        Some(context) => context.allocate_array(length, size_from_abi(element_size, 1)),
    }
}

/// Allocates an array that lives until its scope is left.
pub fn aster_rt_array_new_temporary(
    context: Option<&mut ExecutionContext>,
    length: i32,
    element_size: i32,
) -> (result: Option<AsterArray>)
    requires
        context matches Some(c) ==> c.wf(),
    ensures
        context is None ==> result is None,
        context matches Some(c) ==> {
            &&& final(c).wf()
            &&& c.scoped() ==> final(c).scoped()
            &&& c.scopes().len() == 0 ==> result is None && final(c).only_failed(
                *c,
                array_scope_text(),
            )
            &&& c.scopes().len() > 0 ==> {
                &&& result matches Some(array) ==> final(c).array_allocated(
                    *c,
                    true,
                    array,
                    length,
                    abi_size(element_size, 1),
                )
                &&& result is None ==> final(c).array_denied(
                    *c,
                    true,
                    length,
                    abi_size(element_size, 1),
                )
            }
        },
{
    match context {
        None => None,
        Some(context) => context.allocate_temporary_array(length, size_from_abi(element_size, 1)),
    }
}

/// What is reported when an element outside an array is asked for.
pub open spec fn array_index_text(index: i32, length: i32) -> Seq<char> {
    "array index "@ + signed_decimal(index as int) + " is outside the valid range 0.."@
        + signed_decimal(length as int)
}

/// The address of one element. An index outside the array is reported, and the
/// address of the first element is given instead.
pub fn aster_rt_array_element(
    context: Option<&mut ExecutionContext>,
    array: Option<&AsterArray>,
    index: i32,
) -> (result: Option<u64>)
    requires
        context matches Some(c) ==> c.wf(),
    ensures
        result is Some <==> context is Some && array is Some,
        context matches Some(c) ==> {
            &&& final(c).wf()
            &&& array is None ==> final(c).unchanged(*c)
            &&& array matches Some(a) ==> {
                &&& 0 <= index < a.length ==> {
                    &&& final(c).unchanged(*c)
                    &&& result == Some(
                        a.data.wrapping_add((index as u64 * a.element_size as u64) as u64),
                    )
                }
                &&& !(0 <= index < a.length) ==> {
                    &&& final(c).only_failed(*c, array_index_text(index, a.length))
                    &&& result == Some(a.data)
                }
            }
        },
{
    match context {
        None => None,
        Some(context) => {
            match array {
                None => None,
                Some(array) => {
                    if index < 0 || index >= array.length {
                        let mut message: String = "array index ".to_owned();
                        push_signed_decimal(&mut message, index as i64);
                        message.append(" is outside the valid range 0..");
                        push_signed_decimal(&mut message, array.length as i64);
                        context.fail(message);
                        return Some(array.data);
                    }
                    let step: u64 = array.element_size as u64;
                    let count: u64 = index as u64;
                    assert(count * step <= 0x7fff_ffff * 0xffff_ffff) by (nonlinear_arith)
                        requires
                            count <= 0x7fff_ffff,
                            step <= 0xffff_ffff,
                    ;
                    Some(array.data.wrapping_add(count * step))
                },
            }
        },
    }
}

pub fn aster_rt_array_length(
    context: Option<&mut ExecutionContext>,
    array: Option<&AsterArray>,
) -> (length: i32)
    ensures
        context matches Some(c) ==> *final(c) == *c,
        length == match (context, array) {
            (Some(_), Some(a)) => a.length,
            _ => 0,
        },
{
    match (context, array) {
        (Some(_), Some(array)) => array.length,
        _ => 0,
    }
}

} // verus!
