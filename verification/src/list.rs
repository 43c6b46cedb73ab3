//! Growable lists: a header of plain values and a buffer in arena memory.

use vstd::prelude::*;

use crate::arena::MAX_ALIGN;
use crate::array::{abi_size, size_from_abi};
use crate::context::{AllocationCategory, ExecutionContext};
use crate::memory::{bytes_at, has_range, overwritten, spliced, store_bytes, zeroed};
use crate::numbers::{is_power_of_two, lemma_small_power_of_two, power_of_two};
use crate::text::{decimal, push_decimal, push_signed_decimal, signed_decimal};

verus! {

/// Which arena owns a header. Recorded at allocation time, because a growing
/// buffer must go to the right arena without comparing addresses.
#[derive(Clone, Copy, Debug, PartialEq, Eq, Structural)]
pub enum ListRegion {
    Persistent,
    Temporary,
}

/// Bytes that every list header occupies in its arena.
pub const LIST_HEADER_SIZE: usize = 48;

/// Header of one `List<T>` instance.
///
/// `data` is only ever used when `capacity > 0`. A freshly allocated list has
/// `capacity == 0`, and `data` is zero in that case.
#[derive(Clone, Copy, Debug, PartialEq, Eq, Structural)]
pub struct AsterList {
    /// Where the header itself is stored.
    pub address: u64,
    /// Where the buffer starts.
    pub data: u64,
    pub length: i32,
    pub capacity: i32,
    pub element_size: u32,
    pub element_align: u32,
    /// Identity of the concrete element type.
    pub element_type_key: u64,
    /// Structural-modification counter: one more after every successful `Add`
    /// and `RemoveAt`. Only equality is ever asked of it.
    pub version: u64,
    pub region: ListRegion,
    /// Number of temporary scopes when this header was allocated, or 0 for
    /// persistent lists. A buffer that grows inside a deeper scope goes to the
    /// persistent arena, so that it survives that scope.
    pub birth_scope_depth: u32,
}

impl AsterList {
    pub fn length(&self) -> (length: i32)
        ensures
            length == self.length,
    {
        self.length
    }

    pub fn capacity(&self) -> (capacity: i32)
        ensures
            capacity == self.capacity,
    {
        self.capacity
    }

    pub fn element_size(&self) -> (size: u32)
        ensures
            size == self.element_size,
    {
        self.element_size
    }

    pub fn element_align(&self) -> (align: u32)
        ensures
            align == self.element_align,
    {
        self.element_align
    }

    pub fn element_type_key(&self) -> (key: u64)
        ensures
            key == self.element_type_key,
    {
        self.element_type_key
    }

    pub fn version(&self) -> (version: u64)
        ensures
            version == self.version,
    {
        self.version
    }

    pub fn region(&self) -> (region: ListRegion)
        ensures
            region == self.region,
    {
        self.region
    }

    /// The bytes of element `i` in memory `m`.
    pub open spec fn element(self, m: Map<int, u8>, i: int) -> Seq<u8> {
        bytes_at(m, self.data + i * self.element_size, self.element_size as nat)
    }

    /// The elements, in order.
    pub open spec fn elements(self, m: Map<int, u8>) -> Seq<Seq<u8>> {
        Seq::new(self.length as nat, |i: int| self.element(m, i))
    }

    /// Bytes that the first `n` elements take.
    pub open spec fn extent(self, n: int) -> int {
        n * self.element_size
    }
}

/// An operation on a list.
#[derive(Clone, Copy, Debug, PartialEq, Eq, Structural)]
pub enum ListOperation {
    Add,
    Get,
    RemoveAt,
}

impl ListOperation {
    /// The name of the operation.
    pub open spec fn name(self) -> Seq<char> {
        match self {
            ListOperation::Add => "Add"@,
            ListOperation::Get => "Get"@,
            ListOperation::RemoveAt => "RemoveAt"@,
        }
    }

    fn text(self) -> (text: &'static str)
        ensures
            text@ == self.name(),
    {
        match self {
            ListOperation::Add => "Add",
            ListOperation::Get => "Get",
            ListOperation::RemoveAt => "RemoveAt",
        }
    }
}

/// Everything that can be wrong with a list operation.
#[derive(Clone, Copy, Debug, PartialEq, Eq, Structural)]
pub enum ListFault {
    NullList { operation: ListOperation },
    NullSource,
    NullDestination,
    NegativeLength,
    NegativeCapacity,
    LengthAboveCapacity,
    ZeroElementSize,
    AlignNotPowerOfTwo,
    AlignTooLarge { align: u32 },
    DataWithoutCapacity,
    CapacityWithoutData,
    SizeMismatch { operation: ListOperation, expected: u32, actual: u32 },
    AlignMismatch { operation: ListOperation, expected: u32, actual: u32 },
    TypeKeyMismatch { operation: ListOperation },
    NegativeIndex { operation: ListOperation, index: i32, length: i32 },
    IndexBeyondLength { operation: ListOperation, index: i32, length: i32 },
    CapacityOverflow,
    BufferOverflow,
    GrowthWithoutScope,
    /// The storage that the header names is not allocated.
    StorageMissing { operation: ListOperation },
    RemoveIndexExtent,
    RemoveIndexRange,
    RemoveNextExtent,
    RemoveRemainingUnderflow,
    RemoveRemainingNegative,
    RemoveMoveExtent,
    RemoveLengthUnderflow,
    RemoveLastExtent,
    NewZeroElementSize,
    NewAlignNotPowerOfTwo { align: u32 },
    NewAlignTooLarge { align: u32 },
    NewWithoutScope,
}

impl ListFault {
    /// What is reported.
    pub open spec fn text(self) -> Seq<char> {
        match self {
            ListFault::NullList { operation } => "list."@ + operation.name()
                + " received a null list"@,
            ListFault::NullSource => "list.Add received a null source value"@,
            ListFault::NullDestination => "list.Get received a null destination"@,
            ListFault::NegativeLength => "list header has a negative length"@,
            ListFault::NegativeCapacity => "list header has a negative capacity"@,
            ListFault::LengthAboveCapacity =>
                "list header has a length greater than its capacity"@,
            ListFault::ZeroElementSize => "list header has a zero element size"@,
            ListFault::AlignNotPowerOfTwo =>
                "list header has a non-power-of-two element alignment"@,
            ListFault::AlignTooLarge { align } => "list header element alignment "@ + decimal(
                align as nat,
            ) + " exceeds the arena's maximum supported alignment of 16"@,
            ListFault::DataWithoutCapacity =>
                "list header has a data pointer despite zero capacity"@,
            ListFault::CapacityWithoutData =>
                "list header has a null data pointer despite a positive capacity"@,
            ListFault::SizeMismatch { operation, expected, actual } => "list."@ + operation.name()
                + " element size mismatch: expected "@ + decimal(expected as nat)
                + ", header has "@ + decimal(actual as nat),
            ListFault::AlignMismatch { operation, expected, actual } => "list."@
                + operation.name() + " element alignment mismatch: expected "@ + decimal(
                expected as nat,
            ) + ", header has "@ + decimal(actual as nat),
            ListFault::TypeKeyMismatch { operation } => "list."@ + operation.name()
                + " element type key mismatch"@,
            ListFault::NegativeIndex { operation, index, length } => "List."@ + operation.name()
                + " index "@ + signed_decimal(index as int) + " is negative (length "@
                + signed_decimal(length as int) + ")"@,
            ListFault::IndexBeyondLength { operation, index, length } => "List."@
                + operation.name() + " index "@ + signed_decimal(index as int)
                + " is out of bounds for length "@ + signed_decimal(length as int),
            ListFault::CapacityOverflow => "list capacity overflow while growing"@,
            ListFault::BufferOverflow => "list buffer size overflow while growing"@,
            ListFault::GrowthWithoutScope =>
                "temporary list growth requires an active temporary scope"@,
            ListFault::StorageMissing { operation } => "list."@ + operation.name()
                + " storage is not allocated in this context"@,
            ListFault::RemoveIndexExtent => "list.RemoveAt index * element size overflow"@,
            ListFault::RemoveIndexRange => "list.RemoveAt index overflow"@,
            ListFault::RemoveNextExtent => "list.RemoveAt (index + 1) * element size overflow"@,
            ListFault::RemoveRemainingUnderflow => "list.RemoveAt remaining element count underflow"@,
            ListFault::RemoveRemainingNegative => "list.RemoveAt remaining element count overflow"@,
            ListFault::RemoveMoveExtent => "list.RemoveAt byte count overflow"@,
            ListFault::RemoveLengthUnderflow => "list.RemoveAt length underflow"@,
            ListFault::RemoveLastExtent => "list.RemoveAt old last slot offset overflow"@,
            ListFault::NewZeroElementSize => "list element size must be greater than zero"@,
            ListFault::NewAlignNotPowerOfTwo { align } =>
                "list element alignment must be a nonzero power of two, got "@ + decimal(
                align as nat,
            ),
            ListFault::NewAlignTooLarge { align } => "list element alignment "@ + decimal(
                align as nat,
            ) + " exceeds the arena's maximum supported alignment of 16"@,
            ListFault::NewWithoutScope =>
                "temporary list allocation requires an active temporary scope"@,
        }
    }

    /// The report as a string.
    pub fn message(self) -> (message: String)
        ensures
            message@ == self.text(),
    {
        match self {
            ListFault::NullList { operation } => {
                let mut message: String = "list.".to_owned();
                message.append(operation.text());
                message.append(" received a null list");
                message
            },
            ListFault::NullSource => "list.Add received a null source value".to_owned(),
            ListFault::NullDestination => "list.Get received a null destination".to_owned(),
            ListFault::NegativeLength => "list header has a negative length".to_owned(),
            ListFault::NegativeCapacity => "list header has a negative capacity".to_owned(),
            ListFault::LengthAboveCapacity =>
                "list header has a length greater than its capacity".to_owned(),
            ListFault::ZeroElementSize => "list header has a zero element size".to_owned(),
            ListFault::AlignNotPowerOfTwo =>
                "list header has a non-power-of-two element alignment".to_owned(),
            ListFault::AlignTooLarge { align } => {
                let mut message: String = "list header element alignment ".to_owned();
                push_decimal(&mut message, align as u64);
                message.append(" exceeds the arena's maximum supported alignment of 16");
                message
            },
            ListFault::DataWithoutCapacity =>
                "list header has a data pointer despite zero capacity".to_owned(),
            ListFault::CapacityWithoutData =>
                "list header has a null data pointer despite a positive capacity".to_owned(),
            ListFault::SizeMismatch { operation, expected, actual } => {
                let mut message: String = "list.".to_owned();
                message.append(operation.text());
                message.append(" element size mismatch: expected ");
                push_decimal(&mut message, expected as u64);
                message.append(", header has ");
                push_decimal(&mut message, actual as u64);
                message
            },
            ListFault::AlignMismatch { operation, expected, actual } => {
                let mut message: String = "list.".to_owned();
                message.append(operation.text());
                message.append(" element alignment mismatch: expected ");
                push_decimal(&mut message, expected as u64);
                message.append(", header has ");
                push_decimal(&mut message, actual as u64);
                message
            },
            ListFault::TypeKeyMismatch { operation } => {
                let mut message: String = "list.".to_owned();
                message.append(operation.text());
                message.append(" element type key mismatch");
                message
            },
            ListFault::NegativeIndex { operation, index, length } => {
                let mut message: String = "List.".to_owned();
                message.append(operation.text());
                message.append(" index ");
                push_signed_decimal(&mut message, index as i64);
                message.append(" is negative (length ");
                push_signed_decimal(&mut message, length as i64);
                message.append(")");
                message
            },
            ListFault::IndexBeyondLength { operation, index, length } => {
                let mut message: String = "List.".to_owned();
                message.append(operation.text());
                message.append(" index ");
                push_signed_decimal(&mut message, index as i64);
                message.append(" is out of bounds for length ");
                push_signed_decimal(&mut message, length as i64);
                message
            },
            ListFault::CapacityOverflow => "list capacity overflow while growing".to_owned(),
            ListFault::BufferOverflow => "list buffer size overflow while growing".to_owned(),
            ListFault::GrowthWithoutScope =>
                "temporary list growth requires an active temporary scope".to_owned(),
            ListFault::StorageMissing { operation } => {
                let mut message: String = "list.".to_owned();
                message.append(operation.text());
                message.append(" storage is not allocated in this context");
                message
            },
            ListFault::RemoveIndexExtent => "list.RemoveAt index * element size overflow".to_owned(),
            ListFault::RemoveIndexRange => "list.RemoveAt index overflow".to_owned(),
            ListFault::RemoveNextExtent => "list.RemoveAt (index + 1) * element size overflow".to_owned(),
            ListFault::RemoveRemainingUnderflow => "list.RemoveAt remaining element count underflow".to_owned(),
            ListFault::RemoveRemainingNegative => "list.RemoveAt remaining element count overflow".to_owned(),
            ListFault::RemoveMoveExtent => "list.RemoveAt byte count overflow".to_owned(),
            ListFault::RemoveLengthUnderflow => "list.RemoveAt length underflow".to_owned(),
            ListFault::RemoveLastExtent => "list.RemoveAt old last slot offset overflow".to_owned(),
            ListFault::NewZeroElementSize =>
                "list element size must be greater than zero".to_owned(),
            ListFault::NewAlignNotPowerOfTwo { align } => {
                let mut message: String =
                    "list element alignment must be a nonzero power of two, got ".to_owned();
                push_decimal(&mut message, align as u64);
                message
            },
            ListFault::NewAlignTooLarge { align } => {
                let mut message: String = "list element alignment ".to_owned();
                push_decimal(&mut message, align as u64);
                message.append(" exceeds the arena's maximum supported alignment of 16");
                message
            },
            ListFault::NewWithoutScope =>
                "temporary list allocation requires an active temporary scope".to_owned(),
        }
    }
}

/// What is wrong with a header on its own.
pub open spec fn header_fault(list: AsterList) -> Option<ListFault> {
    if list.length < 0 {
        Some(ListFault::NegativeLength)
    } else if list.capacity < 0 {
        Some(ListFault::NegativeCapacity)
    } else if list.length > list.capacity {
        Some(ListFault::LengthAboveCapacity)
    } else if list.element_size == 0 {
        Some(ListFault::ZeroElementSize)
    } else if !is_power_of_two(list.element_align) {
        Some(ListFault::AlignNotPowerOfTwo)
    } else if list.element_align > MAX_ALIGN {
        Some(ListFault::AlignTooLarge { align: list.element_align })
    } else if list.capacity == 0 && list.data != 0 {
        Some(ListFault::DataWithoutCapacity)
    } else if list.capacity != 0 && list.data == 0 {
        Some(ListFault::CapacityWithoutData)
    } else {
        None
    }
}

/// What is wrong with a header for an operation that expects elements of this
/// size, alignment and type.
pub open spec fn use_fault(
    list: AsterList,
    operation: ListOperation,
    size: u32,
    align: u32,
    key: u64,
) -> Option<ListFault> {
    if header_fault(list) is Some {
        header_fault(list)
    } else if size != list.element_size {
        Some(ListFault::SizeMismatch { operation, expected: size, actual: list.element_size })
    } else if align != list.element_align {
        Some(ListFault::AlignMismatch { operation, expected: align, actual: list.element_align })
    } else if key != list.element_type_key {
        Some(ListFault::TypeKeyMismatch { operation })
    } else {
        None
    }
}

/// What is wrong with an index.
pub open spec fn index_fault(
    list: AsterList,
    operation: ListOperation,
    index: i32,
) -> Option<ListFault> {
    if index < 0 {
        Some(ListFault::NegativeIndex { operation, index, length: list.length })
    } else if index >= list.length {
        Some(ListFault::IndexBeyondLength { operation, index, length: list.length })
    } else {
        None
    }
}

fn header_fault_of(list: &AsterList) -> (fault: Option<ListFault>)
    ensures
        fault == header_fault(*list),
{
    if list.length < 0 {
        Some(ListFault::NegativeLength)
    } else if list.capacity < 0 {
        Some(ListFault::NegativeCapacity)
    } else if list.length > list.capacity {
        Some(ListFault::LengthAboveCapacity)
    } else if list.element_size == 0 {
        Some(ListFault::ZeroElementSize)
    } else if !power_of_two(list.element_align) {
        Some(ListFault::AlignNotPowerOfTwo)
    } else if list.element_align as usize > MAX_ALIGN {
        Some(ListFault::AlignTooLarge { align: list.element_align })
    } else if list.capacity == 0 && list.data != 0 {
        Some(ListFault::DataWithoutCapacity)
    } else if list.capacity != 0 && list.data == 0 {
        Some(ListFault::CapacityWithoutData)
    } else {
        None
    }
}

fn use_fault_of(list: &AsterList, operation: ListOperation, size: u32, align: u32, key: u64) -> (
fault: Option<ListFault>)
    ensures
        fault == use_fault(*list, operation, size, align, key),
{
    let fault: Option<ListFault> = header_fault_of(list);
    if fault.is_some() {
        fault
    } else if size != list.element_size {
        Some(ListFault::SizeMismatch { operation, expected: size, actual: list.element_size })
    } else if align != list.element_align {
        Some(ListFault::AlignMismatch { operation, expected: align, actual: list.element_align })
    } else if key != list.element_type_key {
        Some(ListFault::TypeKeyMismatch { operation })
    } else {
        None
    }
}

fn index_fault_of(list: &AsterList, operation: ListOperation, index: i32) -> (fault: Option<
    ListFault,
>)
    ensures
        fault == index_fault(*list, operation, index),
{
    if index < 0 {
        Some(ListFault::NegativeIndex { operation, index, length: list.length })
    } else if index >= list.length {
        Some(ListFault::IndexBeyondLength { operation, index, length: list.length })
    } else {
        None
    }
}


/// The capacity that a full list grows to.
pub open spec fn grown_capacity(capacity: i32) -> int {
    if capacity == 0 {
        4
    } else {
        capacity * 2
    }
}

impl ExecutionContext {
    /// Whether a buffer of `list` that grows now goes to the temporary arena:
    /// only while the scope that created the header is still the innermost one.
    pub open spec fn grows_temporary(&self, list: AsterList) -> bool {
        list.region == ListRegion::Temporary && self.scopes().len() == list.birth_scope_depth
    }

    /// What keeps the buffer of a full list from growing.
    pub open spec fn growth_fault(&self, list: AsterList) -> Option<ListFault> {
        if grown_capacity(list.capacity) > i32::MAX {
            Some(ListFault::CapacityOverflow)
        } else if list.extent(grown_capacity(list.capacity)) > usize::MAX {
            Some(ListFault::BufferOverflow)
        } else if list.region == ListRegion::Temporary && self.scopes().len() == 0 {
            Some(ListFault::GrowthWithoutScope)
        } else if !has_range(self.mem(), list.data as int, list.extent(list.length as int)) {
            Some(ListFault::StorageMissing { operation: ListOperation::Add })
        } else {
            None
        }
    }

    /// Records a list fault.
    fn fail_list(&mut self, fault: ListFault)
        requires
            old(self).wf(),
        ensures
            final(self).wf(),
            final(self).only_failed(*old(self), fault.text()),
    {
        let message: String = fault.message();
        self.fail(message);
    }

    /// Reports what is wrong with a header, if anything.
    pub fn validate_list_header(&mut self, list: &AsterList) -> (valid: bool)
        requires
            old(self).wf(),
        ensures
            final(self).wf(),
            valid == (header_fault(*list) is None),
            valid ==> final(self).unchanged(*old(self)),
            header_fault(*list) matches Some(fault) ==> final(self).only_failed(
                *old(self),
                fault.text(),
            ),
    {
        match header_fault_of(list) {
            None => true,
            Some(fault) => {
                self.fail_list(fault);
                false
            },
        }
    }

    /// Moves the elements of a full list to a larger buffer. Returns the new
    /// buffer and its capacity. Nothing changes when that is impossible.
    pub fn grow_list_buffer(&mut self, list: &AsterList) -> (result: Option<(u64, i32)>)
        requires
            old(self).wf(),
            header_fault(*list) is None,
        ensures
            final(self).wf(),
            old(self).scoped() ==> final(self).scoped(),
            old(self).growth_fault(*list) matches Some(fault) ==> {
                &&& result is None
                &&& final(self).only_failed(*old(self), fault.text())
            },
            old(self).growth_fault(*list) is None ==> {
                let bytes = list.extent(grown_capacity(list.capacity));
                let temporary = old(self).grows_temporary(*list);
                &&& result matches Some(buffer) ==> {
                    &&& buffer.1 == grown_capacity(list.capacity)
                    &&& final(self).placed_with(
                        *old(self),
                        temporary,
                        buffer.0,
                        bytes,
                        list.element_align as int,
                        bytes_at(
                            old(self).mem(),
                            list.data as int,
                            list.extent(list.length as int) as nat,
                        ),
                    )
                    &&& final(self).memory_statistics() == final(self).statistics_after(
                        *old(self),
                        AllocationCategory::Object,
                        bytes,
                    )
                }
                &&& result is None ==> final(self).denied(
                    *old(self),
                    temporary,
                    bytes,
                    list.element_align as int,
                )
                &&& !old(self).region(temporary).needs_page(bytes, list.element_align as int)
                    ==> result is Some
            },
    {
        let new_capacity: i32 = if list.capacity == 0 {
            4
        } else if list.capacity > 0x3fff_ffff {
            self.fail_list(ListFault::CapacityOverflow);
            return None;
        } else {
            list.capacity * 2
        };
        let size: usize = list.element_size as usize;
        proof {
            lemma_small_power_of_two(list.element_align);
            assert(list.extent(new_capacity as int) > 0) by (nonlinear_arith)
                requires
                    list.extent(new_capacity as int) == new_capacity * list.element_size,
                    new_capacity > 0,
                    list.element_size > 0,
            ;
            assert(list.extent(list.length as int) <= list.extent(new_capacity as int))
                by (nonlinear_arith)
                requires
                    list.extent(new_capacity as int) == new_capacity * list.element_size,
                    list.extent(list.length as int) == list.length * list.element_size,
                    0 <= list.length <= new_capacity,
            ;
            assert(0 <= list.extent(list.length as int)) by (nonlinear_arith)
                requires
                    list.extent(list.length as int) == list.length * list.element_size,
                    0 <= list.length,
            ;
        }
        let byte_size: usize = match (new_capacity as usize).checked_mul(size) {
            None => {
                self.fail_list(ListFault::BufferOverflow);
                return None;
            },
            Some(byte_size) => byte_size,
        };
        match list.region {
            ListRegion::Temporary => {
                if self.scope_depth() == 0 {
                    self.fail_list(ListFault::GrowthWithoutScope);
                    return None;
                }
            },
            ListRegion::Persistent => {},
        }
        let old_byte_len: usize = list.length as usize * size;
        let content: Vec<u8> = match self.read_memory(list.data, old_byte_len) {
            None => {
                self.fail_list(ListFault::StorageMissing { operation: ListOperation::Add });
                return None;
            },
            Some(content) => content,
        };
        let use_temporary: bool = match list.region {
            ListRegion::Temporary => self.scope_depth() == list.birth_scope_depth as usize,
            ListRegion::Persistent => false,
        };
        match self.allocate_with(
            use_temporary,
            byte_size,
            list.element_align as usize,
            content.as_slice(),
        ) {
            None => None,
            Some(data) => {
                self.record_allocation(AllocationCategory::Object, byte_size);
                Some((data, new_capacity))
            },
        }
    }
}


impl AsterList {
    /// A valid header whose whole buffer is allocated in `m`.
    pub open spec fn stored_in(self, m: Map<int, u8>) -> bool {
        &&& header_fault(self) is None
        &&& has_range(m, self.data as int, self.extent(self.capacity as int))
    }

    /// The header after one element was added.
    pub open spec fn after_add(self, data: u64, capacity: int) -> AsterList {
        AsterList {
            data,
            capacity: capacity as i32,
            length: (self.length + 1) as i32,
            version: self.version.wrapping_add(1),
            ..self
        }
    }

    /// The header after one element was removed.
    pub open spec fn after_remove(self) -> AsterList {
        AsterList {
            length: (self.length - 1) as i32,
            version: self.version.wrapping_add(1),
            ..self
        }
    }
}

/// Bounds of the products that locate elements.
proof fn lemma_extents(list: AsterList, i: int, n: int)
    requires
        0 <= i < n,
    ensures
        0 <= list.extent(i),
        list.extent(i) + list.element_size <= list.extent(n),
        list.extent(i + 1) == list.extent(i) + list.element_size,
{
    assert(list.extent(i + 1) == list.extent(i) + list.element_size) by (nonlinear_arith)
        requires
            list.extent(i + 1) == (i + 1) * list.element_size,
            list.extent(i) == i * list.element_size,
    ;
    assert(0 <= list.extent(i)) by (nonlinear_arith)
        requires
            list.extent(i) == i * list.element_size,
            0 <= i,
            0 <= list.element_size,
    ;
    assert(list.extent(i + 1) <= list.extent(n)) by (nonlinear_arith)
        requires
            list.extent(i + 1) == (i + 1) * list.element_size,
            list.extent(n) == n * list.element_size,
            i + 1 <= n,
            0 <= list.element_size,
    ;
}

/// Equal blocks hold equal elements.
proof fn lemma_elements_of_block(
    list: AsterList,
    m: Map<int, u8>,
    other: AsterList,
    w: Map<int, u8>,
    n: int,
)
    requires
        0 <= n,
        other.element_size == list.element_size,
        bytes_at(m, list.data as int, list.extent(n) as nat) == bytes_at(
            w,
            other.data as int,
            list.extent(n) as nat,
        ),
    ensures
        forall|i: int| 0 <= i < n ==> #[trigger] list.element(m, i) == other.element(w, i),
{
    let a = bytes_at(m, list.data as int, list.extent(n) as nat);
    let b = bytes_at(w, other.data as int, list.extent(n) as nat);
    assert forall|i: int| 0 <= i < n implies #[trigger] list.element(m, i) == other.element(
        w,
        i,
    ) by {
        lemma_extents(list, i, n);
        let x = list.element(m, i);
        let y = other.element(w, i);
        assert forall|j: int| 0 <= j < list.element_size implies #[trigger] x[j] == y[j] by {
            assert(x[j] == a[list.extent(i) + j]);
            assert(y[j] == b[list.extent(i) + j]);
        }
        assert(x =~= y);
    }
}

impl ExecutionContext {
    /// What keeps an element from being added.
    pub open spec fn add_fault(
        &self,
        list: AsterList,
        has_source: bool,
        size: u32,
        align: u32,
        key: u64,
    ) -> Option<ListFault> {
        if !has_source {
            Some(ListFault::NullSource)
        } else if use_fault(list, ListOperation::Add, size, align, key) is Some {
            use_fault(list, ListOperation::Add, size, align, key)
        } else if list.length == list.capacity {
            self.growth_fault(list)
        } else if !has_range(
            self.mem(),
            list.data + list.extent(list.length as int),
            list.element_size as int,
        ) {
            Some(ListFault::StorageMissing { operation: ListOperation::Add })
        } else {
            None
        }
    }

    /// Whether `self` came out of `before` by storing `element` in the spare
    /// room of `list`.
    pub open spec fn added_in_place(
        &self,
        before: Self,
        list: AsterList,
        element: Seq<u8>,
    ) -> bool {
        &&& self.same_but_bytes(before)
        &&& self.mem() == overwritten(
            before.mem(),
            list.data + list.extent(list.length as int),
            element,
        )
    }

    /// Whether `self` came out of `before` by moving the elements of `list` to
    /// a larger buffer at `data` and storing `element` behind them.
    pub open spec fn added_with_growth(
        &self,
        before: Self,
        list: AsterList,
        data: u64,
        element: Seq<u8>,
    ) -> bool {
        exists|grown: ExecutionContext|
            {
                &&& #[trigger] grown.placed_with(
                    before,
                    before.grows_temporary(list),
                    data,
                    list.extent(grown_capacity(list.capacity)),
                    list.element_align as int,
                    bytes_at(
                        before.mem(),
                        list.data as int,
                        list.extent(list.length as int) as nat,
                    ),
                )
                &&& grown.memory_statistics() == grown.statistics_after(
                    before,
                    AllocationCategory::Object,
                    list.extent(grown_capacity(list.capacity)),
                )
                &&& self.same_but_bytes(grown)
                &&& self.mem() == overwritten(
                    grown.mem(),
                    data + list.extent(list.length as int),
                    element,
                )
            }
    }

    /// What an addition to `list` makes of the context `before` and of the
    /// header: a report and nothing else where something is wrong; otherwise
    /// one more element, unless a larger buffer is denied.
    pub open spec fn add_outcome(
        &self,
        before: Self,
        list: AsterList,
        after: AsterList,
        size: u32,
        align: u32,
        key: u64,
        source: Option<&[u8]>,
    ) -> bool {
        match before.add_fault(list, source is Some, size, align, key) {
            Some(fault) => self.only_failed(before, fault.text()) && after == list,
            None => {
                let element = source->0@.take(list.element_size as int);
                &&& list.length < list.capacity ==> {
                    &&& after == list.after_add(list.data, list.capacity as int)
                    &&& self.added_in_place(before, list, element)
                }
                &&& list.length == list.capacity ==> {
                    ||| after == list.after_add(after.data, grown_capacity(list.capacity))
                        && self.added_with_growth(before, list, after.data, element)
                    ||| after == list && self.denied(
                        before,
                        before.grows_temporary(list),
                        list.extent(grown_capacity(list.capacity)),
                        list.element_align as int,
                    )
                }
                &&& list.stored_in(before.mem()) && after != list ==> {
                    &&& after.stored_in(self.mem())
                    &&& after.elements(self.mem()) == list.elements(before.mem()).push(element)
                }
            },
        }
    }

    /// Appends one element, growing the buffer geometrically (`0` to `4`, then
    /// doubling) when it is full. Every failure is reported and leaves the
    /// header as it was.
    pub fn list_add(
        &mut self,
        list: Option<&mut AsterList>,
        expected_element_size: u32,
        expected_element_align: u32,
        expected_element_type_key: u64,
        source: Option<&[u8]>,
    )
        requires
            old(self).wf(),
            source matches Some(s) ==> s@.len() >= expected_element_size,
        ensures
            final(self).wf(),
            old(self).scoped() ==> final(self).scoped(),
            list is None ==> final(self).only_failed(
                *old(self),
                (ListFault::NullList { operation: ListOperation::Add }).text(),
            ),
            list matches Some(l) ==> final(self).add_outcome(
                *old(self),
                *l,
                *final(l),
                expected_element_size,
                expected_element_align,
                expected_element_type_key,
                source,
            ),
    {
        let ghost before = *self;
        match list {
            None => {
                self.fail_list(ListFault::NullList { operation: ListOperation::Add });
            },
            Some(list) => {
                let ghost start = *list;
                let source: &[u8] = match source {
                    None => {
                        self.fail_list(ListFault::NullSource);
                        return ;
                    },
                    Some(source) => source,
                };
                if let Some(fault) = use_fault_of(
                    list,
                    ListOperation::Add,
                    expected_element_size,
                    expected_element_align,
                    expected_element_type_key,
                ) {
                    self.fail_list(fault);
                    return ;
                }
                let size: usize = list.element_size as usize;
                let element: &[u8] = vstd::slice::slice_subrange(source, 0, size);
                assert(element@ =~= source@.take(size as int));
                let mut data: u64 = list.data;
                let mut capacity: i32 = list.capacity;
                if list.length == list.capacity {
                    match self.grow_list_buffer(list) {
                        None => {
                            return ;
                        },
                        Some((grown_data, grown_capacity)) => {
                            data = grown_data;
                            capacity = grown_capacity;
                        },
                    }
                }
                let ghost grown = *self;
                proof {
                    lemma_extents(start, start.length as int, capacity as int);
                    if start.length == start.capacity {
                        grown.lemma_placed_with(
                            before,
                            before.grows_temporary(start),
                            data,
                            start.extent(capacity as int),
                            start.element_align as int,
                            bytes_at(
                                before.mem(),
                                start.data as int,
                                start.extent(start.length as int) as nat,
                            ),
                        );
                        assert forall|k: int|
                            data + start.extent(start.length as int) <= k < data + start.extent(
                                start.length as int,
                            ) + size implies #[trigger] grown.mem().contains_key(k) by {}
                    }
                }
                let count: u64 = list.length as u64;
                let step: u64 = list.element_size as u64;
                assert(count * step == start.extent(start.length as int));
                assert(count * step <= 0x7fff_ffff * 0xffff_ffff) by (nonlinear_arith)
                    requires
                        count <= 0x7fff_ffff,
                        step <= 0xffff_ffff,
                ;
                let offset: u64 = count * step;
                if offset > u64::MAX - data || !self.write_memory(data + offset, element) {
                    proof {
                        before.lemma_memory_below_end();
                        if start.length == start.capacity {
                            assert(has_range(grown.mem(), data + offset, size as int));
                            assert(data + start.extent(capacity as int) <= u64::MAX);
                        } else if offset > u64::MAX - data {
                            if has_range(before.mem(), data + offset, size as int) {
                                assert(before.mem().contains_key(data + offset));
                            }
                        }
                    }
                    self.fail_list(ListFault::StorageMissing { operation: ListOperation::Add });
                    return ;
                }
                list.data = data;
                list.capacity = capacity;
                list.length = list.length + 1;
                list.version = list.version.wrapping_add(1);
                proof {
                    lemma_list_added(start, before.mem(), *list, grown.mem(), self.mem(), element@);
                    if start.length == start.capacity {
                        assert(self.added_with_growth(before, start, data, element@));
                    }
                }
            },
        }
    }
}

/// The list after an addition holds the old elements and the new one.
proof fn lemma_list_added(
    start: AsterList,
    m: Map<int, u8>,
    list: AsterList,
    grown: Map<int, u8>,
    after: Map<int, u8>,
    element: Seq<u8>,
)
    requires
        header_fault(start) is None,
        element.len() == start.element_size,
        start.length < list.capacity,
        list == start.after_add(list.data, list.capacity as int),
        list.data != 0,
        after == overwritten(grown, list.data + start.extent(start.length as int), element),
        start.length < start.capacity ==> grown == m && list.data == start.data && list.capacity
            == start.capacity,
        start.length == start.capacity ==> {
            &&& has_range(grown, list.data as int, start.extent(list.capacity as int))
            &&& bytes_at(grown, list.data as int, start.extent(start.length as int) as nat)
                == bytes_at(m, start.data as int, start.extent(start.length as int) as nat)
        },
    ensures
        start.stored_in(m) ==> {
            &&& list.stored_in(after)
            &&& list.elements(after) == start.elements(m).push(element)
        },
{
    if start.stored_in(m) {
        let n = start.length as int;
        lemma_extents(start, n, list.capacity as int);
        assert(has_range(grown, list.data as int, list.extent(list.capacity as int)));
        assert forall|k: int| list.data <= k < list.data + list.extent(
            list.capacity as int,
        ) implies #[trigger] after.contains_key(k) by {
            assert(grown.contains_key(k));
        }
        lemma_elements_of_block(start, m, list, grown, n);
        assert forall|i: int| 0 <= i < n + 1 implies #[trigger] list.elements(after)[i]
            == start.elements(m).push(element)[i] by {
            if i < n {
                lemma_extents(start, i, n);
                let x = list.element(after, i);
                let y = list.element(grown, i);
                assert forall|j: int| 0 <= j < start.element_size implies #[trigger] x[j]
                    == y[j] by {
                    assert(grown.contains_key(list.data + list.extent(i) + j));
                }
                assert(x =~= y);
                assert(start.element(m, i) == list.element(grown, i));
            } else {
                let x = list.element(after, n);
                assert forall|j: int| 0 <= j < start.element_size implies #[trigger] x[j]
                    == element[j] by {
                    assert(grown.contains_key(list.data + list.extent(n) + j));
                }
                assert(x =~= element);
            }
        }
        assert(list.elements(after) =~= start.elements(m).push(element));
    }
}


impl ExecutionContext {
    /// What keeps an element from being read.
    pub open spec fn get_fault(
        &self,
        list: AsterList,
        has_destination: bool,
        size: u32,
        align: u32,
        key: u64,
        index: i32,
    ) -> Option<ListFault> {
        if !has_destination {
            Some(ListFault::NullDestination)
        } else if use_fault(list, ListOperation::Get, size, align, key) is Some {
            use_fault(list, ListOperation::Get, size, align, key)
        } else if index_fault(list, ListOperation::Get, index) is Some {
            index_fault(list, ListOperation::Get, index)
        } else if !has_range(
            self.mem(),
            list.data + list.extent(index as int),
            list.element_size as int,
        ) {
            Some(ListFault::StorageMissing { operation: ListOperation::Get })
        } else {
            None
        }
    }

    /// What a read makes of the context `before`: a report where something is
    /// wrong, and nothing otherwise.
    pub open spec fn after_read(&self, before: Self, fault: Option<ListFault>) -> bool {
        match fault {
            Some(fault) => self.only_failed(before, fault.text()),
            None => self.unchanged(before),
        }
    }

    /// Copies the bytes of element `index` into `destination`. Never changes the
    /// list; a failure is reported and leaves `destination` untouched.
    pub fn list_get(
        &mut self,
        list: Option<&AsterList>,
        expected_element_size: u32,
        expected_element_align: u32,
        expected_element_type_key: u64,
        index: i32,
        destination: Option<&mut Vec<u8>>,
    )
        requires
            old(self).wf(),
            destination matches Some(d) ==> d@.len() >= expected_element_size,
        ensures
            final(self).wf(),
            list is None ==> {
                &&& final(self).only_failed(
                    *old(self),
                    (ListFault::NullList { operation: ListOperation::Get }).text(),
                )
                &&& destination matches Some(d) ==> final(d)@ == d@
            },
            list matches Some(l) ==> {
                let fault = old(self).get_fault(
                    *l,
                    destination is Some,
                    expected_element_size,
                    expected_element_align,
                    expected_element_type_key,
                    index,
                );
                &&& final(self).after_read(*old(self), fault)
                &&& destination matches Some(d) ==> final(d)@ == match fault {
                    Some(_) => d@,
                    None => spliced(d@, 0, l.element(old(self).mem(), index as int)),
                }
            },
    {
        let list: &AsterList = match list {
            None => {
                self.fail_list(ListFault::NullList { operation: ListOperation::Get });
                return ;
            },
            Some(list) => list,
        };
        let destination: &mut Vec<u8> = match destination {
            None => {
                self.fail_list(ListFault::NullDestination);
                return ;
            },
            Some(destination) => destination,
        };
        if let Some(fault) = use_fault_of(
            list,
            ListOperation::Get,
            expected_element_size,
            expected_element_align,
            expected_element_type_key,
        ) {
            self.fail_list(fault);
            return ;
        }
        if let Some(fault) = index_fault_of(list, ListOperation::Get, index) {
            self.fail_list(fault);
            return ;
        }
        let count: u64 = index as u64;
        let step: u64 = list.element_size as u64;
        assert(count * step == list.extent(index as int));
        assert(count * step <= 0x7fff_ffff * 0xffff_ffff) by (nonlinear_arith)
            requires
                count <= 0x7fff_ffff,
                step <= 0xffff_ffff,
        ;
        let offset: u64 = count * step;
        let element: Option<Vec<u8>> = if offset > u64::MAX - list.data {
            proof {
                self.lemma_memory_below_end();
                if has_range(self.mem(), list.data + offset, list.element_size as int) {
                    assert(self.mem().contains_key(list.data + offset));
                }
            }
            None
        } else {
            self.read_memory(list.data + offset, list.element_size as usize)
        };
        match element {
            None => {
                self.fail_list(ListFault::StorageMissing { operation: ListOperation::Get });
            },
            Some(element) => {
                store_bytes(destination, 0, element.as_slice());
            },
        }
    }
}

/// What keeps the offsets of a removal from being computed.
pub open spec fn remove_offset_fault(length: i32, index: i32, size: int) -> Option<ListFault> {
    if index < 0 || index * size > usize::MAX {
        Some(ListFault::RemoveIndexExtent)
    } else if index == i32::MAX {
        Some(ListFault::RemoveIndexRange)
    } else if (index + 1) * size > usize::MAX {
        Some(ListFault::RemoveNextExtent)
    } else if length - (index + 1) < i32::MIN {
        Some(ListFault::RemoveRemainingUnderflow)
    } else if length - (index + 1) < 0 {
        Some(ListFault::RemoveRemainingNegative)
    } else if (length - (index + 1)) * size > usize::MAX {
        Some(ListFault::RemoveMoveExtent)
    } else if length == i32::MIN {
        Some(ListFault::RemoveLengthUnderflow)
    } else if length - 1 < 0 || (length - 1) * size > usize::MAX {
        Some(ListFault::RemoveLastExtent)
    } else {
        None
    }
}

fn checked_extent(count: i32, size: usize) -> (extent: Option<usize>)
    ensures
        extent is Some <==> count >= 0 && count * size <= usize::MAX,
        extent matches Some(bytes) ==> bytes == count * size,
{
    if count < 0 {
        None
    } else {
        (count as usize).checked_mul(size)
    }
}

impl ExecutionContext {
    /// Computes every offset `RemoveAt` needs: the removed slot's offset, the
    /// offset of the first element after it, how many bytes to shift, the new
    /// length, and the offset of the slot that falls out of range.
    pub fn compute_remove_at_offsets(&mut self, length: i32, index: i32, element_size: usize) -> (
    result: Option<(usize, usize, usize, i32, usize)>)
        requires
            old(self).wf(),
        ensures
            final(self).wf(),
            remove_offset_fault(length, index, element_size as int) matches Some(fault) ==> {
                &&& result is None
                &&& final(self).only_failed(*old(self), fault.text())
            },
            remove_offset_fault(length, index, element_size as int) is None ==> {
                &&& final(self).unchanged(*old(self))
                &&& result matches Some((removed, next, moved, shorter, last))
                &&& removed == index * element_size
                &&& next == (index + 1) * element_size
                &&& moved == (length - (index + 1)) * element_size
                &&& shorter == length - 1
                &&& last == (length - 1) * element_size
            },
    {
        let index_offset: usize = match checked_extent(index, element_size) {
            None => {
                self.fail_list(ListFault::RemoveIndexExtent);
                return None;
            },
            Some(offset) => offset,
        };
        let next_index: i32 = match index.checked_add(1) {
            None => {
                self.fail_list(ListFault::RemoveIndexRange);
                return None;
            },
            Some(next_index) => next_index,
        };
        let source_offset: usize = match checked_extent(next_index, element_size) {
            None => {
                self.fail_list(ListFault::RemoveNextExtent);
                return None;
            },
            Some(offset) => offset,
        };
        let remaining: i32 = match length.checked_sub(next_index) {
            None => {
                self.fail_list(ListFault::RemoveRemainingUnderflow);
                return None;
            },
            Some(remaining) => remaining,
        };
        if remaining < 0 {
            self.fail_list(ListFault::RemoveRemainingNegative);
            return None;
        }
        let move_bytes: usize = match checked_extent(remaining, element_size) {
            None => {
                self.fail_list(ListFault::RemoveMoveExtent);
                return None;
            },
            Some(bytes) => bytes,
        };
        let new_length: i32 = match length.checked_sub(1) {
            None => {
                self.fail_list(ListFault::RemoveLengthUnderflow);
                return None;
            },
            Some(new_length) => new_length,
        };
        let old_last_offset: usize = match checked_extent(new_length, element_size) {
            None => {
                self.fail_list(ListFault::RemoveLastExtent);
                return None;
            },
            Some(offset) => offset,
        };
        Some((index_offset, source_offset, move_bytes, new_length, old_last_offset))
    }

    /// What keeps an element from being removed.
    pub open spec fn remove_fault(
        &self,
        list: AsterList,
        size: u32,
        align: u32,
        key: u64,
        index: i32,
    ) -> Option<ListFault> {
        if use_fault(list, ListOperation::RemoveAt, size, align, key) is Some {
            use_fault(list, ListOperation::RemoveAt, size, align, key)
        } else if index_fault(list, ListOperation::RemoveAt, index) is Some {
            index_fault(list, ListOperation::RemoveAt, index)
        } else if remove_offset_fault(list.length, index, list.element_size as int) is Some {
            remove_offset_fault(list.length, index, list.element_size as int)
        } else if !has_range(
            self.mem(),
            list.data + list.extent(index as int),
            list.extent(list.length as int) - list.extent(index as int),
        ) {
            Some(ListFault::StorageMissing { operation: ListOperation::RemoveAt })
        } else {
            None
        }
    }

    /// What a removal from `list` makes of the context `before` and of the
    /// header: a report and nothing else where something is wrong; otherwise
    /// the later elements move one slot down and the last slot becomes zero.
    pub open spec fn remove_outcome(
        &self,
        before: Self,
        list: AsterList,
        after: AsterList,
        size: u32,
        align: u32,
        key: u64,
        index: i32,
    ) -> bool {
        match before.remove_fault(list, size, align, key, index) {
            Some(fault) => self.only_failed(before, fault.text()) && after == list,
            None => {
                let from = list.data + list.extent(index + 1);
                let count = list.extent(list.length as int) - list.extent(index + 1);
                &&& after == list.after_remove()
                &&& self.same_but_bytes(before)
                &&& self.mem() == overwritten(
                    before.mem(),
                    list.data + list.extent(index as int),
                    bytes_at(before.mem(), from, count as nat) + zeroed(list.element_size as nat),
                )
                &&& list.stored_in(before.mem()) ==> {
                    &&& after.stored_in(self.mem())
                    &&& after.elements(self.mem()) == list.elements(before.mem()).remove(
                        index as int,
                    )
                }
            },
        }
    }

    /// Removes element `index`, shifting every later element one slot left, and
    /// zeroes the vacated last slot. Never allocates, never touches the
    /// capacity or the buffer's place. A failure is reported and changes
    /// nothing.
    pub fn list_remove_at(
        &mut self,
        list: Option<&mut AsterList>,
        expected_element_size: u32,
        expected_element_align: u32,
        expected_element_type_key: u64,
        index: i32,
    )
        requires
            old(self).wf(),
        ensures
            final(self).wf(),
            old(self).scoped() ==> final(self).scoped(),
            list is None ==> final(self).only_failed(
                *old(self),
                (ListFault::NullList { operation: ListOperation::RemoveAt }).text(),
            ),
            list matches Some(l) ==> final(self).remove_outcome(
                *old(self),
                *l,
                *final(l),
                expected_element_size,
                expected_element_align,
                expected_element_type_key,
                index,
            ),
    {
        let ghost before = *self;
        match list {
            None => {
                self.fail_list(ListFault::NullList { operation: ListOperation::RemoveAt });
            },
            Some(list) => {
                let ghost start = *list;
                if let Some(fault) = use_fault_of(
                    list,
                    ListOperation::RemoveAt,
                    expected_element_size,
                    expected_element_align,
                    expected_element_type_key,
                ) {
                    self.fail_list(fault);
                    return ;
                }
                if let Some(fault) = index_fault_of(list, ListOperation::RemoveAt, index) {
                    self.fail_list(fault);
                    return ;
                }
                let size: usize = list.element_size as usize;
                let (index_offset, source_offset, move_bytes, new_length, _old_last_offset) =
                    match self.compute_remove_at_offsets(list.length, index, size) {
                    None => {
                        return ;
                    },
                    Some(offsets) => offsets,
                };
                proof {
                    lemma_extents(start, index as int, start.length as int);
                    assert(move_bytes == start.extent(start.length as int) - start.extent(
                        index + 1,
                    )) by (nonlinear_arith)
                        requires
                            move_bytes == (start.length - (index + 1)) * start.element_size,
                            start.extent(start.length as int) == start.length * start.element_size,
                            start.extent(index + 1) == (index + 1) * start.element_size,
                    ;
                    before.lemma_memory_below_end();
                }
                let first: u64 = index_offset as u64;
                let second: u64 = source_offset as u64;
                if second > u64::MAX - list.data || !self.is_allocated(list.data + first, size)
                    || !self.is_allocated(list.data + second, move_bytes) {
                    proof {
                        if has_range(before.mem(), start.data + first, size + move_bytes) {
                            assert(before.mem().contains_key(start.data + first));
                            assert(before.mem().contains_key(start.data + first + size - 1));
                            assert(has_range(before.mem(), start.data + first, size as int));
                            assert(has_range(
                                before.mem(),
                                start.data + second,
                                move_bytes as int,
                            ));
                        }
                    }
                    self.fail_list(
                        ListFault::StorageMissing { operation: ListOperation::RemoveAt },
                    );
                    return ;
                }
                let mut block: Vec<u8> = match self.read_memory(list.data + second, move_bytes) {
                    None => {
                        proof {
                            assert forall|k: int|
                                start.data + second <= k < start.data + second + move_bytes implies
                                #[trigger] before.mem().contains_key(k) by {}
                        }
                        return ;
                    },
                    Some(block) => block,
                };
                let ghost moved = block@;
                let mut blank: Vec<u8> = vec![0u8; size];
                block.append(&mut blank);
                proof {
                    assert(block@ =~= moved + zeroed(size as nat));
                }
                let _stored: bool = self.write_memory(list.data + first, block.as_slice());
                list.length = new_length;
                list.version = list.version.wrapping_add(1);
                proof {
                    lemma_list_removed(start, before.mem(), *list, self.mem(), index as int);
                }
            },
        }
    }
}

/// The list after a removal holds the other elements, in order.
proof fn lemma_list_removed(
    start: AsterList,
    m: Map<int, u8>,
    list: AsterList,
    after: Map<int, u8>,
    index: int,
)
    requires
        header_fault(start) is None,
        0 <= index < start.length,
        list == start.after_remove(),
        after == overwritten(
            m,
            start.data + start.extent(index),
            bytes_at(
                m,
                start.data + start.extent(index + 1),
                (start.extent(start.length as int) - start.extent(index + 1)) as nat,
            ) + zeroed(start.element_size as nat),
        ),
    ensures
        start.stored_in(m) ==> {
            &&& list.stored_in(after)
            &&& list.elements(after) == start.elements(m).remove(index)
        },
{
    if start.stored_in(m) {
        let n = start.length as int;
        let size = start.element_size as int;
        lemma_extents(start, index, n);
        if n < start.capacity {
            lemma_extents(start, n, start.capacity as int);
        }
        let moved = bytes_at(
            m,
            start.data + start.extent(index + 1),
            (start.extent(n) - start.extent(index + 1)) as nat,
        );
        assert forall|k: int| start.data <= k < start.data + start.extent(
            start.capacity as int,
        ) implies #[trigger] after.contains_key(k) by {
            assert(m.contains_key(k));
        }
        assert forall|i: int| 0 <= i < n - 1 implies #[trigger] list.elements(after)[i]
            == start.elements(m).remove(index)[i] by {
            lemma_extents(start, i, n);
            lemma_extents(start, i, n - 1);
            lemma_extents(start, i + 1, n);
            let x = list.element(after, i);
            if i < index {
                lemma_extents(start, i, index);
                let y = start.element(m, i);
                assert forall|j: int| 0 <= j < size implies #[trigger] x[j] == y[j] by {
                    assert(m.contains_key(start.data + start.extent(i) + j));
                }
                assert(x =~= y);
            } else {
                if index < i {
                    lemma_extents(start, index, i);
                }
                let y = start.element(m, i + 1);
                assert forall|j: int| 0 <= j < size implies #[trigger] x[j] == y[j] by {
                    let k = start.data + start.extent(i) + j;
                    assert(m.contains_key(k));
                    let o = start.extent(i) - start.extent(index) + j;
                    assert(0 <= o < moved.len());
                    assert(after[k] == (moved + zeroed(size as nat))[o]);
                    assert(moved[o] == m[start.data + start.extent(index + 1) + o]);
                    assert(start.extent(i + 1) == start.extent(i) + size);
                    assert(start.extent(index + 1) == start.extent(index) + size);
                }
                assert(x =~= y);
            }
        }
        assert(list.elements(after) =~= start.elements(m).remove(index));
    }
}


/// What keeps a list from being created.
pub open spec fn new_fault(element_size: u32, element_align: u32) -> Option<ListFault> {
    if element_size == 0 {
        Some(ListFault::NewZeroElementSize)
    } else if !is_power_of_two(element_align) {
        Some(ListFault::NewAlignNotPowerOfTwo { align: element_align })
    } else if element_align > MAX_ALIGN {
        Some(ListFault::NewAlignTooLarge { align: element_align })
    } else {
        None
    }
}

impl ExecutionContext {
    /// What creating a list makes of the context `before`: a report and nothing
    /// else where something is wrong; otherwise an empty list, unless the memory
    /// for its header is denied.
    pub open spec fn new_list_outcome(
        &self,
        before: Self,
        result: Option<AsterList>,
        element_size: u32,
        element_align: u32,
        element_type_key: u64,
        region: ListRegion,
    ) -> bool {
        let temporary = region == ListRegion::Temporary;
        let fault = if new_fault(element_size, element_align) is Some {
            new_fault(element_size, element_align)
        } else if temporary && before.scopes().len() == 0 {
            Some(ListFault::NewWithoutScope)
        } else {
            None
        };
        match fault {
            Some(fault) => result is None && self.only_failed(before, fault.text()),
            None => {
                &&& result matches Some(list) ==> {
                    &&& list == (AsterList {
                        address: list.address,
                        data: 0,
                        length: 0,
                        capacity: 0,
                        element_size,
                        element_align,
                        element_type_key,
                        version: 0,
                        region,
                        birth_scope_depth: if !temporary {
                            0
                        } else if before.scopes().len() > u32::MAX {
                            u32::MAX
                        } else {
                            before.scopes().len() as u32
                        },
                    })
                    &&& list.stored_in(self.mem())
                    &&& list.elements(self.mem()) == Seq::<Seq<u8>>::empty()
                    &&& self.allocated_counted(
                        before,
                        temporary,
                        list.address,
                        LIST_HEADER_SIZE as int,
                        8,
                        AllocationCategory::Object,
                    )
                }
                &&& result is None ==> self.denied(before, temporary, LIST_HEADER_SIZE as int, 8)
            },
        }
    }

    /// Allocates an empty list header (`length == capacity == 0`, no buffer
    /// yet) in the arena selected by `region`. Every failure is reported, and
    /// nothing is written until every validation has passed.
    pub fn allocate_list_in_region(
        &mut self,
        element_size: u32,
        element_align: u32,
        element_type_key: u64,
        region: ListRegion,
    ) -> (result: Option<AsterList>)
        requires
            old(self).wf(),
        ensures
            final(self).wf(),
            old(self).scoped() ==> final(self).scoped(),
            final(self).new_list_outcome(
                *old(self),
                result,
                element_size,
                element_align,
                element_type_key,
                region,
            ),
    {
        if element_size == 0 {
            self.fail_list(ListFault::NewZeroElementSize);
            return None;
        }
        if !power_of_two(element_align) {
            self.fail_list(ListFault::NewAlignNotPowerOfTwo { align: element_align });
            return None;
        }
        if element_align as usize > MAX_ALIGN {
            self.fail_list(ListFault::NewAlignTooLarge { align: element_align });
            return None;
        }
        let temporary: bool = region == ListRegion::Temporary;
        let depth: usize = self.scope_depth();
        if temporary && depth == 0 {
            self.fail_list(ListFault::NewWithoutScope);
            return None;
        }
        match self.allocate_counted(temporary, LIST_HEADER_SIZE, 8, AllocationCategory::Object) {
            None => None,
            Some(address) => {
                let list = AsterList {
                    address,
                    data: 0,
                    length: 0,
                    capacity: 0,
                    element_size,
                    element_align,
                    element_type_key,
                    version: 0,
                    region,
                    birth_scope_depth: if !temporary {
                        0
                    } else if depth > 0xffff_ffff {
                        0xffff_ffff
                    } else {
                        depth as u32
                    },
                };
                assert(list.elements(self.mem()) =~= Seq::<Seq<u8>>::empty());
                Some(list)
            },
        }
    }
}

/// Creates a persistent list. Without a context there is nothing to do.
pub fn aster_rt_list_new(
    context: Option<&mut ExecutionContext>,
    element_size: i32,
    element_align: i32,
    element_type_key: i64,
) -> (result: Option<AsterList>)
    requires
        context matches Some(c) ==> c.wf(),
    ensures
        context is None ==> result is None,
        context matches Some(c) ==> {
            &&& final(c).wf()
            &&& c.scoped() ==> final(c).scoped()
            &&& final(c).new_list_outcome(
                *c,
                result,
                abi_size(element_size, 0),
                abi_size(element_align, 0),
                element_type_key as u64,
                ListRegion::Persistent,
            )
        },
{
    match context {
        None => None,
        Some(context) => context.allocate_list_in_region(
            size_from_abi(element_size, 0),
            size_from_abi(element_align, 0),
            element_type_key as u64,
            ListRegion::Persistent,
        ),
    }
}

/// Creates a list that lives until its scope is left.
pub fn aster_rt_list_new_temporary(
    context: Option<&mut ExecutionContext>,
    element_size: i32,
    element_align: i32,
    element_type_key: i64,
) -> (result: Option<AsterList>)
    requires
        context matches Some(c) ==> c.wf(),
    ensures
        context is None ==> result is None,
        context matches Some(c) ==> {
            &&& final(c).wf()
            &&& c.scoped() ==> final(c).scoped()
            &&& final(c).new_list_outcome(
                *c,
                result,
                abi_size(element_size, 0),
                abi_size(element_align, 0),
                element_type_key as u64,
                ListRegion::Temporary,
            )
        },
{
    match context {
        None => None,
        Some(context) => context.allocate_list_in_region(
            size_from_abi(element_size, 0),
            size_from_abi(element_align, 0),
            element_type_key as u64,
            ListRegion::Temporary,
        ),
    }
}

/// How many elements a list holds, or zero where its header is not valid.
pub fn aster_rt_list_length(
    context: Option<&mut ExecutionContext>,
    list: Option<&AsterList>,
) -> (length: i32)
    requires
        context matches Some(c) ==> c.wf(),
    ensures
        context is None || list is None ==> length == 0,
        context matches Some(c) ==> {
            &&& final(c).wf()
            &&& list is None ==> final(c).unchanged(*c)
            &&& list matches Some(l) ==> {
                &&& final(c).after_read(*c, header_fault(*l))
                &&& length == if header_fault(*l) is Some {
                    0
                } else {
                    l.length
                }
            }
        },
{
    match (context, list) {
        (Some(context), Some(list)) => if context.validate_list_header(list) {
            list.length
        } else {
            0
        },
        _ => 0,
    }
}

/// Reads the structural-modification counter of a list.
pub fn aster_rt_list_version(
    context: Option<&mut ExecutionContext>,
    list: Option<&AsterList>,
) -> (version: i64)
    requires
        context matches Some(c) ==> c.wf(),
    ensures
        context is None || list is None ==> version == 0,
        context matches Some(c) ==> {
            &&& final(c).wf()
            &&& list is None ==> final(c).unchanged(*c)
            &&& list matches Some(l) ==> {
                &&& final(c).after_read(*c, header_fault(*l))
                &&& version == if header_fault(*l) is Some {
                    0
                } else {
                    l.version as i64
                }
            }
        },
{
    match (context, list) {
        (Some(context), Some(list)) => if context.validate_list_header(list) {
            list.version as i64
        } else {
            0
        },
        _ => 0,
    }
}

/// Reports that a list was modified while it was walked.
pub fn aster_rt_list_version_mismatch(context: Option<&mut ExecutionContext>)
    requires
        context matches Some(c) ==> c.wf(),
    ensures
        context matches Some(c) ==> final(c).wf() && final(c).only_failed(
            *c,
            "list was structurally modified during foreach iteration"@,
        ),
{
    if let Some(context) = context {
        context.fail_with("list was structurally modified during foreach iteration");
    }
}

/// Appends one element. Without a context there is nothing to do.
pub fn aster_rt_list_add(
    context: Option<&mut ExecutionContext>,
    list: Option<&mut AsterList>,
    expected_element_size: i32,
    expected_element_align: i32,
    expected_element_type_key: i64,
    source: Option<&[u8]>,
)
    requires
        context matches Some(c) ==> c.wf(),
        source matches Some(s) ==> s@.len() >= expected_element_size,
    ensures
        context is None ==> (list matches Some(l) ==> *final(l) == *l),
        context matches Some(c) ==> {
            &&& final(c).wf()
            &&& c.scoped() ==> final(c).scoped()
            &&& list is None ==> final(c).only_failed(
                *c,
                (ListFault::NullList { operation: ListOperation::Add }).text(),
            )
            &&& list matches Some(l) ==> final(c).add_outcome(
                *c,
                *l,
                *final(l),
                abi_size(expected_element_size, 0),
                abi_size(expected_element_align, 0),
                expected_element_type_key as u64,
                source,
            )
        },
{
    if let Some(context) = context {
        context.list_add(
            list,
            size_from_abi(expected_element_size, 0),
            size_from_abi(expected_element_align, 0),
            expected_element_type_key as u64,
            source,
        );
    }
}

/// Copies one element out. Without a context there is nothing to do.
pub fn aster_rt_list_get(
    context: Option<&mut ExecutionContext>,
    list: Option<&AsterList>,
    expected_element_size: i32,
    expected_element_align: i32,
    expected_element_type_key: i64,
    index: i32,
    destination: Option<&mut Vec<u8>>,
)
    requires
        context matches Some(c) ==> c.wf(),
        destination matches Some(d) ==> d@.len() >= expected_element_size,
    ensures
        context is None ==> (destination matches Some(d) ==> final(d)@ == d@),
        context matches Some(c) ==> {
            &&& final(c).wf()
            &&& list is None ==> {
                &&& final(c).only_failed(
                    *c,
                    (ListFault::NullList { operation: ListOperation::Get }).text(),
                )
                &&& destination matches Some(d) ==> final(d)@ == d@
            }
            &&& list matches Some(l) ==> {
                let fault = c.get_fault(
                    *l,
                    destination is Some,
                    abi_size(expected_element_size, 0),
                    abi_size(expected_element_align, 0),
                    expected_element_type_key as u64,
                    index,
                );
                &&& final(c).after_read(*c, fault)
                &&& destination matches Some(d) ==> final(d)@ == match fault {
                    Some(_) => d@,
                    None => spliced(d@, 0, l.element(c.mem(), index as int)),
                }
            }
        },
{
    if let Some(context) = context {
        context.list_get(
            list,
            size_from_abi(expected_element_size, 0),
            size_from_abi(expected_element_align, 0),
            expected_element_type_key as u64,
            index,
            destination,
        );
    }
}

/// Removes one element. Without a context there is nothing to do.
pub fn aster_rt_list_remove_at(
    context: Option<&mut ExecutionContext>,
    list: Option<&mut AsterList>,
    expected_element_size: i32,
    expected_element_align: i32,
    expected_element_type_key: i64,
    index: i32,
)
    requires
        context matches Some(c) ==> c.wf(),
    ensures
        context is None ==> (list matches Some(l) ==> *final(l) == *l),
        context matches Some(c) ==> {
            &&& final(c).wf()
            &&& c.scoped() ==> final(c).scoped()
            &&& list is None ==> final(c).only_failed(
                *c,
                (ListFault::NullList { operation: ListOperation::RemoveAt }).text(),
            )
            &&& list matches Some(l) ==> final(c).remove_outcome(
                *c,
                *l,
                *final(l),
                abi_size(expected_element_size, 0),
                abi_size(expected_element_align, 0),
                expected_element_type_key as u64,
                index,
            )
        },
{
    if let Some(context) = context {
        context.list_remove_at(
            list,
            size_from_abi(expected_element_size, 0),
            size_from_abi(expected_element_align, 0),
            expected_element_type_key as u64,
            index,
        );
    }
}

/// An element that was added is read back at the index that was the length
/// before, and every earlier element is where it was.
pub proof fn law_added_element_is_read_back(
    before: ExecutionContext,
    after: ExecutionContext,
    list: AsterList,
    longer: AsterList,
    size: u32,
    align: u32,
    key: u64,
    source: &[u8],
)
    requires
        list.stored_in(before.mem()),
        source@.len() >= size,
        after.add_outcome(before, list, longer, size, align, key, Some(source)),
        longer != list,
    ensures
        longer.length == list.length + 1,
        longer.element(after.mem(), list.length as int) == source@.take(size as int),
        after.get_fault(longer, true, size, align, key, list.length) is None,
        forall|i: int| 0 <= i < list.length ==> #[trigger] longer.element(after.mem(), i)
            == list.element(before.mem(), i),
{
    let n = list.length as int;
    let a = longer.elements(after.mem());
    let b = list.elements(before.mem());
    assert(a[n] == longer.element(after.mem(), n));
    assert forall|i: int| 0 <= i < n implies #[trigger] longer.element(after.mem(), i)
        == list.element(before.mem(), i) by {
        assert(a[i] == longer.element(after.mem(), i));
        assert(b[i] == list.element(before.mem(), i));
    }
    lemma_extents(longer, n, longer.capacity as int);
    assert(has_range(
        after.mem(),
        longer.data + longer.extent(n),
        longer.element_size as int,
    ));
}

/// Removing the element that was just added gives back the elements that were
/// there before, and the modification counter has moved on by two.
pub proof fn law_removal_undoes_addition(
    before: ExecutionContext,
    added: ExecutionContext,
    removed: ExecutionContext,
    list: AsterList,
    longer: AsterList,
    shorter: AsterList,
    size: u32,
    align: u32,
    key: u64,
    source: &[u8],
)
    requires
        list.stored_in(before.mem()),
        source@.len() >= size,
        added.add_outcome(before, list, longer, size, align, key, Some(source)),
        longer != list,
        removed.remove_outcome(added, longer, shorter, size, align, key, list.length),
        shorter != longer,
    ensures
        shorter.elements(removed.mem()) == list.elements(before.mem()),
        shorter.length == list.length,
        shorter.version == list.version.wrapping_add(1).wrapping_add(1),
{
    let e = list.elements(before.mem());
    let x = source@.take(list.element_size as int);
    assert(e.push(x).remove(e.len() as int) =~= e);
}

} // verus!
