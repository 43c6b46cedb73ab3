//! Insertion-ordered dictionaries: a header of plain values, and bucket and
//! entry buffers in arena memory.

use vstd::bytes::{
    lemma_auto_spec_u32_to_from_le_bytes, lemma_auto_spec_u64_to_from_le_bytes,
    spec_u32_from_le_bytes, spec_u32_to_le_bytes, spec_u64_from_le_bytes, spec_u64_to_le_bytes,
    u32_from_le_bytes, u32_to_le_bytes, u64_from_le_bytes, u64_to_le_bytes,
};
use vstd::prelude::*;
use vstd::slice::{slice_subrange, slice_to_vec};

use crate::array::{array_bytes, array_report, array_scope_text, AsterArray};
use crate::arena::{align_up, lemma_round_up, round_up, valid_align, MAX_ALIGN};
use crate::context::{
    first_error, with_allocation, with_usage, AllocationCategory, ExecutionContext, MemoryStats,
};
use crate::dictionary_table::{
    bucket_of, heads_of, key_content, lemma_bucket_of, lemma_live_cells, lemma_relinked_push,
    live_cells, live_entries, relinked, walk, DictionaryCell, DictionaryKeyKind, DictionarySearch,
    DictionaryTable, DICTIONARY_EMPTY_BUCKET,
};
use crate::list::ListRegion;
use crate::memory::{
    bytes_at, has_range, lacks_range, overwritten, preserved, same_bytes, spliced, store_bytes,
    zeroed,
};
use crate::numbers::{is_power_of_two, lemma_small_power_of_two, power_of_two};
use crate::siphash::{sip_hash, siphash13};
use crate::text::{decimal, push_decimal};
use crate::words::{encode_words, encoded_words};

verus! {

/// Bytes that every dictionary header occupies in its arena.
pub const DICTIONARY_HEADER_SIZE: usize = 80;

pub const DICTIONARY_INITIAL_CAPACITY: i32 = 8;

/// How many entries a dictionary can hold.
pub const DICTIONARY_MAX_ENTRIES: i32 = 100_000;

/// How many bytes the buffers of one dictionary can take.
pub const DICTIONARY_MAX_ACTIVE_BYTES: usize = 67_108_864;

/// Bytes before the key of an entry: hash, link and marker.
pub const DICTIONARY_ENTRY_HEADER_SIZE: usize = 16;

/// Header of one `Dictionary<K, V>` instance. Buckets and entries are allocated
/// when the first entry comes.
#[derive(Clone, Copy, Debug, PartialEq, Eq, Structural)]
pub struct AsterDictionary {
    /// Where the header itself is stored.
    pub address: u64,
    pub buckets: u64,
    pub entries: u64,
    pub length: i32,
    pub bucket_capacity: i32,
    pub entry_capacity: i32,
    pub entry_count: i32,
    pub key_size: u32,
    pub key_align: u32,
    pub value_size: u32,
    pub value_align: u32,
    pub key_type_key: u64,
    pub value_type_key: u64,
    /// Which context the dictionary belongs to.
    pub owner_id: u64,
    pub key_kind: DictionaryKeyKind,
    pub region: ListRegion,
    /// Number of temporary scopes when this header was allocated, or 0 for
    /// persistent dictionaries.
    pub birth_scope_depth: u32,
}

/// Where the parts of an entry lie.
#[derive(Clone, Copy, Debug, PartialEq, Eq, Structural)]
pub struct DictionaryEntryLayout {
    pub key_offset: usize,
    pub value_offset: usize,
    pub stride: usize,
    pub align: usize,
}

/// The concrete types that an operation expects of a dictionary.
#[derive(Clone, Copy, Debug, PartialEq, Eq, Structural)]
pub struct DictionaryTypes {
    pub key_kind: DictionaryKeyKind,
    pub key_size: u32,
    pub key_align: u32,
    pub key_type_key: u64,
    pub value_size: u32,
    pub value_align: u32,
    pub value_type_key: u64,
}

impl AsterDictionary {
    pub fn region(&self) -> (region: ListRegion)
        ensures
            region == self.region,
    {
        self.region
    }
}

/// The kind that a number stands for.
pub open spec fn key_kind_of(value: i32) -> Option<DictionaryKeyKind> {
    match value {
        1i32 => Some(DictionaryKeyKind::Bool),
        2i32 => Some(DictionaryKeyKind::Char),
        3i32 => Some(DictionaryKeyKind::SByte),
        4i32 => Some(DictionaryKeyKind::Byte),
        5i32 => Some(DictionaryKeyKind::Short),
        6i32 => Some(DictionaryKeyKind::UShort),
        7i32 => Some(DictionaryKeyKind::Int),
        8i32 => Some(DictionaryKeyKind::UInt),
        9i32 => Some(DictionaryKeyKind::Long),
        10i32 => Some(DictionaryKeyKind::ULong),
        11i32 => Some(DictionaryKeyKind::String),
        _ => None,
    }
}

impl DictionaryKeyKind {
    /// The kind that crosses the boundary as a number.
    pub fn from_abi(value: i32) -> (kind: Option<Self>)
        ensures
            kind == key_kind_of(value),
    {
        match value {
            1i32 => Some(DictionaryKeyKind::Bool),
            2i32 => Some(DictionaryKeyKind::Char),
            3i32 => Some(DictionaryKeyKind::SByte),
            4i32 => Some(DictionaryKeyKind::Byte),
            5i32 => Some(DictionaryKeyKind::Short),
            6i32 => Some(DictionaryKeyKind::UShort),
            7i32 => Some(DictionaryKeyKind::Int),
            8i32 => Some(DictionaryKeyKind::UInt),
            9i32 => Some(DictionaryKeyKind::Long),
            10i32 => Some(DictionaryKeyKind::ULong),
            11i32 => Some(DictionaryKeyKind::String),
            _ => None,
        }
    }
}

/// Bytes of a key slot. The slot of a string holds its address.
pub open spec fn key_kind_size(kind: DictionaryKeyKind) -> usize {
    match kind {
        DictionaryKeyKind::Bool | DictionaryKeyKind::SByte | DictionaryKeyKind::Byte => 1,
        DictionaryKeyKind::Short | DictionaryKeyKind::UShort => 2,
        DictionaryKeyKind::Char | DictionaryKeyKind::Int | DictionaryKeyKind::UInt => 4,
        DictionaryKeyKind::Long | DictionaryKeyKind::ULong | DictionaryKeyKind::String => 8,
    }
}

pub fn dictionary_key_kind_size(kind: DictionaryKeyKind) -> (size: usize)
    ensures
        size == key_kind_size(kind),
{
    match kind {
        DictionaryKeyKind::Bool | DictionaryKeyKind::SByte | DictionaryKeyKind::Byte => 1,
        DictionaryKeyKind::Short | DictionaryKeyKind::UShort => 2,
        DictionaryKeyKind::Char | DictionaryKeyKind::Int | DictionaryKeyKind::UInt => 4,
        DictionaryKeyKind::Long | DictionaryKeyKind::ULong | DictionaryKeyKind::String => 8,
    }
}

/// The larger of two numbers.
pub open spec fn larger(a: int, b: int) -> int {
    if a < b {
        b
    } else {
        a
    }
}

/// The layout of an entry: the header, then the key, then the value, each at the
/// next offset that its alignment allows.
pub open spec fn entry_layout(
    key_size: u32,
    key_align: u32,
    value_size: u32,
    value_align: u32,
) -> Option<DictionaryEntryLayout> {
    let align = larger(8, larger(key_align as int, value_align as int));
    let key_offset = round_up(DICTIONARY_ENTRY_HEADER_SIZE as int, key_align as int);
    let value_offset = round_up(key_offset + key_size, value_align as int);
    let stride = round_up(value_offset + value_size, align);
    if !valid_align(key_align as int) || !valid_align(value_align as int) {
        None
    } else if key_offset + key_size + value_align - 1 > usize::MAX || value_offset + value_size
        + align - 1 > usize::MAX {
        None
    } else {
        Some(
            DictionaryEntryLayout {
                key_offset: key_offset as usize,
                value_offset: value_offset as usize,
                stride: stride as usize,
                align: align as usize,
            },
        )
    }
}

impl DictionaryEntryLayout {
    /// The parts lie behind each other, and entries can be put side by side.
    pub open spec fn fits(self, key_size: u32, value_size: u32) -> bool {
        &&& DICTIONARY_ENTRY_HEADER_SIZE <= self.key_offset
        &&& self.key_offset + key_size <= self.value_offset
        &&& self.value_offset + value_size <= self.stride
        &&& valid_align(self.align as int)
    }
}

pub proof fn lemma_entry_layout(key_size: u32, key_align: u32, value_size: u32, value_align: u32)
    ensures
        entry_layout(key_size, key_align, value_size, value_align) matches Some(layout)
            ==> layout.fits(key_size, value_size),
{
    if entry_layout(key_size, key_align, value_size, value_align) is Some {
        let key_offset = round_up(DICTIONARY_ENTRY_HEADER_SIZE as int, key_align as int);
        lemma_round_up(DICTIONARY_ENTRY_HEADER_SIZE as int, key_align as int);
        lemma_round_up(key_offset + key_size, value_align as int);
        lemma_round_up(
            round_up(key_offset + key_size, value_align as int) + value_size,
            larger(8, larger(key_align as int, value_align as int)),
        );
    }
}

/// Rounds `value` up to a multiple of `alignment`, if that fits.
pub fn checked_align_up(value: usize, alignment: usize) -> (result: Option<usize>)
    requires
        valid_align(alignment as int),
    ensures
        result is Some <==> value + alignment - 1 <= usize::MAX,
        result matches Some(rounded) ==> rounded == round_up(value as int, alignment as int),
{
    align_up(value, alignment)
}

/// Computes the layout of an entry.
pub fn dictionary_entry_layout(
    key_size: u32,
    key_align: u32,
    value_size: u32,
    value_align: u32,
) -> (layout: Option<DictionaryEntryLayout>)
    ensures
        layout == entry_layout(key_size, key_align, value_size, value_align),
        layout matches Some(l) ==> l.fits(key_size, value_size),
{
    proof {
        lemma_entry_layout(key_size, key_align, value_size, value_align);
    }
    if key_align > 16 || value_align > 16 {
        return None;
    }
    proof {
        lemma_small_power_of_two(key_align);
        lemma_small_power_of_two(value_align);
    }
    if !power_of_two(key_align) || !power_of_two(value_align) {
        return None;
    }
    let key_align: usize = key_align as usize;
    let value_align: usize = value_align as usize;
    let key_offset: usize = match checked_align_up(DICTIONARY_ENTRY_HEADER_SIZE, key_align) {
        None => {
            return None;
        },
        Some(offset) => offset,
    };
    let key_end: usize = match key_offset.checked_add(key_size as usize) {
        None => {
            return None;
        },
        Some(end) => end,
    };
    let value_offset: usize = match checked_align_up(key_end, value_align) {
        None => {
            return None;
        },
        Some(offset) => offset,
    };
    let mut align: usize = 8;
    if align < key_align {
        align = key_align;
    }
    if align < value_align {
        align = value_align;
    }
    let value_end: usize = match value_offset.checked_add(value_size as usize) {
        None => {
            return None;
        },
        Some(end) => end,
    };
    match checked_align_up(value_end, align) {
        None => None,
        Some(stride) => Some(DictionaryEntryLayout { key_offset, value_offset, stride, align }),
    }
}

/// What is wrong with a header on its own, in a context that owns `owner_id`.
pub open spec fn dictionary_header_report(d: AsterDictionary, owner_id: u64) -> Option<Seq<char>> {
    if d.length < 0 || d.entry_count < 0 || d.length > d.entry_count {
        Some("dictionary header has invalid length or entry count"@)
    } else if d.key_size != key_kind_size(d.key_kind) {
        Some("dictionary header key size does not match its key kind"@)
    } else if d.key_size == 0 || d.value_size == 0 || !valid_align(d.key_align as int)
        || !valid_align(d.value_align as int) {
        Some("dictionary header has invalid key or value layout metadata"@)
    } else if d.owner_id != owner_id {
        Some("dictionary belongs to a different ExecutionContext"@)
    } else if d.bucket_capacity < 0 || d.entry_capacity < 0 || d.entry_count > d.entry_capacity {
        Some("dictionary header has invalid capacity metadata"@)
    } else if d.bucket_capacity == 0 {
        if d.buckets != 0 || d.entry_capacity != 0 || d.entries != 0 || d.entry_count != 0 {
            Some("empty dictionary header has inconsistent storage pointers"@)
        } else {
            None
        }
    } else if !is_power_of_two(d.bucket_capacity as u32) || d.buckets == 0 || d.entry_capacity <= 0
        || d.entries == 0 {
        Some("dictionary header has invalid active storage"@)
    } else {
        None
    }
}

/// A report about one operation.
pub open spec fn operation_text(operation: Seq<char>, rest: Seq<char>) -> Seq<char> {
    "Dictionary."@ + operation + rest
}

impl AsterDictionary {
    /// The types that the header records.
    pub open spec fn types(self) -> DictionaryTypes {
        DictionaryTypes {
            key_kind: self.key_kind,
            key_size: self.key_size,
            key_align: self.key_align,
            key_type_key: self.key_type_key,
            value_size: self.value_size,
            value_align: self.value_align,
            value_type_key: self.value_type_key,
        }
    }
}

/// What keeps an operation from using a dictionary.
pub open spec fn operation_report(
    dictionary: Option<AsterDictionary>,
    types: DictionaryTypes,
    operation: Seq<char>,
    owner_id: u64,
) -> Option<Seq<char>> {
    match dictionary {
        None => Some(operation_text(operation, " received a null Dictionary"@)),
        Some(d) => if dictionary_header_report(d, owner_id) is Some {
            dictionary_header_report(d, owner_id)
        } else if d.types() != types {
            Some(
                operation_text(
                    operation,
                    " concrete key/value metadata does not match the header"@,
                ),
            )
        } else {
            None
        },
    }
}

/// What keeps a key from being read.
pub open spec fn key_report(
    m: Map<int, u8>,
    kind: DictionaryKeyKind,
    key: Option<&[u8]>,
    key_size: u32,
    operation: Seq<char>,
) -> Option<Seq<char>> {
    match key {
        None => Some(operation_text(operation, " received a null key address"@)),
        Some(slot) => if kind == DictionaryKeyKind::String && key_size != key_kind_size(kind) {
            Some(operation_text(operation, " string key layout has the wrong size"@))
        } else if key_size != key_kind_size(kind) {
            Some(operation_text(operation, " key size does not match its key kind"@))
        } else if key_content(m, kind, slot@.take(key_size as int)) is None {
            Some(operation_text(operation, " received an invalid UTF-8 string key"@))
        } else {
            None
        },
    }
}

impl ExecutionContext {
    /// Records a report about one operation.
    fn fail_operation(&mut self, operation: &str, rest: &str)
        requires
            old(self).wf(),
        ensures
            final(self).wf(),
            final(self).only_failed(*old(self), operation_text(operation@, rest@)),
    {
        let mut message: String = "Dictionary.".to_owned();
        message.append(operation);
        message.append(rest);
        self.fail(message);
    }

    /// Reports what is wrong with a header, if anything.
    pub fn validate_dictionary_header(&mut self, dictionary: &AsterDictionary) -> (valid: bool)
        requires
            old(self).wf(),
        ensures
            final(self).wf(),
            ({
                let report = dictionary_header_report(
                    *dictionary,
                    old(self).configuration().identity.dictionary_owner_id,
                );
                &&& valid == (report is None)
                &&& final(self).reported(*old(self), report)
            }),
    {
        let d: &AsterDictionary = dictionary;
        if d.length < 0 || d.entry_count < 0 || d.length > d.entry_count {
            self.fail_with("dictionary header has invalid length or entry count");
            return false;
        }
        if d.key_size as usize != dictionary_key_kind_size(d.key_kind) {
            self.fail_with("dictionary header key size does not match its key kind");
            return false;
        }
        proof {
            if d.key_align <= 16 {
                lemma_small_power_of_two(d.key_align);
            }
            if d.value_align <= 16 {
                lemma_small_power_of_two(d.value_align);
            }
        }
        if d.key_size == 0 || d.value_size == 0 || !power_of_two(d.key_align) || !power_of_two(
            d.value_align,
        ) || d.key_align as usize > MAX_ALIGN || d.value_align as usize > MAX_ALIGN {
            self.fail_with("dictionary header has invalid key or value layout metadata");
            return false;
        }
        if d.owner_id != self.identity().dictionary_owner_id {
            self.fail_with("dictionary belongs to a different ExecutionContext");
            return false;
        }
        if d.bucket_capacity < 0 || d.entry_capacity < 0 || d.entry_count > d.entry_capacity {
            self.fail_with("dictionary header has invalid capacity metadata");
            return false;
        }
        if d.bucket_capacity == 0 {
            if d.buckets != 0 || d.entry_capacity != 0 || d.entries != 0 || d.entry_count != 0 {
                self.fail_with("empty dictionary header has inconsistent storage pointers");
                return false;
            }
        } else if !power_of_two(d.bucket_capacity as u32) || d.buckets == 0 || d.entry_capacity <= 0
            || d.entries == 0 {
            self.fail_with("dictionary header has invalid active storage");
            return false;
        }
        true
    }

    /// Reports what keeps an operation from using a dictionary, if anything.
    pub fn validate_dictionary_operation(
        &mut self,
        dictionary: Option<&AsterDictionary>,
        key_kind: DictionaryKeyKind,
        key_size: u32,
        key_align: u32,
        key_type_key: u64,
        value_size: u32,
        value_align: u32,
        value_type_key: u64,
        operation: &str,
    ) -> (valid: bool)
        requires
            old(self).wf(),
        ensures
            final(self).wf(),
            ({
                let report = operation_report(
                    match dictionary {
                        None => None,
                        Some(d) => Some(*d),
                    },
                    DictionaryTypes {
                        key_kind,
                        key_size,
                        key_align,
                        key_type_key,
                        value_size,
                        value_align,
                        value_type_key,
                    },
                    operation@,
                    old(self).configuration().identity.dictionary_owner_id,
                );
                &&& valid == (report is None)
                &&& final(self).reported(*old(self), report)
            }),
    {
        let d: &AsterDictionary = match dictionary {
            None => {
                self.fail_operation(operation, " received a null Dictionary");
                return false;
            },
            Some(d) => d,
        };
        if !self.validate_dictionary_header(d) {
            return false;
        }
        let matches: bool = d.key_kind == key_kind && d.key_size == key_size && d.key_align
            == key_align && d.key_type_key == key_type_key && d.value_size == value_size
            && d.value_align == value_align && d.value_type_key == value_type_key;
        if !matches {
            self.fail_operation(
                operation,
                " concrete key/value metadata does not match the header",
            );
        }
        matches
    }

    /// The bytes that identify a key. What keeps them from being read is
    /// reported.
    pub fn dictionary_key_bytes(
        &mut self,
        kind: DictionaryKeyKind,
        key: Option<&[u8]>,
        key_size: u32,
        operation: &str,
    ) -> (result: Option<Vec<u8>>)
        requires
            old(self).wf(),
            key matches Some(k) ==> k@.len() >= key_size,
        ensures
            final(self).wf(),
            ({
                let report = key_report(old(self).mem(), kind, key, key_size, operation@);
                &&& result is None <==> report is Some
                &&& final(self).reported(*old(self), report)
            }),
            result matches Some(bytes) ==> key is Some && key_content(
                old(self).mem(),
                kind,
                key->0@.take(key_size as int),
            ) == Some(bytes@),
    {
        let slot: &[u8] = match key {
            None => {
                self.fail_operation(operation, " received a null key address");
                return None;
            },
            Some(slot) => slot,
        };
        if kind == DictionaryKeyKind::String {
            if key_size as usize != 8 {
                self.fail_operation(operation, " string key layout has the wrong size");
                return None;
            }
            let address: u64 = u64_from_le_bytes(slice_subrange(slot, 0, 8));
            assert(slot@.take(8) =~= slot@.subrange(0, 8));
            return match self.read_string(address) {
                None => {
                    self.fail_operation(operation, " received an invalid UTF-8 string key");
                    None
                },
                Some(payload) => Some(payload),
            };
        }
        if key_size as usize != dictionary_key_kind_size(kind) {
            self.fail_operation(operation, " key size does not match its key kind");
            return None;
        }
        let bytes: Vec<u8> = slice_to_vec(slice_subrange(slot, 0, key_size as usize));
        assert(bytes@ =~= slot@.take(key_size as int));
        Some(bytes)
    }

    /// The hash of a key under the seed of this context.
    pub fn dictionary_hash_key(
        &mut self,
        kind: DictionaryKeyKind,
        key: Option<&[u8]>,
        key_size: u32,
        operation: &str,
    ) -> (result: Option<u64>)
        requires
            old(self).wf(),
            key matches Some(k) ==> k@.len() >= key_size,
        ensures
            final(self).wf(),
            ({
                let report = key_report(old(self).mem(), kind, key, key_size, operation@);
                &&& result is None <==> report is Some
                &&& final(self).reported(*old(self), report)
            }),
            result matches Some(hash) ==> key is Some && hash == old(self).key_hash(
                key_content(old(self).mem(), kind, key->0@.take(key_size as int))->0,
            ),
    {
        match self.dictionary_key_bytes(kind, key, key_size, operation) {
            None => None,
            Some(bytes) => Some(
                siphash13(
                    self.identity().dictionary_hash_k0,
                    self.identity().dictionary_hash_k1,
                    bytes.as_slice(),
                ),
            ),
        }
    }

    /// The hash of key bytes under the seed of this context.
    pub open spec fn key_hash(&self, content: Seq<u8>) -> u64 {
        sip_hash(
            self.configuration().identity.dictionary_hash_k0,
            self.configuration().identity.dictionary_hash_k1,
            content,
        )
    }

    /// Whether two keys are the same. What keeps one of them from being read is
    /// reported.
    pub fn dictionary_keys_equal(
        &mut self,
        kind: DictionaryKeyKind,
        left: Option<&[u8]>,
        right: Option<&[u8]>,
        key_size: u32,
        operation: &str,
    ) -> (result: Option<bool>)
        requires
            old(self).wf(),
            left matches Some(k) ==> k@.len() >= key_size,
            right matches Some(k) ==> k@.len() >= key_size,
        ensures
            final(self).wf(),
            ({
                let first = key_report(old(self).mem(), kind, left, key_size, operation@);
                let second = key_report(old(self).mem(), kind, right, key_size, operation@);
                let report = if first is Some {
                    first
                } else {
                    second
                };
                &&& result is None <==> report is Some
                &&& final(self).reported(*old(self), report)
            }),
            result matches Some(equal) ==> left is Some && right is Some && equal == (key_content(
                old(self).mem(),
                kind,
                left->0@.take(key_size as int),
            ) == key_content(old(self).mem(), kind, right->0@.take(key_size as int))),
    {
        match self.dictionary_key_bytes(kind, left, key_size, operation) {
            None => None,
            Some(left) => match self.dictionary_key_bytes(kind, right, key_size, operation) {
                None => None,
                Some(right) => Some(same_bytes(left.as_slice(), right.as_slice())),
            },
        }
    }

    /// Bytes of the two buffers for these capacities. Buffers that are too large
    /// are reported; sizes that do not fit a machine word are not.
    pub fn dictionary_active_bytes(
        &mut self,
        bucket_capacity: i32,
        entry_capacity: i32,
        layout: DictionaryEntryLayout,
    ) -> (result: Option<(usize, usize)>)
        requires
            old(self).wf(),
        ensures
            final(self).wf(),
            final(self).reported(
                *old(self),
                active_report(bucket_capacity, entry_capacity, layout.stride as int),
            ),
            result is Some <==> {
                &&& sizes_fit(bucket_capacity, entry_capacity, layout.stride as int)
                &&& active_report(bucket_capacity, entry_capacity, layout.stride as int) is None
            },
            result matches Some((buckets, entries)) ==> buckets == 4 * bucket_capacity && entries
                == entry_capacity * layout.stride,
    {
        if bucket_capacity < 0 || entry_capacity < 0 {
            return None;
        }
        let bucket_bytes: usize = match (bucket_capacity as usize).checked_mul(4) {
            None => {
                return None;
            },
            Some(bytes) => bytes,
        };
        let entry_bytes: usize = match (entry_capacity as usize).checked_mul(layout.stride) {
            None => {
                return None;
            },
            Some(bytes) => bytes,
        };
        match bucket_bytes.checked_add(entry_bytes) {
            None => None,
            Some(total) => {
                if total > DICTIONARY_MAX_ACTIVE_BYTES {
                    self.fail_with("Dictionary active storage exceeds the 64 MiB limit");
                    None
                } else {
                    Some((bucket_bytes, entry_bytes))
                }
            },
        }
    }
}

/// Whether the sizes of buffers fit a machine word.
pub open spec fn sizes_fit(bucket_capacity: i32, entry_capacity: i32, stride: int) -> bool {
    &&& bucket_capacity >= 0
    &&& entry_capacity >= 0
    &&& 4 * bucket_capacity <= usize::MAX
    &&& entry_capacity * stride <= usize::MAX
    &&& 4 * bucket_capacity + entry_capacity * stride <= usize::MAX
}

/// The report that buffers are too large.
pub open spec fn active_report(bucket_capacity: i32, entry_capacity: i32, stride: int) -> Option<
    Seq<char>,
> {
    if sizes_fit(bucket_capacity, entry_capacity, stride) && 4 * bucket_capacity + entry_capacity
        * stride > DICTIONARY_MAX_ACTIVE_BYTES {
        Some("Dictionary active storage exceeds the 64 MiB limit"@)
    } else {
        None
    }
}

/// The cell that the bytes of an entry hold.
pub open spec fn parsed_cell(
    block: Seq<u8>,
    layout: DictionaryEntryLayout,
    key_size: u32,
    value_size: u32,
) -> DictionaryCell {
    DictionaryCell {
        hash: spec_u64_from_le_bytes(block.subrange(0, 8)),
        next: spec_u32_from_le_bytes(block.subrange(8, 12)),
        live: block[12],
        key: block.subrange(layout.key_offset as int, layout.key_offset + key_size),
        value: block.subrange(layout.value_offset as int, layout.value_offset + value_size),
    }
}

impl AsterDictionary {
    /// The layout of the entries.
    pub open spec fn layout(self) -> Option<DictionaryEntryLayout> {
        entry_layout(self.key_size, self.key_align, self.value_size, self.value_align)
    }

    pub open spec fn stride(self) -> int {
        self.layout()->0.stride as int
    }

    /// Where bucket `b` lies.
    pub open spec fn bucket_address(self, b: int) -> int {
        self.buckets + 4 * b
    }

    /// Where entry `i` lies.
    pub open spec fn entry_address(self, i: int) -> int {
        self.entries + i * self.stride()
    }

    /// The table that the buffers hold in `m`.
    pub open spec fn table(self, m: Map<int, u8>) -> DictionaryTable {
        DictionaryTable {
            heads: Seq::new(
                self.bucket_capacity as nat,
                |b: int| spec_u32_from_le_bytes(bytes_at(m, self.bucket_address(b), 4)),
            ),
            cells: Seq::new(self.entry_count as nat, |i: int| self.cell(m, i)),
        }
    }

    /// The cell of entry `i` in `m`.
    pub open spec fn cell(self, m: Map<int, u8>, i: int) -> DictionaryCell {
        parsed_cell(
            bytes_at(m, self.entry_address(i), self.stride() as nat),
            self.layout()->0,
            self.key_size,
            self.value_size,
        )
    }

    /// Both buffers are allocated in `m`, apart from each other.
    pub open spec fn stored_in(self, m: Map<int, u8>) -> bool {
        let bucket_bytes = 4 * self.bucket_capacity;
        let entry_bytes = self.entry_capacity * self.stride();
        &&& bucket_bytes <= usize::MAX
        &&& entry_bytes <= usize::MAX
        &&& has_range(m, self.buckets as int, bucket_bytes)
        &&& has_range(m, self.entries as int, entry_bytes)
        &&& self.buckets + bucket_bytes <= self.entries || self.entries + entry_bytes
            <= self.buckets
    }

    /// Header fields that belong to buffers in use, with every entry inside them.
    pub open spec fn active(self) -> bool {
        &&& self.layout() is Some
        &&& 0 < self.bucket_capacity
        &&& is_power_of_two(self.bucket_capacity as u32)
        &&& 0 <= self.entry_count <= self.entry_capacity
    }
}

pub proof fn lemma_cell_bounds(stride: int, i: int, n: int)
    requires
        0 <= stride,
        0 <= i < n,
    ensures
        0 <= i * stride,
        (i + 1) * stride == i * stride + stride,
        i * stride + stride <= n * stride,
{
    assert(0 <= i * stride) by (nonlinear_arith)
        requires
            0 <= i,
            0 <= stride,
    ;
    assert((i + 1) * stride == i * stride + stride) by (nonlinear_arith);
    assert((i + 1) * stride <= n * stride) by (nonlinear_arith)
        requires
            i + 1 <= n,
            0 <= stride,
    ;
}

/// What storing bytes inside one entry does to the table.
pub proof fn lemma_cell_written(
    d: AsterDictionary,
    m: Map<int, u8>,
    i: int,
    offset: int,
    bytes: Seq<u8>,
)
    requires
        d.active(),
        d.stored_in(m),
        0 <= i < d.entry_count,
        0 <= offset,
        offset + bytes.len() <= d.stride(),
    ensures
        ({
            let after = overwritten(m, d.entry_address(i) + offset, bytes);
            let block = bytes_at(m, d.entry_address(i), d.stride() as nat);
            let cell = parsed_cell(
                spliced(block, offset, bytes),
                d.layout()->0,
                d.key_size,
                d.value_size,
            );
            &&& d.stored_in(after)
            &&& has_range(m, d.entry_address(i), d.stride())
            &&& d.table(after).heads == d.table(m).heads
            &&& d.table(after).cells == d.table(m).cells.update(i, cell)
        }),
{
    let after = overwritten(m, d.entry_address(i) + offset, bytes);
    let stride = d.stride();
    let block = bytes_at(m, d.entry_address(i), stride as nat);
    lemma_entry_layout(d.key_size, d.key_align, d.value_size, d.value_align);
    lemma_cell_bounds(stride, i, d.entry_capacity as int);
    assert forall|k: int|
        d.entry_address(i) <= k < d.entry_address(i) + stride implies #[trigger] m.contains_key(
        k,
    ) by {}
    assert(bytes_at(after, d.entry_address(i), stride as nat) =~= spliced(block, offset, bytes));
    assert forall|j: int| 0 <= j < d.entry_count && j != i implies #[trigger] d.cell(after, j)
        == d.cell(m, j) by {
        lemma_cell_bounds(stride, j, d.entry_capacity as int);
        if j < i {
            lemma_cell_bounds(stride, j, i);
        } else {
            lemma_cell_bounds(stride, i, j);
        }
        let x = bytes_at(after, d.entry_address(j), stride as nat);
        let y = bytes_at(m, d.entry_address(j), stride as nat);
        assert forall|k: int| 0 <= k < stride implies #[trigger] x[k] == y[k] by {
            assert(m.contains_key(d.entry_address(j) + k));
        }
        assert(x =~= y);
    }
    assert(d.table(after).cells =~= d.table(m).cells.update(i, d.cell(after, i)));
    assert forall|b: int| 0 <= b < d.bucket_capacity implies #[trigger] d.table(after).heads[b]
        == d.table(m).heads[b] by {
        let x = bytes_at(after, d.bucket_address(b), 4);
        let y = bytes_at(m, d.bucket_address(b), 4);
        assert forall|k: int| 0 <= k < 4 implies #[trigger] x[k] == y[k] by {
            assert(m.contains_key(d.bucket_address(b) + k));
        }
        assert(x =~= y);
    }
    assert(d.table(after).heads =~= d.table(m).heads);
}

/// What storing a bucket does to the table.
pub proof fn lemma_head_written(d: AsterDictionary, m: Map<int, u8>, b: int, head: u32)
    requires
        d.active(),
        d.stored_in(m),
        0 <= b < d.bucket_capacity,
    ensures
        ({
            let after = overwritten(m, d.bucket_address(b), spec_u32_to_le_bytes(head));
            &&& d.stored_in(after)
            &&& has_range(m, d.bucket_address(b), 4)
            &&& d.table(after).heads == d.table(m).heads.update(b, head)
            &&& d.table(after).cells == d.table(m).cells
        }),
{
    lemma_auto_spec_u32_to_from_le_bytes();
    let bytes = spec_u32_to_le_bytes(head);
    let after = overwritten(m, d.bucket_address(b), bytes);
    let stride = d.stride();
    assert forall|c: int| 0 <= c < d.bucket_capacity implies #[trigger] d.table(after).heads[c]
        == d.table(m).heads.update(b, head)[c] by {
        let x = bytes_at(after, d.bucket_address(c), 4);
        let y = if c == b {
            bytes
        } else {
            bytes_at(m, d.bucket_address(c), 4)
        };
        assert forall|k: int| 0 <= k < 4 implies #[trigger] x[k] == y[k] by {
            assert(m.contains_key(d.bucket_address(c) + k));
        }
        assert(x =~= y);
    }
    assert(d.table(after).heads =~= d.table(m).heads.update(b, head));
    assert forall|j: int| 0 <= j < d.entry_count implies #[trigger] d.cell(after, j) == d.cell(
        m,
        j,
    ) by {
        lemma_cell_bounds(stride, j, d.entry_capacity as int);
        let x = bytes_at(after, d.entry_address(j), stride as nat);
        let y = bytes_at(m, d.entry_address(j), stride as nat);
        assert forall|k: int| 0 <= k < stride implies #[trigger] x[k] == y[k] by {
            assert(m.contains_key(d.entry_address(j) + k));
        }
        assert(x =~= y);
    }
    assert(d.table(after).cells =~= d.table(m).cells);
}

/// What keeps a search from coming to an end.
pub open spec fn search_report(
    d: AsterDictionary,
    m: Map<int, u8>,
    content: Seq<u8>,
    hash: u64,
    operation: Seq<char>,
) -> Option<Seq<char>> {
    if d.layout() is None {
        Some(operation_text(operation, " has an invalid entry layout"@))
    } else if d.bucket_capacity == 0 {
        None
    } else if !d.stored_in(m) {
        Some(operation_text(operation, " storage is not allocated"@))
    } else {
        match d.table(m).search(m, d.key_kind, content, hash) {
            DictionarySearch::Cyclic => Some(
                operation_text(operation, " encountered an invalid or cyclic bucket chain"@),
            ),
            DictionarySearch::BadMarker => Some(
                operation_text(operation, " encountered an invalid live marker"@),
            ),
            DictionarySearch::BadKey => Some(
                operation_text(operation, " received an invalid UTF-8 string key"@),
            ),
            _ => None,
        }
    }
}

/// The end of a search in a dictionary that may have no buffers yet.
pub open spec fn search_in(
    d: AsterDictionary,
    m: Map<int, u8>,
    content: Seq<u8>,
    hash: u64,
) -> DictionarySearch {
    if d.bucket_capacity == 0 {
        DictionarySearch::Missing
    } else {
        d.table(m).search(m, d.key_kind, content, hash)
    }
}

/// The parts of an entry before its key.
struct EntryHead {
    hash: u64,
    next: u32,
    live: u8,
}

impl ExecutionContext {
    /// Whether the buffers of a dictionary are allocated.
    fn dictionary_storage(&self, dictionary: &AsterDictionary, stride: usize) -> (stored: bool)
        requires
            self.wf(),
            dictionary.layout() is Some,
            stride == dictionary.stride(),
            dictionary.bucket_capacity > 0,
            dictionary.entry_capacity >= 0,
        ensures
            stored == dictionary.stored_in(self.mem()),
    {
        let bucket_bytes: usize = match (dictionary.bucket_capacity as usize).checked_mul(4) {
            None => {
                return false;
            },
            Some(bytes) => bytes,
        };
        let entry_bytes: usize = match (dictionary.entry_capacity as usize).checked_mul(stride) {
            None => {
                return false;
            },
            Some(bytes) => bytes,
        };
        if !self.is_allocated(dictionary.buckets, bucket_bytes) || !self.is_allocated(
            dictionary.entries,
            entry_bytes,
        ) {
            return false;
        }
        let before: bool = dictionary.buckets <= dictionary.entries && dictionary.entries
            - dictionary.buckets >= bucket_bytes as u64;
        let behind: bool = dictionary.entries <= dictionary.buckets && dictionary.buckets
            - dictionary.entries >= entry_bytes as u64;
        before || behind
    }

    /// The address of an entry inside allocated buffers.
    fn dictionary_entry_pointer(&self, dictionary: &AsterDictionary, index: u32, stride: usize) -> (
    address: u64)
        requires
            self.wf(),
            dictionary.active(),
            dictionary.stored_in(self.mem()),
            stride == dictionary.stride(),
            index < dictionary.entry_capacity,
        ensures
            address == dictionary.entry_address(index as int),
            has_range(self.mem(), address as int, stride as int),
            address + stride <= u64::MAX,
            dictionary.layout()->0.fits(dictionary.key_size, dictionary.value_size),
    {
        proof {
            self.lemma_memory_below_end();
            lemma_entry_layout(
                dictionary.key_size,
                dictionary.key_align,
                dictionary.value_size,
                dictionary.value_align,
            );
            lemma_cell_bounds(stride as int, index as int, dictionary.entry_capacity as int);
            assert(self.mem().contains_key(
                dictionary.entries + index * stride + stride - 1,
            ));
            assert(index * stride + stride <= u64::MAX - dictionary.entries);
        }
        let offset: u64 = index as u64 * stride as u64;
        dictionary.entries + offset
    }

    /// Reads a bucket inside allocated buffers.
    fn dictionary_head(&self, dictionary: &AsterDictionary, bucket: usize) -> (head: u32)
        requires
            self.wf(),
            dictionary.active(),
            dictionary.stored_in(self.mem()),
            bucket < dictionary.bucket_capacity,
        ensures
            head == dictionary.table(self.mem()).heads[bucket as int],
            dictionary.bucket_address(bucket as int) + 4 <= u64::MAX,
    {
        proof {
            self.lemma_memory_below_end();
            assert(self.mem().contains_key(dictionary.buckets + 4 * bucket + 3));
        }
        let address: u64 = dictionary.buckets + 4 * bucket as u64;
        match self.read_memory(address, 4) {
            None => 0,
            Some(bytes) => u32_from_le_bytes(bytes.as_slice()),
        }
    }

    /// Reads the head of the entry at `address`.
    fn dictionary_entry_head(&self, dictionary: &AsterDictionary, index: u32, stride: usize) -> (
    head: EntryHead)
        requires
            self.wf(),
            dictionary.active(),
            dictionary.stored_in(self.mem()),
            stride == dictionary.stride(),
            index < dictionary.entry_count,
        ensures
            ({
                let cell = dictionary.table(self.mem()).cells[index as int];
                head.hash == cell.hash && head.next == cell.next && head.live == cell.live
            }),
    {
        let address: u64 = self.dictionary_entry_pointer(dictionary, index, stride);
        let ghost block = bytes_at(self.mem(), address as int, stride as nat);
        proof {
            assert(has_range(self.mem(), address as int, 13));
        }
        match self.read_memory(address, 13) {
            None => EntryHead { hash: 0, next: 0, live: 0 },
            Some(bytes) => {
                assert(bytes@.subrange(0, 8) =~= block.subrange(0, 8));
                assert(bytes@.subrange(8, 12) =~= block.subrange(8, 12));
                assert(bytes@[12] == block[12]);
                EntryHead {
                    hash: u64_from_le_bytes(slice_subrange(bytes.as_slice(), 0, 8)),
                    next: u32_from_le_bytes(slice_subrange(bytes.as_slice(), 8, 12)),
                    live: bytes[12],
                }
            },
        }
    }

    /// Reads `len` bytes at `offset` of an entry.
    fn dictionary_entry_part(
        &self,
        dictionary: &AsterDictionary,
        index: u32,
        stride: usize,
        offset: usize,
        len: usize,
    ) -> (bytes: Vec<u8>)
        requires
            self.wf(),
            dictionary.active(),
            dictionary.stored_in(self.mem()),
            stride == dictionary.stride(),
            index < dictionary.entry_count,
            offset + len <= stride,
        ensures
            bytes@ == bytes_at(
                self.mem(),
                dictionary.entry_address(index as int),
                stride as nat,
            ).subrange(offset as int, offset + len),
    {
        let address: u64 = self.dictionary_entry_pointer(dictionary, index, stride);
        let ghost block = bytes_at(self.mem(), address as int, stride as nat);
        proof {
            assert(has_range(self.mem(), address + offset, len as int));
        }
        match self.read_memory(address + offset as u64, len) {
            None => Vec::new(),
            Some(bytes) => {
                assert(bytes@ =~= block.subrange(offset as int, offset + len));
                bytes
            },
        }
    }

    /// Looks a key up by its bytes and its hash. Gives the index of its entry,
    /// the index of the entry before it in its chain, and its bucket. What keeps
    /// the search from coming to an end is reported.
    pub fn dictionary_find(
        &mut self,
        dictionary: &AsterDictionary,
        content: &[u8],
        hash: u64,
        operation: &str,
    ) -> (result: Result<Option<(u32, u32, usize)>, ()>)
        requires
            old(self).wf(),
            dictionary_header_report(
                *dictionary,
                old(self).configuration().identity.dictionary_owner_id,
            ) is None,
        ensures
            final(self).wf(),
            ({
                let m = old(self).mem();
                let report = search_report(*dictionary, m, content@, hash, operation@);
                &&& final(self).reported(*old(self), report)
                &&& result is Err <==> report is Some
                &&& result matches Ok(found) ==> match search_in(*dictionary, m, content@, hash) {
                    DictionarySearch::Found { index, previous } => {
                        &&& dictionary.active()
                        &&& dictionary.stored_in(m)
                        &&& index < dictionary.entry_count
                        &&& found == Some((
                            index,
                            previous,
                            bucket_of(hash, dictionary.bucket_capacity as int) as usize,
                        ))
                    },
                    _ => {
                        &&& found is None
                        &&& dictionary.layout() is Some
                        &&& dictionary.bucket_capacity > 0 ==> dictionary.active()
                            && dictionary.stored_in(m)
                    },
                }
            }),
    {
        let layout: DictionaryEntryLayout = match dictionary_entry_layout(
            dictionary.key_size,
            dictionary.key_align,
            dictionary.value_size,
            dictionary.value_align,
        ) {
            None => {
                self.fail_operation(operation, " has an invalid entry layout");
                return Err(());
            },
            Some(layout) => layout,
        };
        if dictionary.bucket_capacity == 0 {
            return Ok(None);
        }
        let stride: usize = layout.stride;
        if !self.dictionary_storage(dictionary, stride) {
            self.fail_operation(operation, " storage is not allocated");
            return Err(());
        }
        let mask: u64 = (dictionary.bucket_capacity - 1) as u64;
        proof {
            lemma_bucket_of(hash, dictionary.bucket_capacity as int);
        }
        let bucket: usize = (hash & mask) as usize;
        let ghost m = self.mem();
        let ghost cells = dictionary.table(m).cells;
        let mut current: u32 = self.dictionary_head(dictionary, bucket);
        let mut previous: u32 = DICTIONARY_EMPTY_BUCKET;
        let mut steps: i32 = 0;
        while current != DICTIONARY_EMPTY_BUCKET
            invariant
                self.wf(),
                *self == *old(self),
                m == self.mem(),
                layout == dictionary.layout()->0,
                layout.fits(dictionary.key_size, dictionary.value_size),
                stride == layout.stride,
                dictionary.active(),
                dictionary.stored_in(m),
                bucket == bucket_of(hash, dictionary.bucket_capacity as int),
                cells == dictionary.table(m).cells,
                0 <= steps <= cells.len(),
                dictionary.key_size == key_kind_size(dictionary.key_kind),
                dictionary.table(m).search(m, dictionary.key_kind, content@, hash) == walk(
                    cells,
                    m,
                    dictionary.key_kind,
                    content@,
                    hash,
                    current,
                    previous,
                    steps as int,
                ),
            decreases cells.len() - steps,
        {
            if steps >= dictionary.entry_count || current >= dictionary.entry_count as u32 {
                self.fail_operation(operation, " encountered an invalid or cyclic bucket chain");
                return Err(());
            }
            let head: EntryHead = self.dictionary_entry_head(dictionary, current, stride);
            if head.live > 1 {
                self.fail_operation(operation, " encountered an invalid live marker");
                return Err(());
            }
            if head.live == 1 && head.hash == hash {
                let key: Vec<u8> = self.dictionary_entry_part(
                    dictionary,
                    current,
                    stride,
                    layout.key_offset,
                    dictionary.key_size as usize,
                );
                assert(key@ == cells[current as int].key);
                assert(key@.take(dictionary.key_size as int) =~= key@);
                match self.dictionary_key_bytes(
                    dictionary.key_kind,
                    Some(key.as_slice()),
                    dictionary.key_size,
                    operation,
                ) {
                    None => {
                        return Err(());
                    },
                    Some(stored) => {
                        if same_bytes(stored.as_slice(), content) {
                            return Ok(Some((current, previous, bucket)));
                        }
                    },
                }
            }
            previous = current;
            current = head.next;
            steps = steps + 1;
        }
        Ok(None)
    }
}


/// Buckets that lead nowhere.
pub open spec fn empty_heads(n: nat) -> Seq<u32> {
    Seq::new(n, |b: int| DICTIONARY_EMPTY_BUCKET)
}

impl ExecutionContext {
    /// Whether buffers that a dictionary needs now go to the temporary arena:
    /// only while the scope that created the header is still the innermost one.
    pub open spec fn buffers_temporary(&self, region: ListRegion, birth_scope_depth: u32) -> bool {
        region == ListRegion::Temporary && self.scopes().len() == birth_scope_depth
    }

    /// What keeps buffers from being allocated.
    pub open spec fn buffers_report(
        &self,
        bucket_capacity: i32,
        entry_capacity: i32,
        stride: int,
        region: ListRegion,
    ) -> Option<Seq<char>> {
        if active_report(bucket_capacity, entry_capacity, stride) is Some {
            active_report(bucket_capacity, entry_capacity, stride)
        } else if !sizes_fit(bucket_capacity, entry_capacity, stride) {
            Some("Dictionary buffer size overflow"@)
        } else if region == ListRegion::Temporary && self.scopes().len() == 0 {
            Some("temporary Dictionary growth requires an active temporary scope"@)
        } else {
            None
        }
    }

    /// Whether `self` came out of `before` by the allocation of an empty bucket
    /// buffer and a zeroed entry buffer, and nothing else.
    pub open spec fn buffers_allocated(
        &self,
        before: Self,
        temporary: bool,
        bucket_capacity: i32,
        entry_capacity: i32,
        layout: DictionaryEntryLayout,
        buckets: u64,
        entries: u64,
    ) -> bool {
        let bucket_bytes = 4 * bucket_capacity;
        let entry_bytes = entry_capacity * layout.stride;
        &&& exists|filled: ExecutionContext|
            {
                &&& #[trigger] filled.placed_with(
                    before,
                    temporary,
                    buckets,
                    bucket_bytes,
                    4,
                    encoded_words(empty_heads(bucket_capacity as nat)),
                )
                &&& filled.arenas_wf()
                &&& self.allocated(filled, temporary, entries, entry_bytes, layout.align as int)
            }
        &&& self.memory_statistics() == self.counted_buffers(before, bucket_bytes, entry_bytes)
    }

    /// The statistics of `before` after two more allocations, with the usage of
    /// `self`.
    pub open spec fn counted_buffers(
        &self,
        before: Self,
        bucket_bytes: int,
        entry_bytes: int,
    ) -> MemoryStats {
        if before.configuration().collect_stats {
            with_usage(
                with_allocation(
                    with_usage(
                        with_allocation(
                            before.memory_statistics(),
                            AllocationCategory::Object,
                            bucket_bytes,
                        ),
                        self.used(),
                        self.reserved(),
                    ),
                    AllocationCategory::Object,
                    entry_bytes,
                ),
                self.used(),
                self.reserved(),
            )
        } else {
            before.memory_statistics()
        }
    }

    /// Whether `self` came out of `before` by a request for buffers that was
    /// denied, because one of them needs a new page.
    pub open spec fn buffers_denied(
        &self,
        before: Self,
        temporary: bool,
        bucket_capacity: i32,
        entry_capacity: i32,
        layout: DictionaryEntryLayout,
    ) -> bool {
        let bucket_bytes = 4 * bucket_capacity;
        let entry_bytes = entry_capacity * layout.stride;
        &&& self.memory_statistics() == before.memory_statistics()
        &&& {
            ||| self.denied(before, temporary, bucket_bytes, 4)
            ||| exists|filled: ExecutionContext, buckets: u64|
                {
                    &&& #[trigger] filled.placed_with(
                        before,
                        temporary,
                        buckets,
                        bucket_bytes,
                        4,
                        encoded_words(empty_heads(bucket_capacity as nat)),
                    )
                    &&& filled.memory_statistics() == before.memory_statistics()
                    &&& self.denied(filled, temporary, entry_bytes, layout.align as int)
                }
        }
    }

    /// Allocates the two buffers of a dictionary.
    pub fn dictionary_allocate_buffers(
        &mut self,
        bucket_capacity: i32,
        entry_capacity: i32,
        layout: DictionaryEntryLayout,
        region: ListRegion,
        birth_scope_depth: u32,
    ) -> (result: Option<(u64, u64)>)
        requires
            old(self).wf(),
            bucket_capacity != 0,
            entry_capacity > 0,
            layout.stride > 0,
            valid_align(layout.align as int),
        ensures
            final(self).wf(),
            old(self).scoped() ==> final(self).scoped(),
            ({
                let temporary = old(self).buffers_temporary(region, birth_scope_depth);
                match old(self).buffers_report(
                    bucket_capacity,
                    entry_capacity,
                    layout.stride as int,
                    region,
                ) {
                    Some(text) => result is None && final(self).only_failed(*old(self), text),
                    None => {
                        &&& bucket_capacity > 0
                        &&& final(self).carries_on(*old(self))
                        &&& final(self).scopes() == old(self).scopes()
                        &&& final(self).region(temporary).continues(old(self).region(temporary))
                        &&& preserved(old(self).mem(), final(self).mem())
                        &&& result matches Some((buckets, entries)) ==> {
                            &&& final(self).region(!temporary) == old(self).region(!temporary)
                            &&& final(self).buffers_allocated(
                                *old(self),
                                temporary,
                                bucket_capacity,
                                entry_capacity,
                                layout,
                                buckets,
                                entries,
                            )
                            &&& final(self).error_text() == old(self).error_text()
                        }
                        &&& result is None ==> final(self).buffers_denied(
                            *old(self),
                            temporary,
                            bucket_capacity,
                            entry_capacity,
                            layout,
                        )
                    },
                }
            }),
    {
        let ghost before = *self;
        let (bucket_bytes, entry_bytes): (usize, usize) = match self.dictionary_active_bytes(
            bucket_capacity,
            entry_capacity,
            layout,
        ) {
            None => {
                if !self.has_error() {
                    self.fail_with("Dictionary buffer size overflow");
                }
                return None;
            },
            Some(bytes) => bytes,
        };
        let depth: usize = self.scope_depth();
        if region == ListRegion::Temporary && depth == 0 {
            self.fail_with("temporary Dictionary growth requires an active temporary scope");
            return None;
        }
        let temporary: bool = region == ListRegion::Temporary && depth as u64
            == birth_scope_depth as u64;
        let none: Vec<u32> = vec![DICTIONARY_EMPTY_BUCKET; bucket_capacity as usize];
        assert(none@ =~= empty_heads(bucket_capacity as nat));
        let content: Vec<u8> = encode_words(&none);
        assert(entry_bytes > 0) by (nonlinear_arith)
            requires
                entry_bytes == entry_capacity * layout.stride,
                entry_capacity > 0,
                layout.stride > 0,
        ;
        let buckets: u64 = match self.allocate_with(
            temporary,
            bucket_bytes,
            4,
            content.as_slice(),
        ) {
            None => {
                return None;
            },
            Some(buckets) => buckets,
        };
        let ghost filled = *self;
        proof {
            filled.lemma_placed_with(
                before,
                temporary,
                buckets,
                bucket_bytes as int,
                4,
                content@,
            );
        }
        let entries: u64 = match self.allocate_in(temporary, entry_bytes, layout.align) {
            None => {
                proof {
                    assert(filled.placed_with(
                        before,
                        temporary,
                        buckets,
                        4 * bucket_capacity,
                        4,
                        encoded_words(empty_heads(bucket_capacity as nat)),
                    ));
                }
                return None;
            },
            Some(entries) => entries,
        };
        let ghost placed = *self;
        proof {
            placed.lemma_allocated(
                filled,
                temporary,
                entries,
                entry_bytes as int,
                layout.align as int,
            );
            assert forall|k: int| #[trigger] before.mem().contains_key(k) implies
                placed.mem().contains_key(k) && placed.mem()[k] == before.mem()[k] by {
                assert(filled.mem().contains_key(k));
            }
        }
        self.record_allocation(AllocationCategory::Object, bucket_bytes);
        self.record_allocation(AllocationCategory::Object, entry_bytes);
        proof {
            assert(self.allocated(
                filled,
                temporary,
                entries,
                entry_bytes as int,
                layout.align as int,
            ));
            assert(filled.placed_with(
                before,
                temporary,
                buckets,
                4 * bucket_capacity,
                4,
                encoded_words(empty_heads(bucket_capacity as nat)),
            ));
            assert(self.buffers_allocated(
                before,
                temporary,
                bucket_capacity,
                entry_capacity,
                layout,
                buckets,
                entries,
            ));
        }
        Some((buckets, entries))
    }

    /// What the allocation of buffers means for memory.
    proof fn lemma_buffers_allocated(
        &self,
        before: Self,
        temporary: bool,
        bucket_capacity: i32,
        entry_capacity: i32,
        layout: DictionaryEntryLayout,
        buckets: u64,
        entries: u64,
    )
        requires
            before.wf(),
            0 < bucket_capacity,
            0 < entry_capacity,
            0 < layout.stride,
            valid_align(layout.align as int),
            self.buffers_allocated(
                before,
                temporary,
                bucket_capacity,
                entry_capacity,
                layout,
                buckets,
                entries,
            ),
        ensures
            buckets > 0,
            entries > 0,
            preserved(before.mem(), self.mem()),
            lacks_range(before.mem(), buckets as int, 4 * bucket_capacity),
            lacks_range(before.mem(), entries as int, entry_capacity * layout.stride),
            has_range(self.mem(), buckets as int, 4 * bucket_capacity),
            has_range(self.mem(), entries as int, entry_capacity * layout.stride),
            buckets + 4 * bucket_capacity <= entries || entries + entry_capacity * layout.stride
                <= buckets,
    {
        let bucket_bytes = 4 * bucket_capacity;
        let entry_bytes = entry_capacity * layout.stride;
        let content = encoded_words(empty_heads(bucket_capacity as nat));
        assert(entry_bytes > 0) by (nonlinear_arith)
            requires
                entry_bytes == entry_capacity * layout.stride,
                entry_capacity > 0,
                layout.stride > 0,
        ;
        let filled = choose|filled: ExecutionContext|
            {
                &&& #[trigger] filled.placed_with(before, temporary, buckets, bucket_bytes, 4, content)
                &&& filled.arenas_wf()
                &&& self.allocated(filled, temporary, entries, entry_bytes, layout.align as int)
            };
        filled.lemma_placed_with(before, temporary, buckets, bucket_bytes, 4, content);
        self.lemma_allocated(filled, temporary, entries, entry_bytes, layout.align as int);
        assert forall|k: int| #[trigger] before.mem().contains_key(k) implies self.mem().contains_key(
            k,
        ) && self.mem()[k] == before.mem()[k] by {
            assert(filled.mem().contains_key(k));
        }
        assert forall|k: int| buckets <= k < buckets + bucket_bytes implies
            #[trigger] self.mem().contains_key(k) by {
            assert(filled.mem().contains_key(k));
        }
        assert forall|k: int| entries <= k < entries + entry_bytes implies
            !#[trigger] before.mem().contains_key(k) by {
            if before.mem().contains_key(k) {
                assert(filled.mem().contains_key(k));
            }
        }
        if buckets + bucket_bytes > entries && entries + entry_bytes > buckets {
            let shared = if entries >= buckets {
                entries as int
            } else {
                buckets as int
            };
            assert(filled.mem().contains_key(shared));
            assert(!filled.mem().contains_key(shared));
        }
    }
}


/// What a rebuild reports about the entries it walks over.
pub open spec fn entries_report(
    table: DictionaryTable,
    length: i32,
    bad_marker: Seq<char>,
    mismatch: Seq<char>,
) -> Option<Seq<char>> {
    if exists|i: int| 0 <= i < table.cells.len() && (#[trigger] table.cells[i]).live > 1 {
        Some(bad_marker)
    } else if table.entries().len() != length {
        Some(mismatch)
    } else {
        None
    }
}

/// What a rebuild reports about the entries of `d`.
pub open spec fn rebuild_entries_report(d: AsterDictionary, m: Map<int, u8>) -> Option<Seq<char>> {
    entries_report(
        d.table(m),
        d.length,
        "Dictionary rebuild found an invalid live marker"@,
        "Dictionary rebuild live-entry count does not match Length"@,
    )
}

/// The bytes of entries that hold `cells`, one behind the other.
pub open spec fn blocks_hold(
    bytes: Seq<u8>,
    layout: DictionaryEntryLayout,
    key_size: u32,
    value_size: u32,
    cells: Seq<DictionaryCell>,
) -> bool {
    let stride = layout.stride as int;
    &&& bytes.len() == cells.len() * stride
    &&& forall|k: int|
        0 <= k < cells.len() ==> parsed_cell(
            bytes.subrange(k * stride, k * stride + stride),
            layout,
            key_size,
            value_size,
        ) == #[trigger] cells[k]
}

proof fn lemma_blocks_push(
    bytes: Seq<u8>,
    layout: DictionaryEntryLayout,
    key_size: u32,
    value_size: u32,
    cells: Seq<DictionaryCell>,
    block: Seq<u8>,
)
    requires
        blocks_hold(bytes, layout, key_size, value_size, cells),
        block.len() == layout.stride,
    ensures
        blocks_hold(
            bytes + block,
            layout,
            key_size,
            value_size,
            cells.push(parsed_cell(block, layout, key_size, value_size)),
        ),
{
    let stride = layout.stride as int;
    let more = cells.push(parsed_cell(block, layout, key_size, value_size));
    let n = cells.len() as int;
    lemma_cell_bounds(stride, n, n + 1);
    assert forall|k: int| 0 <= k < more.len() implies parsed_cell(
        (bytes + block).subrange(k * stride, k * stride + stride),
        layout,
        key_size,
        value_size,
    ) == #[trigger] more[k] by {
        if k < n {
            lemma_cell_bounds(stride, k, n);
            assert((bytes + block).subrange(k * stride, k * stride + stride) =~= bytes.subrange(
                k * stride,
                k * stride + stride,
            ));
            assert(more[k] == cells[k]);
        } else {
            assert((bytes + block).subrange(k * stride, k * stride + stride) =~= block);
        }
    }
}

impl AsterDictionary {
    /// The header with other buffers, which hold nothing but its entries.
    pub open spec fn with_buffers(
        self,
        buckets: u64,
        entries: u64,
        bucket_capacity: i32,
        entry_capacity: i32,
    ) -> AsterDictionary {
        AsterDictionary {
            buckets,
            entries,
            bucket_capacity,
            entry_capacity,
            entry_count: self.length,
            ..self
        }
    }
}

/// Fresh buffers that were filled with heads and blocks hold the table of both.
proof fn lemma_filled_buffers(
    d: AsterDictionary,
    m: Map<int, u8>,
    blocks: Seq<u8>,
    cells: Seq<DictionaryCell>,
    heads: Seq<u32>,
)
    requires
        d.active(),
        d.stored_in(m),
        cells.len() == d.entry_count,
        heads.len() == d.bucket_capacity,
        blocks_hold(blocks, d.layout()->0, d.key_size, d.value_size, cells),
    ensures
        ({
            let after = overwritten(
                overwritten(m, d.entries as int, blocks),
                d.buckets as int,
                encoded_words(heads),
            );
            &&& has_range(m, d.entries as int, blocks.len() as int)
            &&& has_range(m, d.buckets as int, encoded_words(heads).len() as int)
            &&& d.stored_in(after)
            &&& d.table(after) == (DictionaryTable { heads, cells })
        }),
{
    lemma_auto_spec_u32_to_from_le_bytes();
    let half = overwritten(m, d.entries as int, blocks);
    let after = overwritten(half, d.buckets as int, encoded_words(heads));
    let stride = d.stride();
    assert(blocks.len() <= d.entry_capacity * stride) by (nonlinear_arith)
        requires
            blocks.len() == d.entry_count * stride,
            d.entry_count <= d.entry_capacity,
            0 <= stride,
    ;
    assert forall|k: int| 0 <= k < cells.len() implies #[trigger] d.table(after).cells[k]
        == cells[k] by {
        lemma_cell_bounds(stride, k, d.entry_count as int);
        let x = bytes_at(after, d.entry_address(k), stride as nat);
        let y = blocks.subrange(k * stride, k * stride + stride);
        assert forall|j: int| 0 <= j < stride implies #[trigger] x[j] == y[j] by {
            assert(m.contains_key(d.entry_address(k) + j));
        }
        assert(x =~= y);
        assert(cells[k] == parsed_cell(y, d.layout()->0, d.key_size, d.value_size));
    }
    assert(d.table(after).cells =~= cells);
    assert forall|b: int| 0 <= b < heads.len() implies #[trigger] d.table(after).heads[b]
        == heads[b] by {
        let x = bytes_at(after, d.bucket_address(b), 4);
        let y = spec_u32_to_le_bytes(heads[b]);
        assert forall|j: int| 0 <= j < 4 implies #[trigger] x[j] == y[j] by {
            let k = 4 * b + j;
            assert(m.contains_key(d.buckets + k));
            assert(k / 4 == b && k % 4 == j);
            assert(after[d.buckets + k] == encoded_words(heads)[k]);
        }
        assert(x =~= y);
    }
    assert(d.table(after).heads =~= heads);
}

/// Memory that is only added to holds the same table.
pub proof fn lemma_table_preserved(d: AsterDictionary, m: Map<int, u8>, w: Map<int, u8>)
    requires
        d.active(),
        d.stored_in(m),
        preserved(m, w),
    ensures
        d.stored_in(w),
        d.table(w) == d.table(m),
{
    let stride = d.stride();
    assert forall|k: int|
        d.buckets <= k < d.buckets + 4 * d.bucket_capacity implies #[trigger] w.contains_key(k) by {
        assert(m.contains_key(k));
    }
    assert forall|k: int|
        d.entries <= k < d.entries + d.entry_capacity * stride implies #[trigger] w.contains_key(
        k,
    ) by {
        assert(m.contains_key(k));
    }
    assert forall|j: int| 0 <= j < d.entry_count implies #[trigger] d.table(w).cells[j]
        == d.table(m).cells[j] by {
        lemma_entry_layout(d.key_size, d.key_align, d.value_size, d.value_align);
        lemma_cell_bounds(stride, j, d.entry_capacity as int);
        let x = bytes_at(w, d.entry_address(j), stride as nat);
        let y = bytes_at(m, d.entry_address(j), stride as nat);
        assert forall|k: int| 0 <= k < stride implies #[trigger] x[k] == y[k] by {
            assert(m.contains_key(d.entry_address(j) + k));
        }
        assert(x =~= y);
    }
    assert(d.table(w).cells =~= d.table(m).cells);
    assert forall|b: int| 0 <= b < d.bucket_capacity implies #[trigger] d.table(w).heads[b]
        == d.table(m).heads[b] by {
        let x = bytes_at(w, d.bucket_address(b), 4);
        let y = bytes_at(m, d.bucket_address(b), 4);
        assert forall|k: int| 0 <= k < 4 implies #[trigger] x[k] == y[k] by {
            assert(m.contains_key(d.bucket_address(b) + k));
        }
        assert(x =~= y);
    }
    assert(d.table(w).heads =~= d.table(m).heads);
}

impl ExecutionContext {
    /// What keeps a dictionary from being rebuilt, before anything is allocated.
    pub open spec fn rebuild_report(
        &self,
        d: AsterDictionary,
        bucket_capacity: i32,
        entry_capacity: i32,
    ) -> Option<Seq<char>> {
        if d.layout() is None {
            Some("Dictionary rebuild has an invalid entry layout"@)
        } else if !is_power_of_two(bucket_capacity as u32) || entry_capacity < d.length
            || entry_capacity <= 0 {
            Some("Dictionary rebuild requested invalid capacities"@)
        } else if d.bucket_capacity > 0 && !d.stored_in(self.mem()) {
            Some("Dictionary rebuild storage is not allocated"@)
        } else {
            self.buffers_report(bucket_capacity, entry_capacity, d.stride(), d.region)
        }
    }

    /// What a rebuild of `d` makes of the context `before` and of the header: a
    /// report and nothing else where something is wrong with it; otherwise
    /// buffers of the new capacities with the same entries, unless they are
    /// denied or something is wrong with the entries.
    pub open spec fn rebuild_outcome(
        &self,
        before: Self,
        d: AsterDictionary,
        after: AsterDictionary,
        bucket_capacity: i32,
        entry_capacity: i32,
        rebuilt: bool,
    ) -> bool {
        let temporary = before.buffers_temporary(d.region, d.birth_scope_depth);
        let layout = d.layout()->0;
        let bucket_bytes = 4 * bucket_capacity;
        let entry_bytes = entry_capacity * layout.stride;
        match before.rebuild_report(d, bucket_capacity, entry_capacity) {
            Some(text) => !rebuilt && after == d && self.only_failed(before, text),
            None => {
                &&& self.carries_on(before)
                &&& self.scopes() == before.scopes()
                &&& self.region(temporary).continues(before.region(temporary))
                &&& preserved(before.mem(), self.mem())
                &&& rebuilt ==> {
                    &&& rebuild_entries_report(d, before.mem()) is None
                    &&& after == d.with_buffers(
                        after.buckets,
                        after.entries,
                        bucket_capacity,
                        entry_capacity,
                    )
                    &&& after.buckets > 0
                    &&& after.entries > 0
                    &&& lacks_range(before.mem(), after.buckets as int, bucket_bytes)
                    &&& lacks_range(before.mem(), after.entries as int, entry_bytes)
                    &&& after.active()
                    &&& after.stored_in(self.mem())
                    &&& after.table(self.mem()) == d.table(before.mem()).rebuilt(
                        bucket_capacity as int,
                    )
                    &&& self.region(!temporary) == before.region(!temporary)
                    &&& self.error_text() == before.error_text()
                    &&& self.memory_statistics() == self.counted_buffers(
                        before,
                        bucket_bytes,
                        entry_bytes,
                    )
                    &&& exists|made: ExecutionContext|
                        {
                            &&& #[trigger] made.buffers_allocated(
                                before,
                                temporary,
                                bucket_capacity,
                                entry_capacity,
                                layout,
                                after.buckets,
                                after.entries,
                            )
                            &&& self.same_but_bytes(made)
                            &&& self.mem() == overwritten(
                                overwritten(
                                    made.mem(),
                                    after.entries as int,
                                    bytes_at(
                                        self.mem(),
                                        after.entries as int,
                                        entry_bytes as nat,
                                    ),
                                ),
                                after.buckets as int,
                                bytes_at(self.mem(), after.buckets as int, bucket_bytes as nat),
                            )
                        }
                }
                &&& !rebuilt ==> {
                    &&& after == d
                    &&& {
                        ||| self.buffers_denied(
                            before,
                            temporary,
                            bucket_capacity,
                            entry_capacity,
                            layout,
                        )
                        ||| {
                            &&& rebuild_entries_report(d, before.mem()) is Some
                            &&& exists|made: ExecutionContext, buckets: u64, entries: u64|
                                {
                                    &&& #[trigger] made.buffers_allocated(
                                        before,
                                        temporary,
                                        bucket_capacity,
                                        entry_capacity,
                                        layout,
                                        buckets,
                                        entries,
                                    )
                                    &&& self.only_failed(
                                        made,
                                        rebuild_entries_report(d, before.mem())->0,
                                    )
                                }
                        }
                    }
                }
            },
        }
    }

    /// Moves the entries of a dictionary to buffers of other capacities and
    /// drops the cells of removed entries. Nothing of the header changes when
    /// that fails.
    #[verifier::rlimit(60)]
    pub fn dictionary_rebuild(
        &mut self,
        dictionary: &mut AsterDictionary,
        new_bucket_capacity: i32,
        new_entry_capacity: i32,
    ) -> (rebuilt: bool)
        requires
            old(self).wf(),
            dictionary_header_report(
                *old(dictionary),
                old(self).configuration().identity.dictionary_owner_id,
            ) is None,
        ensures
            final(self).wf(),
            old(self).scoped() ==> final(self).scoped(),
            final(self).rebuild_outcome(
                *old(self),
                *old(dictionary),
                *final(dictionary),
                new_bucket_capacity,
                new_entry_capacity,
                rebuilt,
            ),
    {
        let ghost before = *self;
        let ghost start = *dictionary;
        let layout: DictionaryEntryLayout = match dictionary_entry_layout(
            dictionary.key_size,
            dictionary.key_align,
            dictionary.value_size,
            dictionary.value_align,
        ) {
            None => {
                self.fail_with("Dictionary rebuild has an invalid entry layout");
                return false;
            },
            Some(layout) => layout,
        };
        let stride: usize = layout.stride;
        if !power_of_two(new_bucket_capacity as u32) || new_entry_capacity < dictionary.length
            || new_entry_capacity <= 0 {
            self.fail_with("Dictionary rebuild requested invalid capacities");
            return false;
        }
        if dictionary.bucket_capacity > 0 && !self.dictionary_storage(dictionary, stride) {
            self.fail_with("Dictionary rebuild storage is not allocated");
            return false;
        }
        assert(new_bucket_capacity != 0) by {
            assert(0i32 as u32 == 0u32);
        }
        let (new_buckets, new_entries): (u64, u64) = match self.dictionary_allocate_buffers(
            new_bucket_capacity,
            new_entry_capacity,
            layout,
            dictionary.region,
            dictionary.birth_scope_depth,
        ) {
            None => {
                return false;
            },
            Some(buffers) => buffers,
        };
        let ghost grown = *self;
        let ghost temporary = before.buffers_temporary(start.region, start.birth_scope_depth);
        let ghost m = before.mem();
        let ghost cells = start.table(m).cells;
        let ghost capacity = new_bucket_capacity as int;
        proof {
            grown.lemma_buffers_allocated(
                before,
                temporary,
                new_bucket_capacity,
                new_entry_capacity,
                layout,
                new_buckets,
                new_entries,
            );
            if start.bucket_capacity > 0 {
                lemma_table_preserved(start, m, grown.mem());
            } else {
                assert(start.table(grown.mem()).cells =~= cells);
            }
            lemma_auto_spec_u32_to_from_le_bytes();
        }
        let count: u32 = dictionary.entry_count as u32;
        let mut heads: Vec<u32> = vec![DICTIONARY_EMPTY_BUCKET; new_bucket_capacity as usize];
        let mut blocks: Vec<u8> = Vec::new();
        let mut new_count: u32 = 0;
        let mut index: u32 = 0;
        proof {
            let kept = live_cells(cells, 0);
            assert(heads@ =~= heads_of(kept, capacity));
            assert(relinked(kept, capacity) =~= Seq::<DictionaryCell>::empty());
        }
        while index < count
            invariant
                self.wf(),
                *self == grown,
                *dictionary == start,
                count == start.entry_count,
                index <= count,
                layout == start.layout()->0,
                layout.fits(start.key_size, start.value_size),
                stride == layout.stride,
                start.bucket_capacity > 0 ==> start.active() && start.stored_in(grown.mem()),
                start.bucket_capacity == 0 ==> count == 0,
                start.bucket_capacity >= 0,
                start.table(grown.mem()).cells == cells,
                start.table(m).cells == cells,
                cells.len() == count,
                capacity == new_bucket_capacity,
                0 < capacity <= 0x8000_0000,
                new_count == live_cells(cells, index as int).len(),
                new_count <= index,
                heads@ == heads_of(live_cells(cells, index as int), capacity),
                blocks_hold(
                    blocks@,
                    layout,
                    start.key_size,
                    start.value_size,
                    relinked(live_cells(cells, index as int), capacity),
                ),
                forall|i: int| 0 <= i < index ==> (#[trigger] cells[i]).live <= 1,
                before.rebuild_report(start, new_bucket_capacity, new_entry_capacity) is None,
                grown.carries_on(before),
                grown.scopes() == before.scopes(),
                before.mem() == m,
                preserved(m, grown.mem()),
                temporary == before.buffers_temporary(start.region, start.birth_scope_depth),
                grown.region(temporary).continues(before.region(temporary)),
                grown.error_text() == before.error_text(),
                grown.memory_statistics() == grown.counted_buffers(
                    before,
                    4 * new_bucket_capacity,
                    new_entry_capacity * layout.stride,
                ),
                grown.buffers_allocated(
                    before,
                    temporary,
                    new_bucket_capacity,
                    new_entry_capacity,
                    layout,
                    new_buckets,
                    new_entries,
                ),
                before == *old(self),
                start == *old(dictionary),
                old(self).scoped() ==> grown.scoped(),
            decreases count - index,
        {
            let head: EntryHead = self.dictionary_entry_head(dictionary, index, stride);
            if head.live > 1 {
                self.fail_with("Dictionary rebuild found an invalid live marker");
                proof {
                    assert(start.table(m).cells[index as int].live > 1);
                    assert(rebuild_entries_report(start, m)
                        == Some("Dictionary rebuild found an invalid live marker"@));
                }
                return false;
            }
            if head.live == 1 {
                let ghost kept = live_cells(cells, index as int);
                let ghost cell = cells[index as int];
                proof {
                    lemma_auto_spec_u32_to_from_le_bytes();
                    lemma_relinked_push(kept, cell, capacity);
                    lemma_live_cells(cells, index as int);
                }
                let mask: u64 = (new_bucket_capacity - 1) as u64;
                let bucket: usize = (head.hash & mask) as usize;
                let next: u32 = heads[bucket];
                let mut block: Vec<u8> = self.dictionary_entry_part(
                    dictionary,
                    index,
                    stride,
                    0,
                    stride,
                );
                let ghost old_block = block@;
                let link: Vec<u8> = u32_to_le_bytes(next);
                store_bytes(&mut block, 8, link.as_slice());
                proof {
                    let whole = bytes_at(
                        grown.mem(),
                        start.entry_address(index as int),
                        stride as nat,
                    );
                    assert(old_block =~= whole);
                    assert(block@.subrange(8, 12) =~= link@);
                    assert(block@.subrange(0, 8) =~= whole.subrange(0, 8));
                    assert(block@.subrange(
                        layout.key_offset as int,
                        layout.key_offset + start.key_size,
                    ) =~= whole.subrange(
                        layout.key_offset as int,
                        layout.key_offset + start.key_size,
                    ));
                    assert(block@.subrange(
                        layout.value_offset as int,
                        layout.value_offset + start.value_size,
                    ) =~= whole.subrange(
                        layout.value_offset as int,
                        layout.value_offset + start.value_size,
                    ));
                    assert(parsed_cell(block@, layout, start.key_size, start.value_size)
                        == (DictionaryCell { next, ..cell }));
                    lemma_blocks_push(
                        blocks@,
                        layout,
                        start.key_size,
                        start.value_size,
                        relinked(kept, capacity),
                        block@,
                    );
                }
                blocks.append(&mut block);
                heads.set(bucket, new_count);
                new_count = new_count + 1;
            }
            index = index + 1;
        }
        proof {
            lemma_live_cells(cells, count as int);
            assert(start.table(m).entries().len() == new_count);
            assert(!exists|i: int|
                0 <= i < start.table(m).cells.len() && (#[trigger] start.table(m).cells[i]).live
                    > 1);
        }
        if new_count as i64 != dictionary.length as i64 {
            self.fail_with("Dictionary rebuild live-entry count does not match Length");
            return false;
        }
        let ghost target = start.with_buffers(
            new_buckets,
            new_entries,
            new_bucket_capacity,
            new_entry_capacity,
        );
        let ghost kept = live_cells(cells, count as int);
        proof {
            lemma_filled_buffers(
                target,
                grown.mem(),
                blocks@,
                relinked(kept, capacity),
                heads@,
            );
        }
        let _first: bool = self.write_memory(new_entries, blocks.as_slice());
        let head_bytes: Vec<u8> = encode_words(&heads);
        let ghost half = *self;
        proof {
            assert forall|k: int|
                new_buckets <= k < new_buckets + head_bytes@.len() implies
                #[trigger] half.mem().contains_key(k) by {
                assert(grown.mem().contains_key(k));
            }
        }
        let _second: bool = self.write_memory(new_buckets, head_bytes.as_slice());
        dictionary.buckets = new_buckets;
        dictionary.entries = new_entries;
        dictionary.bucket_capacity = new_bucket_capacity;
        dictionary.entry_capacity = new_entry_capacity;
        dictionary.entry_count = new_count as i32;
        proof {
            assert(target == *dictionary);
            grown.lemma_regions_apart();
            assert(new_entry_capacity * stride > 0) by (nonlinear_arith)
                requires
                    new_entry_capacity > 0,
                    stride > 0,
            ;
            assert(grown.mem().contains_key(new_buckets as int));
            assert(!before.mem().contains_key(new_buckets as int));
            assert(grown.mem().contains_key(new_entries as int));
            assert(!before.mem().contains_key(new_entries as int));
            assert(grown.region(temporary).mem().contains_key(new_buckets as int));
            assert(grown.region(temporary).mem().contains_key(new_entries as int));
            assert(self.region(!temporary) == before.region(!temporary));
            assert(self.used() == grown.used());
            assert(self.reserved() == grown.reserved());
            assert(blocks@.len() <= new_entry_capacity * stride) by (nonlinear_arith)
                requires
                    blocks@.len() == new_count * stride,
                    new_count <= new_entry_capacity,
                    0 <= stride,
            ;
            assert forall|k: int| #[trigger] m.contains_key(k) implies self.mem().contains_key(k)
                && self.mem()[k] == m[k] by {
                assert(grown.mem().contains_key(k) && grown.mem()[k] == m[k]);
                assert(!(new_entries <= k < new_entries + blocks@.len()));
                assert(!(new_buckets <= k < new_buckets + head_bytes@.len()));
            }
            let whole = overwritten(
                overwritten(
                    grown.mem(),
                    new_entries as int,
                    bytes_at(
                        self.mem(),
                        new_entries as int,
                        (new_entry_capacity * stride) as nat,
                    ),
                ),
                new_buckets as int,
                bytes_at(self.mem(), new_buckets as int, (4 * new_bucket_capacity) as nat),
            );
            assert(head_bytes@.len() == 4 * new_bucket_capacity);
            assert(self.mem() =~= whole);
            assert(self.same_but_bytes(grown));
        }
        true
    }
}


/// What has to be done before one more entry fits.
pub enum InsertPlan {
    Keep,
    Rebuild { bucket_capacity: i32, entry_capacity: i32 },
    Refuse { text: Seq<char> },
}

/// How many entries `capacity` buckets take before there have to be more.
pub open spec fn load_limit(capacity: i32) -> int {
    if capacity * 3 > i32::MAX {
        i32::MAX as int / 4
    } else {
        capacity * 3 / 4
    }
}

/// Buckets double above a load of three quarters. A full entry buffer doubles,
/// unless it holds cells of removed entries that can be dropped.
pub open spec fn insert_plan(d: AsterDictionary) -> InsertPlan {
    let more_buckets = d.length + 1 > load_limit(d.bucket_capacity);
    let full = d.entry_count == d.entry_capacity;
    let more_entries = full && d.entry_count == d.length;
    let entry_capacity = if more_entries {
        d.entry_capacity * 2
    } else {
        d.entry_capacity as int
    };
    let bucket_capacity = if more_buckets {
        d.bucket_capacity * 2
    } else {
        d.bucket_capacity as int
    };
    if d.length == i32::MAX {
        InsertPlan::Refuse { text: "Dictionary Length overflow"@ }
    } else if d.length + 1 > DICTIONARY_MAX_ENTRIES {
        InsertPlan::Refuse { text: "Dictionary exceeds the maximum of 100000 live entries"@ }
    } else if d.bucket_capacity == 0 {
        InsertPlan::Rebuild {
            bucket_capacity: DICTIONARY_INITIAL_CAPACITY,
            entry_capacity: DICTIONARY_INITIAL_CAPACITY,
        }
    } else if !more_buckets && !full {
        InsertPlan::Keep
    } else if entry_capacity > i32::MAX {
        InsertPlan::Refuse { text: "Dictionary entry capacity overflow"@ }
    } else if bucket_capacity > i32::MAX {
        InsertPlan::Refuse { text: "Dictionary bucket capacity overflow"@ }
    } else {
        InsertPlan::Rebuild {
            bucket_capacity: bucket_capacity as i32,
            entry_capacity: entry_capacity as i32,
        }
    }
}

impl ExecutionContext {
    /// What making room for one more entry of `d` makes of the context `before`
    /// and of the header.
    pub open spec fn prepare_outcome(
        &self,
        before: Self,
        d: AsterDictionary,
        after: AsterDictionary,
        room: bool,
    ) -> bool {
        match insert_plan(d) {
            InsertPlan::Keep => room && after == d && self.unchanged(before),
            InsertPlan::Refuse { text } => !room && after == d && self.only_failed(before, text),
            InsertPlan::Rebuild { bucket_capacity, entry_capacity } => self.rebuild_outcome(
                before,
                d,
                after,
                bucket_capacity,
                entry_capacity,
                room,
            ),
        }
    }

    /// Makes room for one more entry.
    pub fn dictionary_prepare_insert(&mut self, dictionary: &mut AsterDictionary) -> (room: bool)
        requires
            old(self).wf(),
            dictionary_header_report(
                *old(dictionary),
                old(self).configuration().identity.dictionary_owner_id,
            ) is None,
            old(dictionary).bucket_capacity > 0 ==> old(dictionary).active() && old(
                dictionary,
            ).stored_in(old(self).mem()),
        ensures
            final(self).wf(),
            old(self).scoped() ==> final(self).scoped(),
            final(self).prepare_outcome(*old(self), *old(dictionary), *final(dictionary), room),
            room ==> {
                &&& final(dictionary).active()
                &&& final(dictionary).stored_in(final(self).mem())
                &&& final(dictionary).entry_count < final(dictionary).entry_capacity
                &&& final(dictionary).length == old(dictionary).length
                &&& old(dictionary).length < DICTIONARY_MAX_ENTRIES
                &&& final(dictionary).types() == old(dictionary).types()
            },
    {
        let length: i32 = dictionary.length;
        let count: i32 = dictionary.entry_count;
        let entry_capacity: i32 = dictionary.entry_capacity;
        let bucket_capacity: i32 = dictionary.bucket_capacity;
        let new_length: i32 = match length.checked_add(1) {
            None => {
                self.fail_with("Dictionary Length overflow");
                return false;
            },
            Some(new_length) => new_length,
        };
        if new_length > DICTIONARY_MAX_ENTRIES {
            self.fail_with("Dictionary exceeds the maximum of 100000 live entries");
            return false;
        }
        if bucket_capacity == 0 {
            return self.dictionary_rebuild(
                dictionary,
                DICTIONARY_INITIAL_CAPACITY,
                DICTIONARY_INITIAL_CAPACITY,
            );
        }
        let weighted: i32 = match bucket_capacity.checked_mul(3) {
            None => i32::MAX,
            Some(product) => product,
        };
        let limit: i32 = weighted / 4;
        let more_buckets: bool = new_length > limit;
        let full: bool = count == entry_capacity;
        if !more_buckets && !full {
            return true;
        }
        let tombstones: i32 = count - length;
        let new_entry_capacity: i32 = if full && tombstones == 0 {
            match entry_capacity.checked_mul(2) {
                None => {
                    self.fail_with("Dictionary entry capacity overflow");
                    return false;
                },
                Some(capacity) => capacity,
            }
        } else {
            entry_capacity
        };
        let new_bucket_capacity: i32 = if more_buckets {
            match bucket_capacity.checked_mul(2) {
                None => {
                    self.fail_with("Dictionary bucket capacity overflow");
                    return false;
                },
                Some(capacity) => capacity,
            }
        } else {
            bucket_capacity
        };
        self.dictionary_rebuild(dictionary, new_bucket_capacity, new_entry_capacity)
    }
}

/// Where a search ends, an entry of that hash is, and the entry before it is one
/// of the table.
pub proof fn lemma_walk_found(
    cells: Seq<DictionaryCell>,
    m: Map<int, u8>,
    kind: DictionaryKeyKind,
    content: Seq<u8>,
    hash: u64,
    current: u32,
    previous: u32,
    steps: int,
)
    ensures
        walk(cells, m, kind, content, hash, current, previous, steps) matches
            DictionarySearch::Found { index, previous: p } ==> {
            &&& index < cells.len()
            &&& cells[index as int].live == 1
            &&& cells[index as int].hash == hash
            &&& key_content(m, kind, cells[index as int].key) == Some(content)
            &&& p == previous || p < cells.len()
        },
    decreases cells.len() - steps,
{
    if current != DICTIONARY_EMPTY_BUCKET && steps < cells.len() && current < cells.len() {
        lemma_walk_found(
            cells,
            m,
            kind,
            content,
            hash,
            cells[current as int].next,
            current,
            steps + 1,
        );
    }
}

/// The first bytes of an entry.
pub open spec fn entry_head_bytes(hash: u64, next: u32) -> Seq<u8> {
    spec_u64_to_le_bytes(hash) + spec_u32_to_le_bytes(next) + seq![1u8]
}

impl AsterDictionary {
    /// Memory after an entry was written and put at the front of its bucket.
    pub open spec fn entry_written(
        self,
        m: Map<int, u8>,
        hash: u64,
        key: Seq<u8>,
        value: Seq<u8>,
    ) -> Map<int, u8> {
        let layout = self.layout()->0;
        let a = self.entry_address(self.entry_count as int);
        let b = bucket_of(hash, self.bucket_capacity as int);
        let head = self.table(m).heads[b];
        overwritten(
            overwritten(
                overwritten(
                    overwritten(m, a, entry_head_bytes(hash, head)),
                    a + layout.key_offset,
                    key,
                ),
                a + layout.value_offset,
                value,
            ),
            self.bucket_address(b),
            spec_u32_to_le_bytes(self.entry_count as u32),
        )
    }

    /// The header with one more entry.
    pub open spec fn after_insert(self) -> AsterDictionary {
        AsterDictionary {
            entry_count: (self.entry_count + 1) as i32,
            length: (self.length + 1) as i32,
            ..self
        }
    }

    /// The header with one entry less.
    pub open spec fn after_removal(self) -> AsterDictionary {
        AsterDictionary { length: (self.length - 1) as i32, ..self }
    }
}

/// Memory with a written entry holds the table with that entry.
#[verifier::rlimit(30)]
pub proof fn lemma_entry_written(
    d: AsterDictionary,
    m: Map<int, u8>,
    hash: u64,
    key: Seq<u8>,
    value: Seq<u8>,
)
    requires
        d.active(),
        d.stored_in(m),
        d.entry_count < d.entry_capacity,
        key.len() == d.key_size,
        value.len() == d.value_size,
    ensures
        d.after_insert().table(d.entry_written(m, hash, key, value)) == d.table(m).inserted(
            hash,
            key,
            value,
        ),
        d.after_insert().active(),
        d.after_insert().stored_in(d.entry_written(m, hash, key, value)),
{
    lemma_auto_spec_u32_to_from_le_bytes();
    lemma_auto_spec_u64_to_from_le_bytes();
    lemma_entry_layout(d.key_size, d.key_align, d.value_size, d.value_align);
    lemma_bucket_of(hash, d.bucket_capacity as int);
    let layout = d.layout()->0;
    let n = d.entry_count as int;
    let w = d.after_insert();
    let b = bucket_of(hash, d.bucket_capacity as int);
    let head = d.table(m).heads[b];
    let a = d.entry_address(n);
    let first = entry_head_bytes(hash, head);
    let m1 = overwritten(m, a, first);
    let m2 = overwritten(m1, a + layout.key_offset, key);
    let m3 = overwritten(m2, a + layout.value_offset, value);
    let block = bytes_at(m, a, layout.stride as nat);
    assert(first.len() == 13);
    lemma_cell_written(w, m, n, 0, first);
    lemma_cell_written(w, m1, n, layout.key_offset as int, key);
    lemma_cell_written(w, m2, n, layout.value_offset as int, value);
    lemma_head_written(w, m3, b, d.entry_count as u32);
    let block1 = bytes_at(m1, a, layout.stride as nat);
    let block2 = bytes_at(m2, a, layout.stride as nat);
    lemma_cell_bounds(layout.stride as int, n, d.entry_capacity as int);
    assert forall|k: int| a <= k < a + layout.stride implies #[trigger] m.contains_key(k) by {}
    assert(block1 =~= spliced(block, 0, first));
    assert(block2 =~= spliced(block1, layout.key_offset as int, key));
    let whole = spliced(block2, layout.value_offset as int, value);
    assert(whole.subrange(0, 8) =~= spec_u64_to_le_bytes(hash));
    assert(whole.subrange(8, 12) =~= spec_u32_to_le_bytes(head));
    assert(whole[12] == 1u8);
    assert(whole.subrange(layout.key_offset as int, layout.key_offset + d.key_size) =~= key);
    assert(whole.subrange(layout.value_offset as int, layout.value_offset + d.value_size)
        =~= value);
    let cell = DictionaryCell { hash, next: head, live: 1, key, value };
    assert(parsed_cell(whole, layout, d.key_size, d.value_size) == cell);
    let table = w.table(m);
    assert(table.cells.update(n, cell) =~= d.table(m).cells.push(cell));
    let end = overwritten(m3, d.bucket_address(b), spec_u32_to_le_bytes(d.entry_count as u32));
    assert(end == d.entry_written(m, hash, key, value));
    assert(w.table(m3).cells =~= table.cells.update(n, cell));
    assert(w.table(end).heads =~= d.table(m).inserted(hash, key, value).heads);
    assert(w.table(end).cells =~= d.table(m).inserted(hash, key, value).cells);
}

impl ExecutionContext {
    /// What keeps an operation from searching for a key.
    pub open spec fn lookup_report(
        &self,
        dictionary: Option<AsterDictionary>,
        types: DictionaryTypes,
        key: Option<&[u8]>,
        operation: Seq<char>,
    ) -> Option<Seq<char>> {
        let owner = self.configuration().identity.dictionary_owner_id;
        let content = self.sought(types, key);
        if operation_report(dictionary, types, operation, owner) is Some {
            operation_report(dictionary, types, operation, owner)
        } else {
            self.search_for_report(dictionary, types, key, operation)
        }
    }

    /// What keeps a key from being searched for.
    pub open spec fn search_for_report(
        &self,
        dictionary: Option<AsterDictionary>,
        types: DictionaryTypes,
        key: Option<&[u8]>,
        operation: Seq<char>,
    ) -> Option<Seq<char>> {
        let content = self.sought(types, key);
        if key_report(self.mem(), types.key_kind, key, types.key_size, operation) is Some {
            key_report(self.mem(), types.key_kind, key, types.key_size, operation)
        } else {
            search_report(
                dictionary->0,
                self.mem(),
                content,
                self.key_hash(content),
                operation,
            )
        }
    }

    /// The bytes of the key that is searched for.
    pub open spec fn sought(&self, types: DictionaryTypes, key: Option<&[u8]>) -> Seq<u8> {
        key_content(self.mem(), types.key_kind, key->0@.take(types.key_size as int))->0
    }

    /// Where the search for a key ends.
    pub open spec fn lookup(
        &self,
        d: AsterDictionary,
        types: DictionaryTypes,
        key: Option<&[u8]>,
    ) -> DictionarySearch {
        let content = self.sought(types, key);
        search_in(d, self.mem(), content, self.key_hash(content))
    }

    /// What keeps an entry from being added or set.
    pub open spec fn put_report(
        &self,
        dictionary: Option<AsterDictionary>,
        types: DictionaryTypes,
        key: Option<&[u8]>,
        has_value: bool,
        operation: Seq<char>,
    ) -> Option<Seq<char>> {
        if !has_value {
            Some(operation_text(operation, " received a null value address"@))
        } else {
            self.lookup_report(dictionary, types, key, operation)
        }
    }

    /// What adding or setting an entry of `d` makes of the context `before` and
    /// of the header. An earlier error or a report leaves everything as it is.
    /// An entry that is there gets the value where it may be replaced, and stays
    /// as it is otherwise. A new entry is put behind the others, if there is
    /// room for it.
    pub open spec fn put_outcome(
        &self,
        before: Self,
        d: AsterDictionary,
        after: AsterDictionary,
        types: DictionaryTypes,
        key: Option<&[u8]>,
        value: Option<&[u8]>,
        replace: bool,
        result: i8,
    ) -> bool {
        let operation = if replace {
            "Set"@
        } else {
            "Add"@
        };
        let slot = key->0@.take(types.key_size as int);
        let bytes = value->0@.take(types.value_size as int);
        let hash = before.key_hash(before.sought(types, key));
        if before.error_text() is Some {
            result == 0 && after == d && self.unchanged(before)
        } else {
            match before.put_report(Some(d), types, key, value is Some, operation) {
                Some(text) => result == 0 && after == d && self.only_failed(before, text),
                None => match before.lookup(d, types, key) {
                    DictionarySearch::Found { index, .. } => {
                        &&& after == d
                        &&& result == if replace {
                            1i8
                        } else {
                            0i8
                        }
                        &&& !replace ==> self.unchanged(before)
                        &&& replace ==> {
                            &&& self.same_but_bytes(before)
                            &&& self.mem() == overwritten(
                                before.mem(),
                                d.entry_address(index as int) + d.layout()->0.value_offset,
                                bytes,
                            )
                            &&& d.stored_in(self.mem())
                            &&& d.table(self.mem()) == d.table(before.mem()).replaced(
                                index as int,
                                bytes,
                            )
                        }
                    },
                    _ => exists|grown: ExecutionContext, ready: AsterDictionary, room: bool|
                        {
                            &&& #[trigger] grown.prepare_outcome(before, d, ready, room)
                            &&& !room ==> result == 0 && after == d && *self == grown
                            &&& room ==> {
                                &&& result == if replace {
                                    0i8
                                } else {
                                    1i8
                                }
                                &&& after == ready.after_insert()
                                &&& self.same_but_bytes(grown)
                                &&& self.mem() == ready.entry_written(
                                    grown.mem(),
                                    hash,
                                    slot,
                                    bytes,
                                )
                                &&& after.active()
                                &&& after.stored_in(self.mem())
                                &&& after.table(self.mem()) == ready.table(grown.mem()).inserted(
                                    hash,
                                    slot,
                                    bytes,
                                )
                            }
                        },
                },
            }
        }
    }

    /// Adds an entry, or sets the value of one where `replace` is given.
    #[verifier::rlimit(60)]
    pub fn dictionary_add_or_set(
        &mut self,
        dictionary: Option<&mut AsterDictionary>,
        key_kind: DictionaryKeyKind,
        key_size: u32,
        key_align: u32,
        key_type_key: u64,
        value_size: u32,
        value_align: u32,
        value_type_key: u64,
        key: Option<&[u8]>,
        value: Option<&[u8]>,
        replace: bool,
    ) -> (result: i8)
        requires
            old(self).wf(),
            key matches Some(k) ==> k@.len() >= key_size,
            value matches Some(v) ==> v@.len() >= value_size,
        ensures
            final(self).wf(),
            old(self).scoped() ==> final(self).scoped(),
            ({
                let types = DictionaryTypes {
                    key_kind,
                    key_size,
                    key_align,
                    key_type_key,
                    value_size,
                    value_align,
                    value_type_key,
                };
                let operation = if replace {
                    "Set"@
                } else {
                    "Add"@
                };
                &&& dictionary is None ==> {
                    &&& result == 0
                    &&& final(self).reported(
                        *old(self),
                        if old(self).error_text() is Some {
                            None
                        } else {
                            old(self).put_report(None, types, key, value is Some, operation)
                        },
                    )
                }
                &&& dictionary matches Some(d) ==> final(self).put_outcome(
                    *old(self),
                    *d,
                    *final(d),
                    types,
                    key,
                    value,
                    replace,
                    result,
                )
            }),
    {
        if self.has_error() {
            return 0;
        }
        let ghost before = *self;
        let ghost types = DictionaryTypes {
            key_kind,
            key_size,
            key_align,
            key_type_key,
            value_size,
            value_align,
            value_type_key,
        };
        let operation: &str = if replace {
            "Set"
        } else {
            "Add"
        };
        let value: &[u8] = match value {
            None => {
                self.fail_operation(operation, " received a null value address");
                return 0;
            },
            Some(value) => value,
        };
        let dictionary: &mut AsterDictionary = match dictionary {
            None => {
                let _valid: bool = self.validate_dictionary_operation(
                    None,
                    key_kind,
                    key_size,
                    key_align,
                    key_type_key,
                    value_size,
                    value_align,
                    value_type_key,
                    operation,
                );
                return 0;
            },
            Some(dictionary) => dictionary,
        };
        let ghost start = *dictionary;
        if !self.validate_dictionary_operation(
            Some(&*dictionary),
            key_kind,
            key_size,
            key_align,
            key_type_key,
            value_size,
            value_align,
            value_type_key,
            operation,
        ) {
            return 0;
        }
        let content: Vec<u8> = match self.dictionary_key_bytes(key_kind, key, key_size, operation) {
            None => {
                return 0;
            },
            Some(content) => content,
        };
        let hash: u64 = siphash13(
            self.identity().dictionary_hash_k0,
            self.identity().dictionary_hash_k1,
            content.as_slice(),
        );
        let key: &[u8] = match key {
            None => {
                return 0;
            },
            Some(key) => key,
        };
        let slot: &[u8] = slice_subrange(key, 0, key_size as usize);
        let bytes: &[u8] = slice_subrange(value, 0, value_size as usize);
        assert(slot@ =~= key@.take(key_size as int));
        assert(bytes@ =~= value@.take(value_size as int));
        assert(hash == before.key_hash(before.sought(types, Some(key))));
        let found: Option<(u32, u32, usize)> = match self.dictionary_find(
            dictionary,
            content.as_slice(),
            hash,
            operation,
        ) {
            Err(_) => {
                return 0;
            },
            Ok(found) => found,
        };
        let layout: DictionaryEntryLayout = match dictionary_entry_layout(
            key_size,
            key_align,
            value_size,
            value_align,
        ) {
            None => {
                return 0;
            },
            Some(layout) => layout,
        };
        let ghost m = self.mem();
        assert(m == before.mem());
        if let Some((index, _, _)) = found {
            if !replace {
                return 0;
            }
            let entry: u64 = self.dictionary_entry_pointer(dictionary, index, layout.stride);
            proof {
                lemma_cell_written(
                    start,
                    m,
                    index as int,
                    layout.value_offset as int,
                    bytes@,
                );
                lemma_value_spliced(
                    bytes_at(m, start.entry_address(index as int), start.stride() as nat),
                    layout,
                    key_size,
                    value_size,
                    bytes@,
                );
                assert(has_range(m, entry + layout.value_offset, bytes@.len() as int));
            }
            let _stored: bool = self.write_memory(entry + layout.value_offset as u64, bytes);
            return 1;
        }
        let room: bool = self.dictionary_prepare_insert(dictionary);
        let ghost grown = *self;
        let ghost ready = *dictionary;
        assert(grown.prepare_outcome(before, start, ready, room));
        if !room {
            return 0;
        }
        let count: u32 = dictionary.entry_count as u32;
        let entry: u64 = self.dictionary_entry_pointer(dictionary, count, layout.stride);
        let mask: u64 = (dictionary.bucket_capacity - 1) as u64;
        proof {
            lemma_bucket_of(hash, dictionary.bucket_capacity as int);
            lemma_auto_spec_u32_to_from_le_bytes();
            lemma_auto_spec_u64_to_from_le_bytes();
        }
        let bucket: usize = (hash & mask) as usize;
        let head: u32 = self.dictionary_head(dictionary, bucket);
        let mut first: Vec<u8> = u64_to_le_bytes(hash);
        let mut link: Vec<u8> = u32_to_le_bytes(head);
        first.append(&mut link);
        first.push(1);
        let number: Vec<u8> = u32_to_le_bytes(count);
        proof {
            assert(first@ =~= entry_head_bytes(hash, head));
            lemma_entry_written(ready, grown.mem(), hash, slot@, bytes@);
            assert(has_range(grown.mem(), entry as int, 13));
            assert(has_range(grown.mem(), entry + layout.key_offset, key_size as int));
            assert(has_range(grown.mem(), entry + layout.value_offset, value_size as int));
            assert(has_range(grown.mem(), ready.bucket_address(bucket as int), 4));
        }
        let _first: bool = self.write_memory(entry, first.as_slice());
        let ghost m1 = self.mem();
        assert(has_range(m1, entry + layout.key_offset, key_size as int)) by {
            assert forall|k: int| #[trigger] grown.mem().contains_key(k) implies m1.contains_key(
                k,
            ) by {}
        }
        let _second: bool = self.write_memory(entry + layout.key_offset as u64, slot);
        let ghost m2 = self.mem();
        assert(has_range(m2, entry + layout.value_offset, value_size as int)) by {
            assert forall|k: int| #[trigger] grown.mem().contains_key(k) implies m2.contains_key(
                k,
            ) by {}
        }
        let _third: bool = self.write_memory(entry + layout.value_offset as u64, bytes);
        let ghost m3 = self.mem();
        assert(has_range(m3, ready.bucket_address(bucket as int), 4)) by {
            assert forall|k: int| #[trigger] grown.mem().contains_key(k) implies m3.contains_key(
                k,
            ) by {}
        }
        let _fourth: bool = self.write_memory(
            dictionary.buckets + 4 * bucket as u64,
            number.as_slice(),
        );
        dictionary.entry_count = dictionary.entry_count + 1;
        dictionary.length = dictionary.length + 1;
        proof {
            assert(*dictionary == ready.after_insert());
            assert(self.mem() == ready.entry_written(grown.mem(), hash, slot@, bytes@));
        }
        if replace {
            0
        } else {
            1
        }
    }
}

/// Another value in an entry is another value in its cell.
proof fn lemma_value_spliced(
    block: Seq<u8>,
    layout: DictionaryEntryLayout,
    key_size: u32,
    value_size: u32,
    value: Seq<u8>,
)
    requires
        layout.fits(key_size, value_size),
        block.len() == layout.stride,
        value.len() == value_size,
    ensures
        parsed_cell(
            spliced(block, layout.value_offset as int, value),
            layout,
            key_size,
            value_size,
        ) == (DictionaryCell { value, ..parsed_cell(block, layout, key_size, value_size) }),
{
    let after = spliced(block, layout.value_offset as int, value);
    assert(after.subrange(0, 8) =~= block.subrange(0, 8));
    assert(after.subrange(8, 12) =~= block.subrange(8, 12));
    assert(after.subrange(layout.key_offset as int, layout.key_offset + key_size)
        =~= block.subrange(layout.key_offset as int, layout.key_offset + key_size));
    assert(after.subrange(layout.value_offset as int, layout.value_offset + value_size) =~= value);
}


/// Another link in an entry is another link in its cell.
proof fn lemma_next_spliced(
    block: Seq<u8>,
    layout: DictionaryEntryLayout,
    key_size: u32,
    value_size: u32,
    next: u32,
)
    requires
        layout.fits(key_size, value_size),
        block.len() == layout.stride,
    ensures
        parsed_cell(
            spliced(block, 8, spec_u32_to_le_bytes(next)),
            layout,
            key_size,
            value_size,
        ) == (DictionaryCell { next, ..parsed_cell(block, layout, key_size, value_size) }),
{
    lemma_auto_spec_u32_to_from_le_bytes();
    let after = spliced(block, 8, spec_u32_to_le_bytes(next));
    assert(after.subrange(0, 8) =~= block.subrange(0, 8));
    assert(after.subrange(8, 12) =~= spec_u32_to_le_bytes(next));
    assert(after.subrange(layout.key_offset as int, layout.key_offset + key_size)
        =~= block.subrange(layout.key_offset as int, layout.key_offset + key_size));
    assert(after.subrange(layout.value_offset as int, layout.value_offset + value_size)
        =~= block.subrange(layout.value_offset as int, layout.value_offset + value_size));
}

/// Another marker in an entry is another marker in its cell.
proof fn lemma_live_spliced(
    block: Seq<u8>,
    layout: DictionaryEntryLayout,
    key_size: u32,
    value_size: u32,
    live: u8,
)
    requires
        layout.fits(key_size, value_size),
        block.len() == layout.stride,
    ensures
        parsed_cell(spliced(block, 12, seq![live]), layout, key_size, value_size) == (
        DictionaryCell { live, ..parsed_cell(block, layout, key_size, value_size) }),
{
    let after = spliced(block, 12, seq![live]);
    assert(after.subrange(0, 8) =~= block.subrange(0, 8));
    assert(after.subrange(8, 12) =~= block.subrange(8, 12));
    assert(after.subrange(layout.key_offset as int, layout.key_offset + key_size)
        =~= block.subrange(layout.key_offset as int, layout.key_offset + key_size));
    assert(after.subrange(layout.value_offset as int, layout.value_offset + value_size)
        =~= block.subrange(layout.value_offset as int, layout.value_offset + value_size));
}

impl AsterDictionary {
    /// Memory after entry `i` was taken out of its chain.
    pub open spec fn entry_removed(self, m: Map<int, u8>, i: int, previous: u32) -> Map<int, u8> {
        let cell = self.table(m).cells[i];
        let next = spec_u32_to_le_bytes(cell.next);
        let b = bucket_of(cell.hash, self.bucket_capacity as int);
        let unlinked = if previous == DICTIONARY_EMPTY_BUCKET {
            overwritten(m, self.bucket_address(b), next)
        } else {
            overwritten(m, self.entry_address(previous as int) + 8, next)
        };
        overwritten(unlinked, self.entry_address(i) + 12, seq![0u8])
    }
}

/// Memory without an entry holds the table without it.
pub proof fn lemma_entry_removed(d: AsterDictionary, m: Map<int, u8>, i: int, previous: u32)
    requires
        d.active(),
        d.stored_in(m),
        0 <= i < d.entry_count,
        previous == DICTIONARY_EMPTY_BUCKET || previous < d.entry_count,
    ensures
        d.stored_in(d.entry_removed(m, i, previous)),
        d.table(d.entry_removed(m, i, previous)) == d.table(m).removed(i, previous),
{
    lemma_auto_spec_u32_to_from_le_bytes();
    lemma_entry_layout(d.key_size, d.key_align, d.value_size, d.value_align);
    let layout = d.layout()->0;
    let stride = d.stride() as nat;
    let cell = d.table(m).cells[i];
    let next = spec_u32_to_le_bytes(cell.next);
    let b = bucket_of(cell.hash, d.bucket_capacity as int);
    let p = previous as int;
    lemma_bucket_of(cell.hash, d.bucket_capacity as int);
    let half = if previous == DICTIONARY_EMPTY_BUCKET {
        lemma_head_written(d, m, b, cell.next);
        overwritten(m, d.bucket_address(b), next)
    } else {
        lemma_cell_written(d, m, p, 8, next);
        lemma_next_spliced(
            bytes_at(m, d.entry_address(p), stride),
            layout,
            d.key_size,
            d.value_size,
            cell.next,
        );
        overwritten(m, d.entry_address(p) + 8, next)
    };
    lemma_cell_written(d, half, i, 12, seq![0u8]);
    lemma_live_spliced(
        bytes_at(half, d.entry_address(i), stride),
        layout,
        d.key_size,
        d.value_size,
        0,
    );
    let after = d.table(m).removed(i, previous);
    let end = d.entry_removed(m, i, previous);
    assert(d.table(half).cells[i] == d.cell(half, i));
    assert(d.table(end).cells =~= after.cells);
    assert(d.table(end).heads =~= after.heads);
}

impl ExecutionContext {
    /// What a search for a key of `d`, or the removal of its entry, makes of the
    /// context `before` and of the header. An earlier error or a report leaves
    /// everything as it is.
    pub open spec fn take_outcome(
        &self,
        before: Self,
        d: AsterDictionary,
        after: AsterDictionary,
        types: DictionaryTypes,
        key: Option<&[u8]>,
        remove: bool,
        result: i8,
    ) -> bool {
        let operation = if remove {
            "Remove"@
        } else {
            "ContainsKey"@
        };
        if before.error_text() is Some {
            result == 0 && after == d && *self == before
        } else {
            match before.lookup_report(Some(d), types, key, operation) {
                Some(text) => result == 0 && after == d && self.only_failed(before, text),
                None => match before.lookup(d, types, key) {
                    DictionarySearch::Found { index, previous } => {
                        &&& result == 1
                        &&& !remove ==> after == d && *self == before
                        &&& remove ==> {
                            &&& after == d.after_removal()
                            &&& self.same_but_bytes(before)
                            &&& self.mem() == d.entry_removed(before.mem(), index as int, previous)
                            &&& after.stored_in(self.mem())
                            &&& after.table(self.mem()) == d.table(before.mem()).removed(
                                index as int,
                                previous,
                            )
                        }
                    },
                    _ => result == 0 && after == d && *self == before,
                },
            }
        }
    }

    /// Tells whether there is an entry with a key, or removes that entry where
    /// `remove` is given.
    pub fn dictionary_contains_or_remove(
        &mut self,
        dictionary: Option<&mut AsterDictionary>,
        key_kind: DictionaryKeyKind,
        key_size: u32,
        key_align: u32,
        key_type_key: u64,
        value_size: u32,
        value_align: u32,
        value_type_key: u64,
        key: Option<&[u8]>,
        remove: bool,
    ) -> (result: i8)
        requires
            old(self).wf(),
            key matches Some(k) ==> k@.len() >= key_size,
        ensures
            final(self).wf(),
            old(self).scoped() ==> final(self).scoped(),
            ({
                let types = DictionaryTypes {
                    key_kind,
                    key_size,
                    key_align,
                    key_type_key,
                    value_size,
                    value_align,
                    value_type_key,
                };
                let operation = if remove {
                    "Remove"@
                } else {
                    "ContainsKey"@
                };
                &&& dictionary is None ==> {
                    &&& result == 0
                    &&& final(self).reported(
                        *old(self),
                        if old(self).error_text() is Some {
                            None
                        } else {
                            old(self).lookup_report(None, types, key, operation)
                        },
                    )
                }
                &&& dictionary matches Some(d) ==> final(self).take_outcome(
                    *old(self),
                    *d,
                    *final(d),
                    types,
                    key,
                    remove,
                    result,
                )
            }),
    {
        if self.has_error() {
            return 0;
        }
        let ghost before = *self;
        let operation: &str = if remove {
            "Remove"
        } else {
            "ContainsKey"
        };
        let dictionary: &mut AsterDictionary = match dictionary {
            None => {
                let _valid: bool = self.validate_dictionary_operation(
                    None,
                    key_kind,
                    key_size,
                    key_align,
                    key_type_key,
                    value_size,
                    value_align,
                    value_type_key,
                    operation,
                );
                return 0;
            },
            Some(dictionary) => dictionary,
        };
        let ghost start = *dictionary;
        if !self.validate_dictionary_operation(
            Some(&*dictionary),
            key_kind,
            key_size,
            key_align,
            key_type_key,
            value_size,
            value_align,
            value_type_key,
            operation,
        ) {
            return 0;
        }
        let content: Vec<u8> = match self.dictionary_key_bytes(key_kind, key, key_size, operation) {
            None => {
                return 0;
            },
            Some(content) => content,
        };
        let hash: u64 = siphash13(
            self.identity().dictionary_hash_k0,
            self.identity().dictionary_hash_k1,
            content.as_slice(),
        );
        let found: Option<(u32, u32, usize)> = match self.dictionary_find(
            dictionary,
            content.as_slice(),
            hash,
            operation,
        ) {
            Err(_) => {
                return 0;
            },
            Ok(found) => found,
        };
        let (index, previous, bucket): (u32, u32, usize) = match found {
            None => {
                return 0;
            },
            Some(found) => found,
        };
        if !remove {
            return 1;
        }
        let layout: DictionaryEntryLayout = match dictionary_entry_layout(
            key_size,
            key_align,
            value_size,
            value_align,
        ) {
            None => {
                return 0;
            },
            Some(layout) => layout,
        };
        let ghost m = self.mem();
        proof {
            lemma_bucket_of(hash, start.bucket_capacity as int);
            lemma_auto_spec_u32_to_from_le_bytes();
            lemma_walk_found(
                start.table(m).cells,
                m,
                start.key_kind,
                content@,
                hash,
                start.table(m).heads[bucket as int],
                DICTIONARY_EMPTY_BUCKET,
                0,
            );
            lemma_entry_removed(start, m, index as int, previous);
        }
        let head: EntryHead = self.dictionary_entry_head(dictionary, index, layout.stride);
        let entry: u64 = self.dictionary_entry_pointer(dictionary, index, layout.stride);
        let next: Vec<u8> = u32_to_le_bytes(head.next);
        let link: u64 = if previous == DICTIONARY_EMPTY_BUCKET {
            let _head: u32 = self.dictionary_head(dictionary, bucket);
            dictionary.buckets + 4 * bucket as u64
        } else {
            let before_it: u64 = self.dictionary_entry_pointer(dictionary, previous, layout.stride);
            before_it + 8
        };
        proof {
            assert(has_range(m, link as int, 4));
        }
        let _first: bool = self.write_memory(link, next.as_slice());
        let ghost half = self.mem();
        assert(half.contains_key(entry + 12)) by {
            assert(m.contains_key(entry + 12));
        }
        let mark: Vec<u8> = vec![0u8];
        assert(mark@ =~= seq![0u8]);
        assert(has_range(half, entry + 12, 1));
        let _second: bool = self.write_memory(entry + 12, mark.as_slice());
        dictionary.length = dictionary.length - 1;
        proof {
            assert(self.mem() == start.entry_removed(m, index as int, previous));
            let shorter = start.after_removal();
            assert(shorter.table(self.mem()).cells =~= start.table(self.mem()).cells);
            assert(shorter.table(self.mem()).heads =~= start.table(self.mem()).heads);
        }
        1
    }

    /// What keeps a value from being read.
    pub open spec fn get_report(
        &self,
        dictionary: Option<AsterDictionary>,
        types: DictionaryTypes,
        key: Option<&[u8]>,
        has_destination: bool,
        total_size: u32,
        payload_offset: u32,
    ) -> Option<Seq<char>> {
        let owner = self.configuration().identity.dictionary_owner_id;
        if !has_destination {
            Some("Dictionary.TryGet received a null destination"@)
        } else if operation_report(dictionary, types, "TryGet"@, owner) is Some {
            operation_report(dictionary, types, "TryGet"@, owner)
        } else if payload_offset + types.value_size > u32::MAX {
            Some("Dictionary.TryGet Option payload layout overflow"@)
        } else if total_size < 4 || payload_offset + types.value_size > total_size {
            Some("Dictionary.TryGet Option payload lies outside its destination"@)
        } else {
            self.search_for_report(dictionary, types, key, "TryGet"@)
        }
    }

    /// The value of a key, if it is there.
    pub open spec fn value_of(
        &self,
        d: AsterDictionary,
        types: DictionaryTypes,
        key: Option<&[u8]>,
    ) -> Option<Seq<u8>> {
        match self.lookup(d, types, key) {
            DictionarySearch::Found { index, .. } => Some(
                d.table(self.mem()).cells[index as int].value,
            ),
            _ => None,
        }
    }

    /// Writes `Some` with the value of a key, or `None`, to `destination`.
    pub fn dictionary_try_get(
        &mut self,
        dictionary: Option<&AsterDictionary>,
        key_kind: DictionaryKeyKind,
        key_size: u32,
        key_align: u32,
        key_type_key: u64,
        value_size: u32,
        value_align: u32,
        value_type_key: u64,
        key: Option<&[u8]>,
        destination: Option<&mut Vec<u8>>,
        total_size: u32,
        some_tag: u32,
        none_tag: u32,
        payload_offset: u32,
    )
        requires
            old(self).wf(),
            key matches Some(k) ==> k@.len() >= key_size,
            destination matches Some(d) ==> d@.len() >= total_size,
        ensures
            final(self).wf(),
            ({
                let types = DictionaryTypes {
                    key_kind,
                    key_size,
                    key_align,
                    key_type_key,
                    value_size,
                    value_align,
                    value_type_key,
                };
                let known = match dictionary {
                    None => None,
                    Some(d) => Some(*d),
                };
                let failed = old(self).error_text() is Some;
                let report = if failed {
                    None
                } else {
                    old(self).get_report(
                        known,
                        types,
                        key,
                        destination is Some,
                        total_size,
                        payload_offset,
                    )
                };
                &&& final(self).reported(*old(self), report)
                &&& destination matches Some(target) ==> final(target)@ == if failed || report
                    is Some {
                    target@
                } else {
                    option_written(
                        target@,
                        total_size,
                        some_tag,
                        none_tag,
                        payload_offset,
                        old(self).value_of(known->0, types, key),
                    )
                }
            }),
    {
        if self.has_error() {
            return ;
        }
        let ghost before = *self;
        let destination: &mut Vec<u8> = match destination {
            None => {
                self.fail_with("Dictionary.TryGet received a null destination");
                return ;
            },
            Some(destination) => destination,
        };
        if !self.validate_dictionary_operation(
            dictionary,
            key_kind,
            key_size,
            key_align,
            key_type_key,
            value_size,
            value_align,
            value_type_key,
            "TryGet",
        ) {
            return ;
        }
        let dictionary: &AsterDictionary = match dictionary {
            None => {
                return ;
            },
            Some(dictionary) => dictionary,
        };
        let payload_end: u32 = match payload_offset.checked_add(value_size) {
            None => {
                self.fail_with("Dictionary.TryGet Option payload layout overflow");
                return ;
            },
            Some(end) => end,
        };
        if total_size < 4 || payload_end > total_size {
            self.fail_with("Dictionary.TryGet Option payload lies outside its destination");
            return ;
        }
        let content: Vec<u8> = match self.dictionary_key_bytes(key_kind, key, key_size, "TryGet") {
            None => {
                return ;
            },
            Some(content) => content,
        };
        let hash: u64 = siphash13(
            self.identity().dictionary_hash_k0,
            self.identity().dictionary_hash_k1,
            content.as_slice(),
        );
        let found: Option<(u32, u32, usize)> = match self.dictionary_find(
            dictionary,
            content.as_slice(),
            hash,
            "TryGet",
        ) {
            Err(_) => {
                return ;
            },
            Ok(found) => found,
        };
        let value: Option<Vec<u8>> = match found {
            None => None,
            Some((index, _, _)) => {
                match dictionary_entry_layout(key_size, key_align, value_size, value_align) {
                    None => None,
                    Some(layout) => Some(
                        self.dictionary_entry_part(
                            dictionary,
                            index,
                            layout.stride,
                            layout.value_offset,
                            value_size as usize,
                        ),
                    ),
                }
            },
        };
        proof {
            lemma_auto_spec_u32_to_from_le_bytes();
        }
        write_option(destination, total_size, some_tag, none_tag, payload_offset, &value);
    }
}

/// A destination after an option was written to it: zeroed, then the payload if
/// there is one, then the tag.
pub open spec fn option_written(
    target: Seq<u8>,
    total_size: u32,
    some_tag: u32,
    none_tag: u32,
    payload_offset: u32,
    payload: Option<Seq<u8>>,
) -> Seq<u8> {
    let blank = spliced(target, 0, zeroed(total_size as nat));
    match payload {
        Some(bytes) => spliced(
            spliced(blank, payload_offset as int, bytes),
            0,
            spec_u32_to_le_bytes(some_tag),
        ),
        None => spliced(blank, 0, spec_u32_to_le_bytes(none_tag)),
    }
}

/// Writes an option: zeroes, then the payload if there is one, then the tag.
pub fn write_option(
    target: &mut Vec<u8>,
    total_size: u32,
    some_tag: u32,
    none_tag: u32,
    payload_offset: u32,
    payload: &Option<Vec<u8>>,
)
    requires
        4 <= total_size <= old(target)@.len(),
        payload matches Some(bytes) ==> payload_offset + bytes@.len() <= total_size,
    ensures
        final(target)@ == option_written(
            old(target)@,
            total_size,
            some_tag,
            none_tag,
            payload_offset,
            match payload {
                Some(bytes) => Some(bytes@),
                None => None,
            },
        ),
{
    proof {
        lemma_auto_spec_u32_to_from_le_bytes();
    }
    let blank: Vec<u8> = vec![0u8; total_size as usize];
    assert(blank@ =~= zeroed(total_size as nat));
    store_bytes(target, 0, blank.as_slice());
    match payload {
        Some(bytes) => {
            store_bytes(target, payload_offset as usize, bytes.as_slice());
            let tag: Vec<u8> = u32_to_le_bytes(some_tag);
            store_bytes(target, 0, tag.as_slice());
        },
        None => {
            let tag: Vec<u8> = u32_to_le_bytes(none_tag);
            store_bytes(target, 0, tag.as_slice());
        },
    }
}


/// What keeps the entries from being listed, before anything is allocated.
pub open spec fn snapshot_report(
    c: ExecutionContext,
    dictionary: Option<AsterDictionary>,
    types: DictionaryTypes,
    entry_size: u32,
    key_offset: u32,
    value_offset: u32,
) -> Option<Seq<char>> {
    let owner = c.configuration().identity.dictionary_owner_id;
    if operation_report(dictionary, types, "Entries"@, owner) is Some {
        operation_report(dictionary, types, "Entries"@, owner)
    } else if key_offset + types.key_size > u32::MAX {
        Some("Dictionary.Entries key field layout overflow"@)
    } else if value_offset + types.value_size > u32::MAX {
        Some("Dictionary.Entries value field layout overflow"@)
    } else if entry_size == 0 || key_offset + types.key_size > entry_size || value_offset
        + types.value_size > entry_size || key_offset % types.key_align != 0 || value_offset
        % types.value_align != 0 {
        Some("Dictionary.Entries has invalid DictionaryEntry field layout"@)
    } else {
        let d = dictionary->0;
        if d.layout() is None {
            Some(operation_text("Entries"@, " has an invalid entry layout"@))
        } else if d.bucket_capacity > 0 && !d.stored_in(c.mem()) {
            Some(operation_text("Entries"@, " storage is not allocated"@))
        } else {
            entries_report(
                d.table(c.mem()),
                d.length,
                "Dictionary.Entries encountered an invalid live marker"@,
                "Dictionary.Entries live-entry count does not match Length"@,
            )
        }
    }
}

/// One element of a snapshot: the key and the value at their offsets, and zero
/// elsewhere.
pub open spec fn snapshot_element(
    entry: (Seq<u8>, Seq<u8>),
    entry_size: u32,
    key_offset: u32,
    value_offset: u32,
) -> Seq<u8> {
    spliced(
        spliced(zeroed(entry_size as nat), key_offset as int, entry.0),
        value_offset as int,
        entry.1,
    )
}

/// The bytes of a snapshot hold these entries, one behind the other.
pub open spec fn snapshot_holds(
    bytes: Seq<u8>,
    entries: Seq<(Seq<u8>, Seq<u8>)>,
    entry_size: u32,
    key_offset: u32,
    value_offset: u32,
) -> bool {
    &&& bytes.len() == entries.len() * entry_size
    &&& forall|k: int|
        0 <= k < entries.len() ==> bytes.subrange(k * entry_size, k * entry_size + entry_size)
            == snapshot_element(#[trigger] entries[k], entry_size, key_offset, value_offset)
}

proof fn lemma_snapshot_push(
    bytes: Seq<u8>,
    entries: Seq<(Seq<u8>, Seq<u8>)>,
    entry_size: u32,
    key_offset: u32,
    value_offset: u32,
    entry: (Seq<u8>, Seq<u8>),
    element: Seq<u8>,
)
    requires
        snapshot_holds(bytes, entries, entry_size, key_offset, value_offset),
        element == snapshot_element(entry, entry_size, key_offset, value_offset),
    ensures
        snapshot_holds(bytes + element, entries.push(entry), entry_size, key_offset, value_offset),
{
    let size = entry_size as int;
    let n = entries.len() as int;
    let more = entries.push(entry);
    lemma_cell_bounds(size, n, n + 1);
    assert forall|k: int| 0 <= k < more.len() implies (bytes + element).subrange(
        k * size,
        k * size + size,
    ) == snapshot_element(#[trigger] more[k], entry_size, key_offset, value_offset) by {
        if k < n {
            lemma_cell_bounds(size, k, n);
            assert((bytes + element).subrange(k * size, k * size + size) =~= bytes.subrange(
                k * size,
                k * size + size,
            ));
            assert(more[k] == entries[k]);
        } else {
            assert((bytes + element).subrange(k * size, k * size + size) =~= element);
        }
    }
}

impl ExecutionContext {
    /// What listing the entries of a dictionary makes of the context `before`.
    /// An earlier error or a report leaves everything as it is. Otherwise the
    /// result is an array of the entries in insertion order, unless the array
    /// cannot be allocated.
    pub open spec fn snapshot_outcome(
        &self,
        before: Self,
        dictionary: Option<AsterDictionary>,
        types: DictionaryTypes,
        entry_size: u32,
        key_offset: u32,
        value_offset: u32,
        temporary: bool,
        result: Option<AsterArray>,
    ) -> bool {
        if before.error_text() is Some {
            result is None && *self == before
        } else {
            match snapshot_report(before, dictionary, types, entry_size, key_offset, value_offset) {
                Some(text) => result is None && self.only_failed(before, text),
                None => {
                    let d = dictionary->0;
                    let entries = d.table(before.mem()).entries();
                    if temporary && before.scopes().len() == 0 {
                        result is None && self.only_failed(before, array_scope_text())
                    } else {
                        &&& self.carries_on(before)
                        &&& self.scopes() == before.scopes()
                        &&& preserved(before.mem(), self.mem())
                        &&& result is None ==> {
                            ||| array_report(d.length, entry_size) is Some && exists|
                                array: AsterArray,
                            | #[trigger]
                                self.array_allocated(
                                    before,
                                    temporary,
                                    array,
                                    d.length,
                                    entry_size,
                                )
                            ||| self.array_denied(before, temporary, d.length, entry_size)
                        }
                        &&& result matches Some(array) ==> {
                            &&& array_report(d.length, entry_size) is None
                            &&& exists|made: ExecutionContext|
                                {
                                    &&& #[trigger] made.array_allocated(
                                        before,
                                        temporary,
                                        array,
                                        d.length,
                                        entry_size,
                                    )
                                    &&& self.same_but_bytes(made)
                                    &&& self.mem() == overwritten(
                                        made.mem(),
                                        array.data as int,
                                        bytes_at(
                                            self.mem(),
                                            array.data as int,
                                            (d.length * entry_size) as nat,
                                        ),
                                    )
                                }
                            &&& snapshot_holds(
                                bytes_at(
                                    self.mem(),
                                    array.data as int,
                                    (d.length * entry_size) as nat,
                                ),
                                entries,
                                entry_size,
                                key_offset,
                                value_offset,
                            )
                        }
                    }
                },
            }
        }
    }

    /// Lists the entries in insertion order, in an array of elements that hold a
    /// key and a value each.
    #[verifier::rlimit(60)]
    pub fn dictionary_entries(
        &mut self,
        dictionary: Option<&AsterDictionary>,
        key_kind: DictionaryKeyKind,
        key_size: u32,
        key_align: u32,
        key_type_key: u64,
        value_size: u32,
        value_align: u32,
        value_type_key: u64,
        entry_size: u32,
        key_offset: u32,
        value_offset: u32,
        region: ListRegion,
    ) -> (result: Option<AsterArray>)
        requires
            old(self).wf(),
        ensures
            final(self).wf(),
            old(self).scoped() ==> final(self).scoped(),
            final(self).snapshot_outcome(
                *old(self),
                match dictionary {
                    None => None,
                    Some(d) => Some(*d),
                },
                DictionaryTypes {
                    key_kind,
                    key_size,
                    key_align,
                    key_type_key,
                    value_size,
                    value_align,
                    value_type_key,
                },
                entry_size,
                key_offset,
                value_offset,
                region == ListRegion::Temporary,
                result,
            ),
    {
        if self.has_error() {
            return None;
        }
        let ghost before = *self;
        if !self.validate_dictionary_operation(
            dictionary,
            key_kind,
            key_size,
            key_align,
            key_type_key,
            value_size,
            value_align,
            value_type_key,
            "Entries",
        ) {
            return None;
        }
        let header: &AsterDictionary = match dictionary {
            None => {
                return None;
            },
            Some(header) => header,
        };
        let ghost d = *header;
        let key_end: u32 = match key_offset.checked_add(key_size) {
            None => {
                self.fail_with("Dictionary.Entries key field layout overflow");
                return None;
            },
            Some(end) => end,
        };
        let value_end: u32 = match value_offset.checked_add(value_size) {
            None => {
                self.fail_with("Dictionary.Entries value field layout overflow");
                return None;
            },
            Some(end) => end,
        };
        if entry_size == 0 || key_end > entry_size || value_end > entry_size || key_offset
            % key_align != 0 || value_offset % value_align != 0 {
            self.fail_with("Dictionary.Entries has invalid DictionaryEntry field layout");
            return None;
        }
        let layout: DictionaryEntryLayout = match dictionary_entry_layout(
            key_size,
            key_align,
            value_size,
            value_align,
        ) {
            None => {
                self.fail_operation("Entries", " has an invalid entry layout");
                return None;
            },
            Some(layout) => layout,
        };
        let stride: usize = layout.stride;
        if header.bucket_capacity > 0 && !self.dictionary_storage(header, stride) {
            self.fail_operation("Entries", " storage is not allocated");
            return None;
        }
        let ghost m = before.mem();
        let ghost cells = d.table(m).cells;
        let count: u32 = header.entry_count as u32;
        let mut live: u32 = 0;
        let mut index: u32 = 0;
        while index < count
            invariant
                self.wf(),
                *self == before,
                before == *old(self),
                before.error_text() is None,
                m == self.mem(),
                *header == d,
                dictionary == Some(header),
                count == d.entry_count,
                index <= count,
                live <= index,
                cells == d.table(m).cells,
                cells.len() == count,
                d.layout() is Some,
                stride == d.stride(),
                d.bucket_capacity >= 0,
                d.bucket_capacity > 0 ==> d.active() && d.stored_in(m),
                d.bucket_capacity == 0 ==> count == 0,
                live == live_entries(cells, index as int).len(),
                forall|i: int| 0 <= i < index ==> (#[trigger] cells[i]).live <= 1,
                snapshot_report(
                    before,
                    Some(d),
                    DictionaryTypes {
                        key_kind,
                        key_size,
                        key_align,
                        key_type_key,
                        value_size,
                        value_align,
                        value_type_key,
                    },
                    entry_size,
                    key_offset,
                    value_offset,
                ) == entries_report(
                    d.table(m),
                    d.length,
                    "Dictionary.Entries encountered an invalid live marker"@,
                    "Dictionary.Entries live-entry count does not match Length"@,
                ),
            decreases count - index,
        {
            let head: EntryHead = self.dictionary_entry_head(header, index, stride);
            if head.live > 1 {
                self.fail_with("Dictionary.Entries encountered an invalid live marker");
                proof {
                    assert(d.table(m).cells[index as int].live > 1);
                }
                return None;
            }
            if head.live == 1 {
                live = live + 1;
            }
            index = index + 1;
        }
        proof {
            assert(!exists|i: int|
                0 <= i < d.table(m).cells.len() && (#[trigger] d.table(m).cells[i]).live > 1);
        }
        if live as i64 != header.length as i64 {
            self.fail_with("Dictionary.Entries live-entry count does not match Length");
            return None;
        }
        let temporary: bool = region == ListRegion::Temporary;
        let array: AsterArray = match self.allocate_array_in_region(
            header.length,
            entry_size,
            temporary,
        ) {
            None => {
                return None;
            },
            Some(array) => array,
        };
        let ghost made = *self;
        proof {
            made.lemma_array_allocated(before, temporary, array, d.length, entry_size);
        }
        if self.has_error() {
            return None;
        }
        assert(array_report(d.length, entry_size) is None);
        proof {
            if d.bucket_capacity > 0 {
                lemma_table_preserved(d, m, made.mem());
            } else {
                assert(d.table(made.mem()).cells =~= cells);
            }
        }
        let mut bytes: Vec<u8> = Vec::new();
        let mut index: u32 = 0;
        proof {
            let none = live_entries(cells, 0);
            assert(none =~= Seq::<(Seq<u8>, Seq<u8>)>::empty());
            assert(none.len() * entry_size == 0) by (nonlinear_arith)
                requires
                    none.len() == 0,
            ;
        }
        while index < count
            invariant
                self.wf(),
                *self == made,
                *header == d,
                count == d.entry_count,
                index <= count,
                d.table(made.mem()).cells == cells,
                cells.len() == count,
                layout == d.layout()->0,
                d.layout() is Some,
                layout.fits(key_size, value_size),
                d.key_size == key_size,
                d.value_size == value_size,
                stride == layout.stride,
                d.bucket_capacity >= 0,
                d.bucket_capacity > 0 ==> d.active() && d.stored_in(made.mem()),
                d.bucket_capacity == 0 ==> count == 0,
                forall|i: int| 0 <= i < count ==> (#[trigger] cells[i]).live <= 1,
                key_offset + key_size <= entry_size,
                value_offset + value_size <= entry_size,
                snapshot_holds(
                    bytes@,
                    live_entries(cells, index as int),
                    entry_size,
                    key_offset,
                    value_offset,
                ),
            decreases count - index,
        {
            let head: EntryHead = self.dictionary_entry_head(header, index, stride);
            if head.live == 1 {
                let key: Vec<u8> = self.dictionary_entry_part(
                    header,
                    index,
                    stride,
                    layout.key_offset,
                    key_size as usize,
                );
                let value: Vec<u8> = self.dictionary_entry_part(
                    header,
                    index,
                    stride,
                    layout.value_offset,
                    value_size as usize,
                );
                let mut element: Vec<u8> = vec![0u8; entry_size as usize];
                assert(element@ =~= zeroed(entry_size as nat));
                store_bytes(&mut element, key_offset as usize, key.as_slice());
                store_bytes(&mut element, value_offset as usize, value.as_slice());
                proof {
                    let cell = cells[index as int];
                    assert(key@ == cell.key && value@ == cell.value);
                    lemma_snapshot_push(
                        bytes@,
                        live_entries(cells, index as int),
                        entry_size,
                        key_offset,
                        value_offset,
                        (cell.key, cell.value),
                        element@,
                    );
                }
                bytes.append(&mut element);
            }
            index = index + 1;
        }
        proof {
            let total = d.length * entry_size;
            assert(total >= 0) by (nonlinear_arith)
                requires
                    d.length >= 0,
                    entry_size >= 0,
                    total == d.length * entry_size,
            ;
            assert(bytes@.len() == total);
            assert(total <= array_bytes(d.length, entry_size));
            assert(has_range(made.mem(), array.data as int, bytes@.len() as int));
        }
        let _stored: bool = self.write_memory(array.data, bytes.as_slice());
        proof {
            let total = d.length * entry_size;
            assert forall|k: int| 0 <= k < total implies
                #[trigger] made.mem().contains_key(array.data + k) by {}
            assert(bytes_at(self.mem(), array.data as int, total as nat) =~= bytes@);
            assert forall|k: int| #[trigger] m.contains_key(k) implies self.mem().contains_key(k)
                && self.mem()[k] == m[k] by {
                assert(made.mem().contains_key(k) && made.mem()[k] == m[k]);
                assert(!(array.data <= k < array.data + total));
            }
            assert(made.array_allocated(before, temporary, array, d.length, entry_size));
        }
        Some(array)
    }

    /// What keeps a dictionary from being created.
    pub open spec fn new_dictionary_report(
        &self,
        key_kind: DictionaryKeyKind,
        key_size: u32,
        key_align: u32,
        value_size: u32,
        value_align: u32,
        region: ListRegion,
    ) -> Option<Seq<char>> {
        if key_size == 0 || value_size == 0 {
            Some("dictionary key and value sizes must be greater than zero"@)
        } else if key_size != key_kind_size(key_kind) {
            Some("dictionary key size does not match its concrete key kind"@)
        } else if !valid_align(key_align as int) {
            Some(alignment_text("key"@, key_align))
        } else if !valid_align(value_align as int) {
            Some(alignment_text("value"@, value_align))
        } else if region == ListRegion::Temporary && self.scopes().len() == 0 {
            Some("temporary dictionary allocation requires an active temporary scope"@)
        } else {
            None
        }
    }

    /// What creating a dictionary makes of the context `before`: nothing after
    /// an earlier error; a report and nothing else where something is wrong;
    /// otherwise an empty dictionary, unless the memory for its header is
    /// denied.
    pub open spec fn new_dictionary_outcome(
        &self,
        before: Self,
        types: DictionaryTypes,
        region: ListRegion,
        result: Option<AsterDictionary>,
    ) -> bool {
        let temporary = region == ListRegion::Temporary;
        if before.error_text() is Some {
            result is None && *self == before
        } else {
            match before.new_dictionary_report(
                types.key_kind,
                types.key_size,
                types.key_align,
                types.value_size,
                types.value_align,
                region,
            ) {
                Some(text) => result is None && self.only_failed(before, text),
                None => {
                    &&& result matches Some(d) ==> {
                        &&& d.types() == types
                        &&& d.buckets == 0
                        &&& d.entries == 0
                        &&& d.length == 0
                        &&& d.bucket_capacity == 0
                        &&& d.entry_capacity == 0
                        &&& d.entry_count == 0
                        &&& d.owner_id == before.configuration().identity.dictionary_owner_id
                        &&& d.region == region
                        &&& d.birth_scope_depth == if !temporary {
                            0
                        } else if before.scopes().len() > u32::MAX {
                            u32::MAX
                        } else {
                            before.scopes().len() as u32
                        }
                        &&& dictionary_header_report(d, d.owner_id) is None
                        &&& self.allocated_counted(
                            before,
                            temporary,
                            d.address,
                            DICTIONARY_HEADER_SIZE as int,
                            8,
                            AllocationCategory::Object,
                        )
                    }
                    &&& result is None ==> self.denied(
                        before,
                        temporary,
                        DICTIONARY_HEADER_SIZE as int,
                        8,
                    )
                },
            }
        }
    }

    /// Allocates an empty dictionary header in the arena selected by `region`.
    pub fn allocate_dictionary_in_region(
        &mut self,
        key_kind: DictionaryKeyKind,
        key_size: u32,
        key_align: u32,
        key_type_key: u64,
        value_size: u32,
        value_align: u32,
        value_type_key: u64,
        region: ListRegion,
    ) -> (result: Option<AsterDictionary>)
        requires
            old(self).wf(),
        ensures
            final(self).wf(),
            old(self).scoped() ==> final(self).scoped(),
            final(self).new_dictionary_outcome(
                *old(self),
                DictionaryTypes {
                    key_kind,
                    key_size,
                    key_align,
                    key_type_key,
                    value_size,
                    value_align,
                    value_type_key,
                },
                region,
                result,
            ),
    {
        if self.has_error() {
            return None;
        }
        if key_size == 0 || value_size == 0 {
            self.fail_with("dictionary key and value sizes must be greater than zero");
            return None;
        }
        if key_size as usize != dictionary_key_kind_size(key_kind) {
            self.fail_with("dictionary key size does not match its concrete key kind");
            return None;
        }
        proof {
            if key_align <= 16 {
                lemma_small_power_of_two(key_align);
            }
            if value_align <= 16 {
                lemma_small_power_of_two(value_align);
            }
        }
        if !power_of_two(key_align) || key_align as usize > MAX_ALIGN {
            self.fail_alignment("key", key_align);
            return None;
        }
        if !power_of_two(value_align) || value_align as usize > MAX_ALIGN {
            self.fail_alignment("value", value_align);
            return None;
        }
        let temporary: bool = region == ListRegion::Temporary;
        let depth: usize = self.scope_depth();
        if temporary && depth == 0 {
            self.fail_with("temporary dictionary allocation requires an active temporary scope");
            return None;
        }
        let owner_id: u64 = self.identity().dictionary_owner_id;
        match self.allocate_counted(
            temporary,
            DICTIONARY_HEADER_SIZE,
            8,
            AllocationCategory::Object,
        ) {
            None => None,
            Some(address) => Some(
                AsterDictionary {
                    address,
                    buckets: 0,
                    entries: 0,
                    length: 0,
                    bucket_capacity: 0,
                    entry_capacity: 0,
                    entry_count: 0,
                    key_size,
                    key_align,
                    value_size,
                    value_align,
                    key_type_key,
                    value_type_key,
                    owner_id,
                    key_kind,
                    region,
                    birth_scope_depth: if !temporary {
                        0
                    } else if depth > 0xffff_ffff {
                        0xffff_ffff
                    } else {
                        depth as u32
                    },
                },
            ),
        }
    }

    fn fail_alignment(&mut self, name: &str, align: u32)
        requires
            old(self).wf(),
        ensures
            final(self).wf(),
            final(self).only_failed(*old(self), alignment_text(name@, align)),
    {
        let mut message: String = "dictionary ".to_owned();
        message.append(name);
        message.append(" alignment must be a supported nonzero power of two, got ");
        push_decimal(&mut message, align as u64);
        self.fail(message);
    }
}

/// The report about an alignment that arenas do not support.
pub open spec fn alignment_text(name: Seq<char>, align: u32) -> Seq<char> {
    "dictionary "@ + name + " alignment must be a supported nonzero power of two, got "@ + decimal(
        align as nat,
    )
}

} // verus!
