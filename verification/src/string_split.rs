//! Splitting a string into an array of strings.

use vstd::bytes::{lemma_auto_spec_u64_to_from_le_bytes, spec_u64_to_le_bytes};
use vstd::prelude::*;
use vstd::utf8::*;

use crate::array::{
    array_bytes, array_report, array_scope_text, AsterArray, ARRAY_HEADER_SIZE,
};
use crate::context::{
    with_allocation, with_usage, AllocationCategory, ExecutionContext, MemoryStats,
};
use crate::memory::{bytes_at, has_range, lacks_range, overwritten, preserved};
use crate::scalars::{chars_of, scalars_of, split_bounds, split_parts};
use crate::string::{reference_text, text_of, view_str};
use crate::string_edit::{contents, encode_parts, encodings};
use crate::string_store::{
    law_allocated_string_is_readable, lemma_string_preserved, lemma_string_same, string_at,
    string_block, STRING_HEADER_SIZE,
};
use crate::words::{encode_addresses, encoded_addresses};

verus! {

/// What keeps a string from being split.
pub open spec fn split_report(value: Option<&[u8]>, separator: Option<&[u8]>) -> Option<Seq<char>> {
    match (text_of(value), text_of(separator)) {
        (Some(text), Some(gap)) => if gap.len() == 0 {
            Some("String.Split requires a non-empty separator"@)
        } else if split_parts(text, gap).len() > i32::MAX {
            Some("String.Split result exceeds the supported array length"@)
        } else if 8 * split_parts(text, gap).len() > usize::MAX {
            Some("array allocation size exceeds the addressable range"@)
        } else {
            None
        },
        _ => Some(reference_text("Split"@)),
    }
}

/// `stats` with one more string for each of `pieces`.
pub open spec fn with_strings(stats: MemoryStats, pieces: Seq<Seq<u8>>) -> MemoryStats
    decreases pieces.len(),
{
    if pieces.len() == 0 {
        stats
    } else {
        with_allocation(
            with_strings(stats, pieces.drop_last()),
            AllocationCategory::String,
            STRING_HEADER_SIZE + pieces.last().len(),
        )
    }
}

/// The contexts that storing strings one after the other goes through: in `steps[i]`
/// the first `i` of `pieces` are stored, each at its own address.
pub open spec fn strings_follow(
    steps: Seq<ExecutionContext>,
    temporary: bool,
    pieces: Seq<Seq<u8>>,
    addresses: Seq<u64>,
) -> bool {
    &&& steps.len() == addresses.len() + 1
    &&& addresses.len() <= pieces.len()
    &&& forall|i: int|
        0 <= i < addresses.len() ==> steps[i + 1].string_allocated(
            steps[i],
            temporary,
            #[trigger] addresses[i],
            pieces[i],
        )
}

impl ExecutionContext {
    /// Whether `self` came out of `before` by storing `pieces` as the array of strings
    /// `array`: first the array, then the strings one after the other in the same
    /// arena, then their addresses as the elements of the array, and nothing else.
    pub open spec fn strings_stored(
        &self,
        before: Self,
        temporary: bool,
        pieces: Seq<Seq<u8>>,
        array: AsterArray,
    ) -> bool {
        let bytes = array_bytes(pieces.len() as i32, 8);
        &&& self.region(!temporary) == before.region(!temporary)
        &&& self.error_text() == before.error_text()
        &&& self.memory_statistics() == if before.configuration().collect_stats {
            with_usage(
                with_strings(
                    with_allocation(
                        before.memory_statistics(),
                        AllocationCategory::Array,
                        bytes,
                    ),
                    pieces,
                ),
                self.used(),
                self.reserved(),
            )
        } else {
            before.memory_statistics()
        }
        &&& array.length == pieces.len()
        &&& array.element_size == 8
        &&& lacks_range(before.mem(), array.data as int, bytes)
        &&& has_range(self.region(temporary).mem(), array.data as int, bytes)
        &&& array.address > 0
        &&& array.data > 0
        &&& array.address + ARRAY_HEADER_SIZE <= array.data || array.data + bytes <= array.address
        &&& lacks_range(before.mem(), array.address as int, ARRAY_HEADER_SIZE as int)
        &&& has_range(
            self.region(temporary).mem(),
            array.address as int,
            ARRAY_HEADER_SIZE as int,
        )
        &&& forall|i: int|
            0 <= i < pieces.len() ==> array.string_in(self.mem(), i) == Some(#[trigger] pieces[i])
        &&& exists|steps: Seq<ExecutionContext>, addresses: Seq<u64>|
            {
                &&& #[trigger] strings_follow(steps, temporary, pieces, addresses)
                &&& addresses.len() == pieces.len()
                &&& steps[0].array_allocated(before, temporary, array, pieces.len() as i32, 8)
                &&& self.same_but_bytes(steps.last())
                &&& self.mem() == overwritten(
                    steps.last().mem(),
                    array.data as int,
                    encoded_addresses(addresses),
                )
                &&& forall|i: int|
                    0 <= i < pieces.len() ==> {
                        let size = STRING_HEADER_SIZE + pieces[i].len();
                        &&& lacks_range(before.mem(), #[trigger] addresses[i] as int, size)
                        &&& has_range(self.region(temporary).mem(), addresses[i] as int, size)
                    }
            }
    }

    /// What storing `pieces` as an array of strings makes of the context
    /// `before`: a report and nothing else without a scope for it; otherwise the
    /// array, unless memory for it or for one of its strings is denied. Nothing
    /// that was stored before changes.
    pub open spec fn strings_outcome(
        &self,
        before: Self,
        temporary: bool,
        pieces: Seq<Seq<u8>>,
        result: Option<AsterArray>,
    ) -> bool {
        if temporary && before.scopes().len() == 0 {
            result is None && self.only_failed(before, array_scope_text())
        } else {
            &&& self.carries_on(before)
            &&& self.scopes() == before.scopes()
            &&& preserved(before.mem(), self.mem())
            &&& result matches Some(array) ==> self.strings_stored(before, temporary, pieces, array)
            &&& result is None ==> {
                ||| self.array_denied(before, temporary, pieces.len() as i32, 8)
                ||| exists|array: AsterArray, steps: Seq<ExecutionContext>, addresses: Seq<u64>|
                    {
                        &&& #[trigger] strings_follow(steps, temporary, pieces, addresses)
                        &&& #[trigger] steps[0].array_allocated(
                            before,
                            temporary,
                            array,
                            pieces.len() as i32,
                            8,
                        )
                        &&& addresses.len() < pieces.len()
                        &&& self.string_outcome(
                            steps.last(),
                            temporary,
                            pieces[addresses.len() as int],
                            None,
                        )
                    }
            }
        }
    }

    /// Stores `pieces` as an array of strings.
    #[verifier::rlimit(80)]
    pub fn allocate_strings(&mut self, pieces: &Vec<Vec<u8>>, temporary: bool) -> (result: Option<
        AsterArray,
    >)
        requires
            old(self).wf(),
            pieces@.len() <= i32::MAX,
            8 * pieces@.len() <= usize::MAX,
            forall|i: int| 0 <= i < pieces@.len() ==> valid_utf8((#[trigger] pieces@[i])@),
        ensures
            final(self).wf(),
            old(self).scoped() ==> final(self).scoped(),
            final(self).strings_outcome(*old(self), temporary, contents(pieces@), result),
    {
        let ghost before = *self;
        let ghost all = contents(pieces@);
        let count: usize = pieces.len();
        let array: AsterArray = match self.allocate_array_in_region(count as i32, 8, temporary) {
            None => {
                return None;
            },
            Some(array) => array,
        };
        let ghost made = *self;
        let ghost bytes = array_bytes(count as i32, 8);
        let ghost first = with_allocation(
            before.memory_statistics(),
            AllocationCategory::Array,
            bytes,
        );
        let ghost mut steps: Seq<ExecutionContext> = seq![made];
        proof {
            assert(array_report(count as i32, 8) is None);
            made.lemma_array_allocated(before, temporary, array, count as i32, 8);
            assert(bytes >= 8 * count);
            assert(all.take(0) =~= Seq::<Seq<u8>>::empty());
        }
        let mut addresses: Vec<u64> = Vec::new();
        let mut i: usize = 0;
        while i < count
            invariant
                self.wf(),
                before == *old(self),
                count == pieces@.len(),
                all == contents(pieces@),
                i <= count,
                count <= i32::MAX,
                addresses@.len() == i,
                forall|k: int| 0 <= k < pieces@.len() ==> valid_utf8((#[trigger] pieces@[k])@),
                !(temporary && before.scopes().len() == 0),
                self.carries_on(before),
                self.scopes() == before.scopes(),
                self.error_text() == before.error_text(),
                before.scoped() ==> self.scoped(),
                made.array_allocated(before, temporary, array, count as i32, 8),
                self.region(!temporary) == before.region(!temporary),
                preserved(before.mem(), made.mem()),
                preserved(made.mem(), self.mem()),
                bytes == array_bytes(count as i32, 8),
                first == with_allocation(
                    before.memory_statistics(),
                    AllocationCategory::Array,
                    bytes,
                ),
                self.memory_statistics() == if before.configuration().collect_stats {
                    with_usage(
                        with_strings(first, all.take(i as int)),
                        self.used(),
                        self.reserved(),
                    )
                } else {
                    before.memory_statistics()
                },
                steps.len() == i + 1,
                steps[0] == made,
                steps.last() == *self,
                strings_follow(steps, temporary, all, addresses@),
                forall|k: int|
                    0 <= k < i ==> {
                        &&& string_at(self.mem(), #[trigger] addresses@[k]) == Some(pieces@[k]@)
                        &&& has_range(
                            self.mem(),
                            addresses@[k] as int,
                            STRING_HEADER_SIZE + pieces@[k]@.len(),
                        )
                        &&& lacks_range(
                            made.mem(),
                            addresses@[k] as int,
                            STRING_HEADER_SIZE + pieces@[k]@.len(),
                        )
                    },
            decreases count - i,
        {
            let ghost last = *self;
            match self.allocate_text(pieces[i].as_slice(), temporary) {
                None => {
                    proof {
                        lemma_preserved(before.mem(), made.mem(), last.mem());
                        assert(all[i as int] == pieces@[i as int]@);
                        assert(steps[0].array_allocated(
                            before,
                            temporary,
                            array,
                            all.len() as i32,
                            8,
                        ));
                        assert(self.string_outcome(
                            steps.last(),
                            temporary,
                            all[addresses@.len() as int],
                            None,
                        ));
                    }
                    return None;
                },
                Some(address) => {
                    proof {
                        let piece = pieces@[i as int]@;
                        let size = STRING_HEADER_SIZE + piece.len();
                        assert(valid_utf8(piece));
                        assert(all[i as int] == piece);
                        law_allocated_string_is_readable(last, *self, temporary, address, piece);
                        self.lemma_placed_with(
                            last,
                            temporary,
                            address,
                            size,
                            8,
                            string_block(piece),
                        );
                        lemma_preserved(made.mem(), last.mem(), self.mem());
                        lemma_more_strings(first, all, i as int);
                        last.lemma_usage();
                        self.lemma_usage();
                        assert(last.used() <= self.used());
                        assert(last.reserved() <= self.reserved());
                        assert forall|k: int| 0 <= k < i implies string_at(
                            self.mem(),
                            #[trigger] addresses@[k],
                        ) == Some(pieces@[k]@) && has_range(
                            self.mem(),
                            addresses@[k] as int,
                            STRING_HEADER_SIZE + pieces@[k]@.len(),
                        ) by {
                            lemma_string_preserved(last.mem(), self.mem(), addresses@[k]);
                            lemma_range_preserved(
                                last.mem(),
                                self.mem(),
                                addresses@[k] as int,
                                STRING_HEADER_SIZE + pieces@[k]@.len(),
                            );
                        }
                        lemma_range_missing(made.mem(), last.mem(), address as int, size);
                        let longer = steps.push(*self);
                        assert forall|k: int| 0 <= k < i + 1 implies longer[k
                            + 1].string_allocated(
                            longer[k],
                            temporary,
                            #[trigger] addresses@.push(address)[k],
                            all[k],
                        ) by {
                            if k < i {
                                assert(addresses@[k] == addresses@.push(address)[k]);
                                assert(steps[k + 1].string_allocated(
                                    steps[k],
                                    temporary,
                                    addresses@[k],
                                    all[k],
                                ));
                            }
                        }
                        steps = longer;
                    }
                    addresses.push(address);
                },
            }
            i = i + 1;
        }
        let ghost stored = *self;
        let content: Vec<u8> = encode_addresses(&addresses);
        proof {
            assert(content@.len() == 8 * count);
            assert(all.take(count as int) =~= all);
            lemma_range_preserved(made.mem(), stored.mem(), array.data as int, bytes);
            assert forall|k: int|
                array.data <= k < array.data + content@.len() implies
                #[trigger] stored.mem().contains_key(k) by {}
        }
        let _stored: bool = self.write_memory(array.data, content.as_slice());
        proof {
            lemma_auto_spec_u64_to_from_le_bytes();
            let w = self.mem();
            assert(self.region(!temporary) == before.region(!temporary)) by {
                before.lemma_regions_apart();
                stored.lemma_regions_apart();
                assert(made.mem().contains_key(array.data as int));
                assert(stored.mem().contains_key(array.data as int));
                assert(!before.mem().contains_key(array.data as int));
                assert(!before.region(!temporary).mem().contains_key(array.data as int));
            }
            lemma_only_in_region(before, *self, temporary, array.data as int, bytes);
            lemma_range_preserved(
                made.mem(),
                w,
                array.address as int,
                ARRAY_HEADER_SIZE as int,
            );
            lemma_only_in_region(
                before,
                *self,
                temporary,
                array.address as int,
                ARRAY_HEADER_SIZE as int,
            );
            assert forall|k: int| 0 <= k < count implies {
                let size = STRING_HEADER_SIZE + all[k].len();
                &&& lacks_range(before.mem(), #[trigger] addresses@[k] as int, size)
                &&& has_range(self.region(temporary).mem(), addresses@[k] as int, size)
            } by {
                let size = STRING_HEADER_SIZE + all[k].len();
                assert(all[k] == pieces@[k]@);
                lemma_range_missing(before.mem(), made.mem(), addresses@[k] as int, size);
                assert(has_range(w, addresses@[k] as int, size));
                lemma_only_in_region(before, *self, temporary, addresses@[k] as int, size);
            }
            assert forall|k: int| 0 <= k < count implies array.string_in(w, k) == Some(
                #[trigger] all[k],
            ) by {
                let slot = array.slot(k);
                assert(slot == array.data + 8 * k);
                assert forall|j: int| slot <= j < slot + 8 implies #[trigger] w.contains_key(j) by {
                    assert(stored.mem().contains_key(j));
                }
                let found = bytes_at(w, slot, 8);
                let number = spec_u64_to_le_bytes(addresses@[k]);
                assert forall|j: int| 0 <= j < 8 implies #[trigger] found[j] == number[j] by {
                    assert(stored.mem().contains_key(slot + j));
                    assert((8 * k + j) / 8 == k && (8 * k + j) % 8 == j);
                    assert(content@[8 * k + j] == number[j]);
                }
                assert(found =~= number);
                let address = addresses@[k];
                let size = STRING_HEADER_SIZE + pieces@[k]@.len();
                assert(string_at(stored.mem(), address) == Some(pieces@[k]@));
                assert(lacks_range(made.mem(), address as int, size));
                assert forall|j: int| address <= j < address + size implies (
                #[trigger] w.contains_key(j)) && w[j] == stored.mem()[j] by {
                    assert(stored.mem().contains_key(j));
                    if array.data <= j < array.data + content@.len() {
                        assert(made.mem().contains_key(j));
                        assert(!made.mem().contains_key(j));
                    }
                }
                lemma_string_same(stored.mem(), w, address);
            }
            assert forall|k: int| #[trigger] before.mem().contains_key(k) implies w.contains_key(k)
                && w[k] == before.mem()[k] by {
                assert(made.mem().contains_key(k));
                assert(stored.mem().contains_key(k));
                assert(!(array.data <= k < array.data + content@.len()));
            }
            assert(steps.last() == stored);
            assert(strings_follow(steps, temporary, all, addresses@));
        }
        Some(array)
    }
}

/// One more string counts once more.
proof fn lemma_more_strings(stats: MemoryStats, pieces: Seq<Seq<u8>>, i: int)
    requires
        0 <= i < pieces.len(),
    ensures
        with_strings(stats, pieces.take(i + 1)) == with_allocation(
            with_strings(stats, pieces.take(i)),
            AllocationCategory::String,
            STRING_HEADER_SIZE + pieces[i].len(),
        ),
{
    assert(pieces.take(i + 1).drop_last() =~= pieces.take(i));
}

/// Memory that is kept twice is kept.
proof fn lemma_preserved(a: Map<int, u8>, b: Map<int, u8>, c: Map<int, u8>)
    requires
        preserved(a, b),
        preserved(b, c),
    ensures
        preserved(a, c),
{
    assert forall|k: int| #[trigger] a.contains_key(k) implies c.contains_key(k) && c[k]
        == a[k] by {
        assert(b.contains_key(k));
    }
}

/// Memory that is kept stays allocated.
proof fn lemma_range_preserved(a: Map<int, u8>, b: Map<int, u8>, start: int, n: int)
    requires
        forall|k: int| #[trigger] a.contains_key(k) ==> b.contains_key(k),
        has_range(a, start, n),
    ensures
        has_range(b, start, n),
{
    assert forall|k: int| start <= k < start + n implies #[trigger] b.contains_key(k) by {
        assert(a.contains_key(k));
    }
}

/// Memory that is new was not there earlier.
proof fn lemma_range_missing(a: Map<int, u8>, b: Map<int, u8>, start: int, n: int)
    requires
        preserved(a, b),
        lacks_range(b, start, n),
    ensures
        lacks_range(a, start, n),
{
    assert forall|k: int| start <= k < start + n implies !#[trigger] a.contains_key(k) by {
        if a.contains_key(k) {
            assert(b.contains_key(k));
        }
    }
}

/// New memory lies in the arena that changed.
proof fn lemma_only_in_region(
    before: ExecutionContext,
    after: ExecutionContext,
    temporary: bool,
    start: int,
    n: int,
)
    requires
        after.region(!temporary) == before.region(!temporary),
        lacks_range(before.mem(), start, n),
        has_range(after.mem(), start, n),
    ensures
        has_range(after.region(temporary).mem(), start, n),
{
    assert forall|k: int| start <= k < start + n implies #[trigger] after.region(
        temporary,
    ).mem().contains_key(k) by {
        assert(after.mem().contains_key(k));
        assert(!before.mem().contains_key(k));
    }
}

/// Does the work of the two calls below.
fn string_split(
    context: Option<&mut ExecutionContext>,
    value: Option<&[u8]>,
    separator: Option<&[u8]>,
    temporary: bool,
) -> (result: Option<AsterArray>)
    requires
        context matches Some(c) ==> c.wf(),
    ensures
        context is None ==> result is None,
        context matches Some(c) ==> {
            &&& final(c).wf()
            &&& c.scoped() ==> final(c).scoped()
            &&& split_report(value, separator) matches Some(report) ==> result is None && final(c).only_failed(*c, report)
            &&& split_report(value, separator) is None ==> final(c).strings_outcome(
                *c,
                temporary,
                encodings(split_parts(text_of(value)->0, text_of(separator)->0)),
                result,
            )
        },
{
    let context: &mut ExecutionContext = match context {
        None => {
            return None;
        },
        Some(context) => context,
    };
    match (view_str(value), view_str(separator)) {
        (Some(value), Some(separator)) => {
            let text: Vec<u32> = scalars_of(value);
            let gap: Vec<u32> = scalars_of(separator);
            if gap.len() == 0 {
                context.fail_with("String.Split requires a non-empty separator");
                return None;
            }
            let bounds: Vec<(usize, usize)> = split_bounds(text.as_slice(), gap.as_slice());
            let count: usize = bounds.len();
            if count > 0x7fff_ffff {
                context.fail_with("String.Split result exceeds the supported array length");
                return None;
            }
            if count.checked_mul(8).is_none() {
                context.fail_with("array allocation size exceeds the addressable range");
                return None;
            }
            let pieces: Vec<Vec<u8>> = encode_parts(&text, &bounds);
            proof {
                let parts = split_parts(chars_of(text@), chars_of(gap@));
                assert forall|k: int| 0 <= k < parts.len() implies valid_utf8(
                    (#[trigger] pieces@[k])@,
                ) && pieces@[k]@ == encode_utf8(parts[k]) by {
                    assert(bounds@[k].0 <= bounds@[k].1);
                    encode_utf8_valid_utf8(parts[k]);
                }
                assert(contents(pieces@) =~= encodings(parts));
            }
            context.allocate_strings(&pieces, temporary)
        },
        _ => {
            context.fail_string("Split", " received an invalid UTF-8 string reference");
            None
        },
    }
}

/// Splits a string at every occurrence of a separator. Empty parts stay.
pub fn aster_rt_string_split(
    context: Option<&mut ExecutionContext>,
    value: Option<&[u8]>,
    separator: Option<&[u8]>,
) -> (result: Option<AsterArray>)
    requires
        context matches Some(c) ==> c.wf(),
    ensures
        context is None ==> result is None,
        context matches Some(c) ==> {
            &&& final(c).wf()
            &&& c.scoped() ==> final(c).scoped()
            &&& split_report(value, separator) matches Some(report) ==> result is None && final(c).only_failed(*c, report)
            &&& split_report(value, separator) is None ==> final(c).strings_outcome(
                *c,
                false,
                encodings(split_parts(text_of(value)->0, text_of(separator)->0)),
                result,
            )
        },
{
    string_split(context, value, separator, false)
}

/// Splits a string at every occurrence of a separator. Empty parts stay. The
/// result lives until its scope is left.
pub fn aster_rt_string_split_temporary(
    context: Option<&mut ExecutionContext>,
    value: Option<&[u8]>,
    separator: Option<&[u8]>,
) -> (result: Option<AsterArray>)
    requires
        context matches Some(c) ==> c.wf(),
    ensures
        context is None ==> result is None,
        context matches Some(c) ==> {
            &&& final(c).wf()
            &&& c.scoped() ==> final(c).scoped()
            &&& split_report(value, separator) matches Some(report) ==> result is None && final(c).only_failed(*c, report)
            &&& split_report(value, separator) is None ==> final(c).strings_outcome(
                *c,
                true,
                encodings(split_parts(text_of(value)->0, text_of(separator)->0)),
                result,
            )
        },
{
    string_split(context, value, separator, true)
}

/// The parts of a split, put together with the separator between them, are the
/// string that was split.
pub proof fn law_split_loses_nothing(value: Option<&[u8]>, separator: Option<&[u8]>)
    requires
        split_report(value, separator) is None,
    ensures
        crate::scalars::joined_with(
            split_parts(text_of(value)->0, text_of(separator)->0),
            text_of(separator)->0,
        ) == text_of(value)->0,
{
    crate::scalars::law_join_undoes_split(text_of(value)->0, text_of(separator)->0);
}

} // verus!
