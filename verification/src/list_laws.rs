//! What list calls are for: a list is its elements, in order.

use vstd::prelude::*;

use crate::context::ExecutionContext;
use crate::list::{
    aster_rt_list_add, aster_rt_list_get, aster_rt_list_length, aster_rt_list_new,
    aster_rt_list_new_temporary, aster_rt_list_remove_at, aster_rt_list_version,
    aster_rt_list_version_mismatch, AsterList, ListRegion,
};
use crate::meaning::{holds, keeps, only_looks, refuses};
use crate::memory::{has_range, preserved};
use crate::numbers::lemma_small_power_of_two;

verus! {

/// A list has these elements, in this order: each lies in memory as many elements behind
/// the first as its place says.
pub open spec fn has_items(c: ExecutionContext, list: AsterList, items: Seq<Seq<u8>>) -> bool {
    &&& list.stored_in(c.mem())
    &&& list.length == items.len()
    &&& forall|i: int|
        0 <= i < items.len() ==> {
            &&& (#[trigger] items[i]).len() == list.element_size
            &&& holds(c.mem(), list.data + i * list.element_size, items[i])
        }
}

/// A call that names the type of the elements of a list as it is.
pub open spec fn names_type(list: AsterList, size: i32, align: i32, key: i64) -> bool {
    size == list.element_size && align == list.element_align && key as u64
        == list.element_type_key
}

proof fn lemma_items(c: ExecutionContext, list: AsterList)
    requires
        list.stored_in(c.mem()),
    ensures
        has_items(c, list, list.elements(c.mem())),
        forall|items: Seq<Seq<u8>>|
            #[trigger] has_items(c, list, items) ==> items == list.elements(c.mem()),
{
    let m = c.mem();
    let found = list.elements(m);
    assert forall|i: int| 0 <= i < found.len() implies {
        &&& (#[trigger] found[i]).len() == list.element_size
        &&& holds(m, list.data + i * list.element_size, found[i])
    } by {
        assert(i * list.element_size + list.element_size <= list.capacity * list.element_size)
            by (nonlinear_arith)
            requires
                0 <= i < list.capacity,
                0 <= list.element_size,
        ;
        assert(0 <= i * list.element_size) by (nonlinear_arith)
            requires
                0 <= i,
                0 <= list.element_size,
        ;
        assert(has_range(m, list.data as int, list.extent(list.capacity as int)));
        assert(found[i] == list.element(m, i));
        assert forall|k: int|
            list.data + i * list.element_size <= k < list.data + i * list.element_size
                + found[i].len() implies #[trigger] m.contains_key(k) by {}
    }
    assert forall|items: Seq<Seq<u8>>| #[trigger] has_items(c, list, items) implies items
        == found by {
        assert forall|i: int| 0 <= i < items.len() implies items[i] == found[i] by {
            assert(holds(m, list.data + i * list.element_size, items[i]));
            assert(found[i] == list.element(m, i));
            assert forall|k: int| 0 <= k < items[i].len() implies #[trigger] items[i][k]
                == found[i][k] by {}
            assert(items[i] =~= found[i]);
        }
        assert(items =~= found);
    }
}

/// Adding puts an element behind the others and counts the change. Where there is spare
/// room it always does. Where it does not, that is reported, and the list is as it was.
pub proof fn law_list_add(
    context: Option<&mut ExecutionContext>,
    list: Option<&mut AsterList>,
    size: i32,
    align: i32,
    key: i64,
    source: Option<&[u8]>,
    items: Seq<Seq<u8>>,
)
    requires
        context matches Some(c) && c.wf() && c.error_text() is None,
        list matches Some(l) && names_type(*l, size, align, key),
        has_items(*context->0, *list->0, items),
        source matches Some(s) && s@.len() >= size,
        call_ensures(aster_rt_list_add, (context, list, size, align, key, source), ()),
    ensures
        final(context->0).error_text() is None ==> {
            &&& has_items(
                *final(context->0),
                *final(list->0),
                items.push(source->0@.take(size as int)),
            )
            &&& names_type(*final(list->0), size, align, key)
            &&& final(list->0).version as int == (list->0.version + 1) % 0x1_0000_0000_0000_0000
            &&& final(list->0).region == list->0.region
            &&& final(list->0).address == list->0.address
        },
        final(context->0).error_text() is Some ==> {
            &&& *final(list->0) == *list->0
            &&& keeps(context->0.mem(), final(context->0).mem())
            &&& has_items(*final(context->0), *final(list->0), items)
        },
        list->0.length < list->0.capacity ==> final(context->0).error_text() is None,
{
    let before = *context->0;
    let after = *final(context->0);
    let l = *list->0;
    let next = *final(list->0);
    lemma_items(before, l);
    if l.length < l.capacity {
        assert((l.length + 1) * l.element_size <= l.capacity * l.element_size) by (nonlinear_arith)
            requires
                l.length < l.capacity,
                0 <= l.element_size,
        ;
        assert((l.length + 1) * l.element_size == l.length * l.element_size + l.element_size)
            by (nonlinear_arith);
        assert(0 <= l.length * l.element_size) by (nonlinear_arith)
            requires
                0 <= l.length,
                0 <= l.element_size,
        ;
        assert(has_range(before.mem(), l.data as int, l.extent(l.capacity as int)));
    }
    if after.error_text() is None {
        assert(next != l);
        lemma_items(after, next);
    } else {
        assert(next == l);
        assert(after.mem() == before.mem());
    }
}

/// A list that lives in the scope that is open takes more room from the arena of that
/// scope. One that lives longer takes it from the arena that outlives all scopes, so that
/// its elements are there when the scope is left.
pub proof fn law_list_grows_where_it_lives(
    context: Option<&mut ExecutionContext>,
    list: Option<&mut AsterList>,
    size: i32,
    align: i32,
    key: i64,
    source: Option<&[u8]>,
    items: Seq<Seq<u8>>,
)
    requires
        context matches Some(c) && c.wf() && c.error_text() is None,
        list matches Some(l) && names_type(*l, size, align, key),
        has_items(*context->0, *list->0, items),
        source matches Some(s) && s@.len() >= size,
        call_ensures(aster_rt_list_add, (context, list, size, align, key, source), ()),
        final(context->0).error_text() is None,
    ensures
        ({
            let of_the_scope = list->0.region == ListRegion::Temporary
                && context->0.scopes().len() == list->0.birth_scope_depth;
            let full = list->0.length == list->0.capacity;
            &&& of_the_scope || !full ==> final(context->0).persistent().shape()
                == context->0.persistent().shape()
            &&& !of_the_scope || !full ==> final(context->0).temporary().shape()
                == context->0.temporary().shape()
            &&& full ==> final(list->0).capacity == if list->0.capacity == 0 {
                4
            } else {
                2 * list->0.capacity
            }
            &&& !full ==> final(list->0).capacity == list->0.capacity && final(list->0).data
                == list->0.data
        }),
{
}

/// Reading gives the element at an index, and nothing changes. An index outside the list
/// is reported, and nothing is given.
pub proof fn law_list_get(
    context: Option<&mut ExecutionContext>,
    list: Option<&AsterList>,
    size: i32,
    align: i32,
    key: i64,
    index: i32,
    destination: Option<&mut Vec<u8>>,
    items: Seq<Seq<u8>>,
)
    requires
        context matches Some(c) && c.wf(),
        list matches Some(l) && names_type(*l, size, align, key),
        has_items(*context->0, *list->0, items),
        destination matches Some(d) && d@.len() >= size,
        call_ensures(aster_rt_list_get, (context, list, size, align, key, index, destination), ()),
    ensures
        0 <= index < items.len() ==> {
            &&& only_looks(*context->0, *final(context->0))
            &&& final(destination->0)@ == items[index as int] + destination->0@.skip(size as int)
        },
        !(0 <= index < items.len()) ==> {
            &&& refuses(*context->0, *final(context->0))
            &&& final(destination->0)@ == destination->0@
        },
{
    let before = *context->0;
    let l = *list->0;
    lemma_items(before, l);
    if 0 <= index < items.len() {
        assert((index + 1) * l.element_size <= l.capacity * l.element_size) by (nonlinear_arith)
            requires
                0 <= index < l.capacity,
                0 <= l.element_size,
        ;
        assert((index + 1) * l.element_size == index * l.element_size + l.element_size)
            by (nonlinear_arith);
        assert(0 <= index * l.element_size) by (nonlinear_arith)
            requires
                0 <= index,
                0 <= l.element_size,
        ;
        assert(has_range(before.mem(), l.data as int, l.extent(l.capacity as int)));
        assert(items[index as int] == l.element(before.mem(), index as int));
        assert(final(destination->0)@ =~= items[index as int] + destination->0@.skip(size as int));
    }
}

/// Removing takes one element out, moves those behind it up and counts the change. An
/// index outside the list is reported, and nothing changes.
pub proof fn law_list_remove_at(
    context: Option<&mut ExecutionContext>,
    list: Option<&mut AsterList>,
    size: i32,
    align: i32,
    key: i64,
    index: i32,
    items: Seq<Seq<u8>>,
)
    requires
        context matches Some(c) && c.wf(),
        list matches Some(l) && names_type(*l, size, align, key),
        list->0.length * list->0.element_size <= usize::MAX,
        has_items(*context->0, *list->0, items),
        call_ensures(aster_rt_list_remove_at, (context, list, size, align, key, index), ()),
    ensures
        0 <= index < items.len() ==> {
            &&& final(context->0).error_text() == context->0.error_text()
            &&& has_items(*final(context->0), *final(list->0), items.remove(index as int))
            &&& names_type(*final(list->0), size, align, key)
            &&& final(list->0).version as int == (list->0.version + 1) % 0x1_0000_0000_0000_0000
            &&& final(list->0).capacity == list->0.capacity
            &&& final(list->0).data == list->0.data
            &&& final(list->0).region == list->0.region
        },
        !(0 <= index < items.len()) ==> {
            &&& refuses(*context->0, *final(context->0))
            &&& *final(list->0) == *list->0
        },
{
    let before = *context->0;
    let after = *final(context->0);
    let l = *list->0;
    let next = *final(list->0);
    let size = l.element_size as int;
    lemma_items(before, l);
    if 0 <= index < items.len() {
        let i = index as int;
        let n = l.length as int;
        let c = l.capacity as int;
        assert(0 <= i * size <= (i + 1) * size <= n * size <= c * size) by (nonlinear_arith)
            requires
                0 <= i < n <= c,
                0 <= size,
        ;
        assert(0 <= (n - (i + 1)) * size <= n * size) by (nonlinear_arith)
            requires
                0 <= i < n,
                0 <= size,
        ;
        assert(0 <= (n - 1) * size <= n * size) by (nonlinear_arith)
            requires
                1 <= n,
                0 <= size,
        ;
        assert(has_range(before.mem(), l.data as int, l.extent(c)));
        assert(has_range(before.mem(), l.data + l.extent(i), l.extent(n) - l.extent(i)));
        lemma_items(after, next);
    }
}

/// The length of a list is how many elements it has. Its version is how often it changed.
pub proof fn law_list_length(
    context: Option<&mut ExecutionContext>,
    list: Option<&AsterList>,
    items: Seq<Seq<u8>>,
    result: i32,
)
    requires
        context matches Some(c) && c.wf(),
        list is Some,
        has_items(*context->0, *list->0, items),
        call_ensures(aster_rt_list_length, (context, list), result),
    ensures
        only_looks(*context->0, *final(context->0)),
        result == items.len(),
{
}

/// The version that is read is the one that was counted.
pub proof fn law_list_version(
    context: Option<&mut ExecutionContext>,
    list: Option<&AsterList>,
    items: Seq<Seq<u8>>,
    result: i64,
)
    requires
        context matches Some(c) && c.wf(),
        list is Some,
        has_items(*context->0, *list->0, items),
        call_ensures(aster_rt_list_version, (context, list), result),
    ensures
        only_looks(*context->0, *final(context->0)),
        result as u64 == list->0.version,
{
    let version = list->0.version;
    assert((version as i64) as u64 == version) by (bit_vector);
}

/// A list that changed while it was walked is reported, and nothing else happens.
pub proof fn law_list_version_mismatch(context: Option<&mut ExecutionContext>)
    requires
        context matches Some(c) && c.wf(),
        call_ensures(aster_rt_list_version_mismatch, (context,), ()),
    ensures
        refuses(*context->0, *final(context->0)),
{
}

/// A new list has no element, and its type is the one that was asked for.
pub proof fn law_new_list(
    temporary: bool,
    context: Option<&mut ExecutionContext>,
    size: i32,
    align: i32,
    key: i64,
    result: Option<AsterList>,
)
    requires
        context matches Some(c) && c.wf(),
        temporary ==> call_ensures(
            aster_rt_list_new_temporary,
            (context, size, align, key),
            result,
        ),
        !temporary ==> call_ensures(aster_rt_list_new, (context, size, align, key), result),
    ensures
        result matches Some(list) ==> {
            &&& names_type(list, size, align, key)
            &&& has_items(*final(context->0), list, Seq::empty())
            &&& list.version == 0
            &&& final(context->0).error_text() == context->0.error_text()
        },
        result is None ==> final(context->0).error_text() is Some,
        size <= 0 ==> result is None && refuses(*context->0, *final(context->0)),
        !(align == 1 || align == 2 || align == 4 || align == 8 || align == 16) ==> {
            result is None && refuses(*context->0, *final(context->0))
        },
        temporary && context->0.scopes().len() == 0 ==> result is None && refuses(
            *context->0,
            *final(context->0),
        ),
        keeps(context->0.mem(), final(context->0).mem()),
{
    let before = *context->0;
    let after = *final(context->0);
    if 0 <= align <= 16 {
        lemma_small_power_of_two(align as u32);
    }
    if let Some(list) = result {
        after.lemma_allocated(
            before,
            temporary,
            list.address,
            crate::list::LIST_HEADER_SIZE as int,
            8,
        );
        lemma_items(after, list);
        assert(preserved(before.mem(), after.mem()));
    }
}

} // verus!
