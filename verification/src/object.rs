//! Object allocation and temporary scopes as generated code calls them.

use vstd::prelude::*;

use crate::context::{at_least_one, AllocationCategory, ExecutionContext};

verus! {

/// The size of an object that was asked for with a signed number: a size that is
/// negative asks for the smallest object.
pub open spec fn object_size(size: i32) -> int {
    if size < 0 {
        1
    } else {
        at_least_one(size as int)
    }
}

fn size_of_object(size: i32) -> (result: u32)
    ensures
        at_least_one(result as int) == object_size(size),
{
    if size < 0 {
        1
    } else {
        size as u32
    }
}

/// Allocates stable, zeroed storage that lives as long as the context.
pub fn aster_rt_object_new(context: Option<&mut ExecutionContext>, size: i32) -> (result: Option<
    u64,
>)
    requires
        context matches Some(c) ==> c.wf(),
    ensures
        context is None ==> result is None,
        context matches Some(c) ==> {
            &&& final(c).wf()
            &&& c.scoped() ==> final(c).scoped()
            &&& result matches Some(address) ==> final(c).allocated_counted(
                *c,
                false,
                address,
                object_size(size),
                8,
                AllocationCategory::Object,
            )
            &&& result is None ==> final(c).denied(*c, false, object_size(size), 8)
            &&& !c.persistent().needs_page(object_size(size), 8) ==> result is Some
        },
{
    match context {
        None => None,
        Some(context) => context.allocate_object(size_of_object(size)),
    }
}

/// Allocates zeroed storage that lives until its scope is left.
pub fn aster_rt_object_new_temporary(
    context: Option<&mut ExecutionContext>,
    size: i32,
) -> (result: Option<u64>)
    requires
        context matches Some(c) ==> c.wf(),
    ensures
        context is None ==> result is None,
        context matches Some(c) ==> {
            &&& final(c).wf()
            &&& c.scoped() ==> final(c).scoped()
            &&& c.scopes().len() == 0 ==> result is None && final(c).only_failed(
                *c,
                "temporary object allocation requires an active temporary scope"@,
            )
            &&& c.scopes().len() > 0 ==> {
                &&& result matches Some(address) ==> final(c).allocated_counted(
                    *c,
                    true,
                    address,
                    object_size(size),
                    8,
                    AllocationCategory::Object,
                )
                &&& result is None ==> final(c).denied(*c, true, object_size(size), 8)
                &&& !c.temporary().needs_page(object_size(size), 8) ==> result is Some
            }
        },
{
    match context {
        None => None,
        Some(context) => context.allocate_temporary_object(size_of_object(size)),
    }
}

/// Opens a temporary scope.
pub fn aster_rt_temporary_scope_enter(context: Option<&mut ExecutionContext>)
    requires
        context matches Some(c) ==> c.wf() && c.temporary().next_mark() < u64::MAX,
    ensures
        context matches Some(c) ==> {
            &&& final(c).wf()
            &&& c.scoped() ==> final(c).scoped()
            &&& final(c).scope_entered(*c)
        },
{
    if let Some(context) = context {
        context.enter_temporary_scope();
    }
}

/// Closes the innermost temporary scope, or reports that there is none.
pub fn aster_rt_temporary_scope_leave(context: Option<&mut ExecutionContext>)
    requires
        context matches Some(c) ==> c.wf() && (c.scopes().len() > 0 ==> c.scoped()),
    ensures
        context matches Some(c) ==> {
            &&& final(c).wf()
            &&& c.scopes().len() == 0 ==> final(c).only_failed(
                *c,
                "temporary scope leave has no matching enter"@,
            )
            &&& c.scopes().len() > 0 ==> {
                &&& final(c).scoped()
                &&& final(c).scopes() == c.scopes().drop_last()
                &&& final(c).rewound_to(*c, c.scopes().last())
            }
        },
{
    if let Some(context) = context {
        context.leave_temporary_scope();
    }
}

} // verus!
