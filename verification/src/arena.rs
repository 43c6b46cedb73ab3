//! Paged bump allocator for per-execution memory.
//!
//! Each [`PagedArena`] owns a sequence of zeroed pages that a [`PageBackend`]
//! supplies. Allocations bump a cursor within the last active page. Rewound
//! pages remain reserved and can be reused without moving their memory. Every
//! page keeps the address range it was given when it was reserved, so an
//! address stays valid until the region that holds it is rewound.
//!
//! Regular pages grow geometrically from the capacity of the first, which is
//! [`MIN_PAGE_SIZE`] unless the owner asks for more, through [`DEFAULT_PAGE_SIZE`]. Requests larger than [`DEFAULT_PAGE_SIZE`] get a
//! dedicated page whose capacity equals the request size.

use vstd::prelude::*;

use crate::memory::{bytes_at, extended, has_range, lacks_range, overwritten, zeroed};
use crate::memory_governor::{
    governor_admits, governor_denied, governor_granted, governor_released,
    governor_released_pages, GovernorReservation, MemoryGovernor, MemoryGovernorTelemetry,
};
use crate::sums::{
    exchanged, lemma_sum_exchanged, lemma_sum_pointwise, lemma_sum_push, lemma_sum_take_at_most,
    lemma_sum_take_step, lemma_sum_update, lemma_sum_zero_tail, sum,
};

verus! {

/// Default page capacity in bytes.
pub const DEFAULT_PAGE_SIZE: usize = 65536;

/// Initial page capacity. Small executions should not reserve a full default
/// page before their live payload proves that capacity useful.
pub const MIN_PAGE_SIZE: usize = 4096;

/// Maximum alignment supported by arena allocations.
pub const MAX_ALIGN: usize = 16;

/// First address of an arena that has its address space to itself.
pub const FIRST_ADDRESS: u64 = 16;

/// How many addresses one arena can hand out.
pub const ADDRESS_SPAN: u64 = 0x2000_0000_0000_0000;

/// The alignments an arena supports: the powers of two up to [`MAX_ALIGN`].
pub open spec fn valid_align(align: int) -> bool {
    align == 1 || align == 2 || align == 4 || align == 8 || align == 16
}

/// The least multiple of `align` that is at least `value`.
pub open spec fn round_up(value: int, align: int) -> int {
    value + align - 1 - (value + align - 1) % align
}

/// `round_up` gives a multiple of the alignment, less than one alignment away.
pub proof fn lemma_round_up(value: int, align: int)
    requires
        value >= 0,
        valid_align(align),
    ensures
        value <= round_up(value, align) < value + align,
        round_up(value, align) % align == 0,
{
}

/// Round `value` up to the nearest multiple of `align`. Returns `None` on
/// overflow.
pub fn align_up(value: usize, align: usize) -> (result: Option<usize>)
    requires
        align > 0,
    ensures
        result is Some <==> value + (align - 1) <= usize::MAX,
        result matches Some(rounded) ==> rounded == round_up(value as int, align as int),
{
    match value.checked_add(align - 1) {
        None => None,
        Some(sum) => Some(sum - sum % align),
    }
}

#[derive(Clone, Copy, Debug, PartialEq, Eq, Structural)]
pub enum ArenaAllocError {
    AddressSpace,
    Limit,
    SharedLimit { hard_limit_bytes: u64 },
    OutOfMemory,
}

/// The zeroed memory of one page, owned by whoever holds this value.
#[derive(Debug)]
pub struct PageBacking {
    bytes: Vec<u8>,
}

impl View for PageBacking {
    type V = Seq<u8>;

    closed spec fn view(&self) -> Seq<u8> {
        self.bytes@
    }
}

impl PageBacking {
    /// A backing that owns `bytes`.
    pub fn new(bytes: Vec<u8>) -> (backing: Self)
        ensures
            backing@ == bytes@,
    {
        PageBacking { bytes }
    }

    pub fn capacity(&self) -> (capacity: usize)
        ensures
            capacity == self@.len(),
    {
        self.bytes.len()
    }

    /// The memory itself.
    pub fn bytes(&self) -> (bytes: &[u8])
        ensures
            bytes@ == self@,
    {
        self.bytes.as_slice()
    }

    fn set(&mut self, offset: usize, byte: u8)
        requires
            offset < old(self)@.len(),
        ensures
            final(self)@ == old(self)@.update(offset as int, byte),
    {
        self.bytes[offset] = byte;
    }
}

/// Mechanism that supplies the zeroed memory of one arena page.
///
/// A successful allocation returns zeroed memory of exactly the requested
/// capacity.
pub trait PageBackend: Copy {
    fn allocate_zeroed(&self, capacity: usize, alignment: usize) -> (result: Result<
        PageBacking,
        ArenaAllocError,
    >)
        requires
            capacity > 0,
            valid_align(alignment as int),
        ensures
            result matches Ok(backing) ==> backing@ == zeroed(capacity as nat),
    ;

    /// Takes page memory back. Contracts cannot speak of what a backend does with it:
    /// a backend is only read here, and an arena keeps nothing of the page.
    fn release(&self, backing: PageBacking);
}

/// Whether `capacity` bytes rounded up to `alignment` exceed what one host
/// allocation can span.
pub open spec fn exceeds_host_layout(capacity: int, alignment: int) -> bool {
    capacity + (alignment - 1) > isize::MAX
}

/// Page memory from the virtual memory of a host that reserves it in pages of its
/// own.
#[derive(Clone, Copy, Debug)]
pub struct WindowsVirtualPageBackend;

impl WindowsVirtualPageBackend {
    /// How much a host with pages of `page_size` bytes reserves for a capacity: the
    /// least number of whole pages that holds it.
    pub fn allocation_size(capacity: usize, page_size: usize) -> (result: Result<
        usize,
        ArenaAllocError,
    >)
        requires
            page_size > 0,
        ensures
            match result {
                Ok(size) => {
                    &&& capacity <= size < capacity + page_size
                    &&& size % page_size == 0
                },
                Err(error) => {
                    &&& error == ArenaAllocError::AddressSpace
                    &&& capacity + (page_size - 1) > usize::MAX
                },
            },
    {
        match capacity.checked_add(page_size - 1) {
            None => Err(ArenaAllocError::AddressSpace),
            Some(value) => {
                let pages: usize = value / page_size;
                proof {
                    let (v, p) = (value as int, page_size as int);
                    assert(v == p * (v / p) + v % p && 0 <= v % p < p) by (nonlinear_arith)
                        requires
                            p > 0,
                    ;
                    assert(p * (v / p) == (v / p) * p) by (nonlinear_arith);
                    vstd::arithmetic::div_mod::lemma_mod_multiples_basic(v / p, p);
                }
                Ok(pages * page_size)
            },
        }
    }
}

/// Page memory from the global allocator.
#[derive(Clone, Copy, Debug)]
pub struct SystemAllocatorPageBackend;

impl PageBackend for SystemAllocatorPageBackend {
    /// Fails with `AddressSpace` exactly when the size cannot be laid out, and
    /// otherwise only when the host has no memory left.
    fn allocate_zeroed(&self, capacity: usize, alignment: usize) -> (result: Result<
        PageBacking,
        ArenaAllocError,
    >)
        ensures
            exceeds_host_layout(capacity as int, alignment as int) ==> result == Err::<
                PageBacking,
                ArenaAllocError,
            >(ArenaAllocError::AddressSpace),
            !exceeds_host_layout(capacity as int, alignment as int) ==> result is Ok || result
                == Err::<PageBacking, ArenaAllocError>(ArenaAllocError::OutOfMemory),
    {
        if capacity > isize::MAX as usize - (alignment - 1) {
            return Err(ArenaAllocError::AddressSpace);
        }
        let mut bytes: Vec<u8> = Vec::new();
        if bytes.try_reserve(capacity).is_err() {
            return Err(ArenaAllocError::OutOfMemory);
        }
        bytes.resize(capacity, 0u8);
        assert(bytes@ =~= zeroed(capacity as nat));
        Ok(PageBacking { bytes })
    }

    fn release(&self, backing: PageBacking) {
    }
}

/// The page backend used unless another is chosen.
pub fn default_page_backend() -> (backend: SystemAllocatorPageBackend) {
    SystemAllocatorPageBackend
}

/// Page memory together with the backend that supplied it, so that release
/// goes through the same backend.
pub struct BackendPageBacking<B: PageBackend> {
    backend: B,
    base: u64,
    backing: PageBacking,
}

impl<B: PageBackend> BackendPageBacking<B> {
    /// The memory.
    pub closed spec fn memory(&self) -> Seq<u8> {
        self.backing@
    }

    /// The first address of the memory.
    pub closed spec fn start(&self) -> u64 {
        self.base
    }

    /// The backend that supplied the memory, and gets it back.
    pub closed spec fn supplier(&self) -> B {
        self.backend
    }

    /// What becomes of the reply of a backend that was asked for memory: an error
    /// is handed on, and memory is owned from address `base` on.
    pub open spec fn follows_reply(
        result: Result<Self, ArenaAllocError>,
        backend: B,
        base: u64,
        reply: Result<PageBacking, ArenaAllocError>,
    ) -> bool {
        match reply {
            Err(error) => result == Err::<Self, ArenaAllocError>(error),
            Ok(backing) => {
                &&& result matches Ok(owner)
                &&& owner.memory() == backing@
                &&& owner.start() == base
                &&& owner.supplier() == backend
            },
        }
    }

    /// Takes up what `backend` replied when it was asked for memory.
    pub fn from_reply(
        backend: B,
        base: u64,
        reply: Result<PageBacking, ArenaAllocError>,
    ) -> (result: Result<Self, ArenaAllocError>)
        ensures
            Self::follows_reply(result, backend, base, reply),
    {
        match reply {
            Ok(backing) => Ok(BackendPageBacking { backend, base, backing }),
            Err(error) => Err(error),
        }
    }

    /// Obtains zeroed memory of `capacity` bytes that starts at address `base`. The
    /// backend is asked for exactly that, and its reply decides.
    pub fn allocate(backend: B, base: u64, capacity: usize, alignment: usize) -> (result: Result<
        Self,
        ArenaAllocError,
    >)
        requires
            capacity > 0,
            valid_align(alignment as int),
        ensures
            result matches Ok(owner) ==> owner.memory() == zeroed(capacity as nat) && owner.start()
                == base,
            exists|reply: Result<PageBacking, ArenaAllocError>|
                {
                    &&& #[trigger] call_ensures(
                        B::allocate_zeroed,
                        (&backend, capacity, alignment),
                        reply,
                    )
                    &&& Self::follows_reply(result, backend, base, reply)
                },
    {
        let reply: Result<PageBacking, ArenaAllocError> = backend.allocate_zeroed(
            capacity,
            alignment,
        );
        let ghost replied = reply;
        let result: Result<Self, ArenaAllocError> = Self::from_reply(backend, base, reply);
        assert(call_ensures(B::allocate_zeroed, (&backend, capacity, alignment), replied));
        result
    }

    pub fn base(&self) -> (base: u64)
        ensures
            base == self.start(),
    {
        self.base
    }

    pub fn capacity(&self) -> (capacity: usize)
        ensures
            capacity == self.memory().len(),
    {
        self.backing.capacity()
    }

    /// The memory itself.
    pub fn bytes(&self) -> (bytes: &[u8])
        ensures
            bytes@ == self.memory(),
    {
        self.backing.bytes()
    }

    fn set(&mut self, offset: usize, byte: u8)
        requires
            offset < old(self).memory().len(),
        ensures
            final(self).memory() == old(self).memory().update(offset as int, byte),
            final(self).start() == old(self).start(),
    {
        self.backing.set(offset, byte);
    }

    /// Hands the memory back to the backend that supplied it.
    pub fn release(self) {
        self.backend.release(self.backing);
    }
}

/// One contiguous page of memory. Everything from the cursor on is zero.
pub struct Page<B: PageBackend> {
    backing: BackendPageBacking<B>,
    cursor: usize,
    reservation: Option<GovernorReservation>,
}

impl<B: PageBackend> Page<B> {
    #[verifier::inline]
    spec fn memory(&self) -> Seq<u8> {
        self.backing.memory()
    }

    #[verifier::inline]
    spec fn start(&self) -> int {
        self.backing.start() as int
    }

    #[verifier::inline]
    spec fn cap(&self) -> int {
        self.backing.memory().len() as int
    }

    /// Capacity that a governor granted for this page.
    spec fn grant(&self) -> int {
        match self.reservation {
            Some(reservation) => reservation.granted() as int,
            None => 0,
        }
    }

    /// Whether a governor granted the whole page.
    spec fn granted(&self) -> bool {
        self.reservation matches Some(reservation) && reservation.granted() == self.cap()
    }

    spec fn wf(&self) -> bool {
        &&& 0 < self.cap() <= usize::MAX
        &&& self.cursor <= self.cap()
        &&& self.start() % 16 == 0
        &&& forall|i: int| self.cursor <= i < self.cap() ==> #[trigger] self.memory()[i] == 0
    }

    /// A page that starts at address `base` in zeroed memory from `backend`.
    fn with_backing(
        backend: B,
        base: u64,
        backing: PageBacking,
        reservation: Option<GovernorReservation>,
    ) -> (page: Self)
        requires
            0 < backing@.len() <= usize::MAX,
            backing@ == zeroed(backing@.len()),
            base % 16 == 0,
        ensures
            page.wf(),
            page.cap() == backing@.len(),
            page.start() == base,
            page.cursor == 0,
            page.reservation == reservation,
    {
        Page { backing: BackendPageBacking { backend, base, backing }, cursor: 0, reservation }
    }

    fn capacity(&self) -> (capacity: usize)
        ensures
            capacity == self.cap(),
    {
        self.backing.capacity()
    }

    /// Try to place `size` bytes at the given alignment inside this page.
    /// Returns the offset and the number of bytes consumed (including padding)
    /// on success.
    fn try_alloc(&mut self, size: usize, align: usize) -> (result: Option<(usize, usize)>)
        requires
            old(self).wf(),
            size > 0,
            valid_align(align as int),
        ensures
            final(self).wf(),
            final(self).backing == old(self).backing,
            final(self).reservation == old(self).reservation,
            result is Some <==> round_up(old(self).cursor as int, align as int) + size <= old(
                self,
            ).cap(),
            result is None ==> final(self).cursor == old(self).cursor,
            result matches Some(placed) ==> {
                &&& placed.0 == round_up(old(self).cursor as int, align as int)
                &&& final(self).cursor == placed.0 + size
                &&& placed.1 == final(self).cursor - old(self).cursor
            },
    {
        proof {
            lemma_round_up(self.cursor as int, align as int);
        }
        let aligned: usize = match align_up(self.cursor, align) {
            None => {
                return None;
            },
            Some(aligned) => aligned,
        };
        let end: usize = match aligned.checked_add(size) {
            None => {
                return None;
            },
            Some(end) => end,
        };
        if end > self.capacity() {
            return None;
        }
        let consumed: usize = end - self.cursor;
        self.cursor = end;
        Some((aligned, consumed))
    }

    /// Moves the cursor back and zeroes everything it passes.
    fn rewind_to(&mut self, cursor: usize)
        requires
            old(self).wf(),
            cursor <= old(self).cursor,
        ensures
            final(self).wf(),
            final(self).cursor == cursor,
            final(self).cap() == old(self).cap(),
            final(self).start() == old(self).start(),
            final(self).reservation == old(self).reservation,
            forall|i: int|
                0 <= i < cursor ==> #[trigger] final(self).memory()[i] == old(self).memory()[i],
    {
        let end: usize = self.cursor;
        let mut at: usize = cursor;
        while at < end
            invariant
                cursor <= at <= end,
                end == old(self).cursor,
                end <= self.cap(),
                old(self).wf(),
                self.cursor == old(self).cursor,
                self.cap() == old(self).cap(),
                self.start() == old(self).start(),
                self.reservation == old(self).reservation,
                forall|i: int|
                    0 <= i < cursor || at <= i < self.cap() ==> #[trigger] self.memory()[i] == old(
                        self,
                    ).memory()[i],
                forall|i: int| cursor <= i < at ==> #[trigger] self.memory()[i] == 0,
            decreases end - at,
        {
            self.backing.set(at, 0u8);
            at = at + 1;
        }
        self.cursor = cursor;
    }
}


/// Whether page `p` holds the byte at address `a`.
spec fn holds<B: PageBackend>(pages: Seq<Page<B>>, p: int, a: int) -> bool {
    0 <= p < pages.len() && pages[p].start() <= a < pages[p].start() + pages[p].cursor
}

/// Pages in order of address, with room between one page and the next, so that
/// no run of allocated addresses reaches from one page into another.
spec fn apart<B: PageBackend>(pages: Seq<Page<B>>) -> bool {
    forall|p: int, q: int|
        #![trigger pages[p], pages[q]]
        0 <= p < q < pages.len() ==> pages[p].start() + pages[p].cap() + 16 <= pages[q].start()
}

/// The page that holds address `a`.
spec fn page_of<B: PageBackend>(pages: Seq<Page<B>>, a: int) -> int {
    choose|p: int| holds(pages, p, a)
}

/// The memory that a sequence of pages holds.
spec fn mem_of<B: PageBackend>(pages: Seq<Page<B>>) -> Map<int, u8> {
    Map::new(
        |a: int| exists|p: int| holds(pages, p, a),
        |a: int| pages[page_of(pages, a)].memory()[a - pages[page_of(pages, a)].start()],
    )
}

proof fn lemma_mem_at<B: PageBackend>(pages: Seq<Page<B>>, p: int, a: int)
    requires
        apart(pages),
        forall|q: int| 0 <= q < pages.len() ==> #[trigger] pages[q].wf(),
        holds(pages, p, a),
    ensures
        page_of(pages, a) == p,
        mem_of(pages).contains_key(a),
        mem_of(pages)[a] == pages[p].memory()[a - pages[p].start()],
{
    let q = page_of(pages, a);
    assert(holds(pages, q, a));
    assert(pages[p].wf() && pages[q].wf());
    if q < p {
        assert(pages[q].start() + pages[q].cap() + 16 <= pages[p].start());
    }
    if p < q {
        assert(pages[p].start() + pages[p].cap() + 16 <= pages[q].start());
    }
}

/// Raising one cursor over zero bytes extends the memory by those bytes.
proof fn lemma_mem_bump<B: PageBackend>(before: Seq<Page<B>>, after: Seq<Page<B>>, p: int)
    requires
        apart(before),
        forall|q: int| 0 <= q < before.len() ==> #[trigger] before[q].wf(),
        0 <= p < before.len(),
        after.len() == before.len(),
        forall|q: int| 0 <= q < before.len() && q != p ==> #[trigger] after[q] == before[q],
        after[p].wf(),
        after[p].backing == before[p].backing,
        after[p].cursor >= before[p].cursor,
    ensures
        apart(after),
        lacks_range(
            mem_of(before),
            before[p].start() + before[p].cursor,
            after[p].cursor - before[p].cursor,
        ),
        mem_of(after) == extended(
            mem_of(before),
            before[p].start() + before[p].cursor,
            after[p].cursor - before[p].cursor,
        ),
{
    let from = before[p].start() + before[p].cursor;
    let count = after[p].cursor - before[p].cursor;
    assert forall|q: int| 0 <= q < after.len() implies #[trigger] after[q].wf()
        && after[q].start() == before[q].start() && after[q].cap() == before[q].cap() by {
        assert(before[q].wf());
    }
    assert(apart(after)) by {
        assert forall|i: int, j: int|
            #![trigger after[i], after[j]]
            0 <= i < j < after.len() implies after[i].start() + after[i].cap() + 16
            <= after[j].start() by {
            assert(before[i].start() + before[i].cap() + 16 <= before[j].start());
        }
    }
    assert forall|a: int| from <= a < from + count implies !#[trigger] mem_of(
        before,
    ).contains_key(a) && holds(after, p, a) by {
        if mem_of(before).contains_key(a) {
            let q = page_of(before, a);
            assert(holds(before, q, a));
            assert(before[q].wf() && before[p].wf());
            if q < p {
                assert(before[q].start() + before[q].cap() + 16 <= before[p].start());
            }
            if p < q {
                assert(before[p].start() + before[p].cap() + 16 <= before[q].start());
            }
        }
    }
    let target = extended(mem_of(before), from, count);
    assert forall|a: int| #[trigger] mem_of(after).contains_key(a) <==> target.contains_key(a) by {
        if mem_of(after).contains_key(a) {
            let q = page_of(after, a);
            assert(holds(after, q, a));
            if q != p || a < from {
                assert(holds(before, q, a));
            }
        }
        if target.contains_key(a) {
            if mem_of(before).contains_key(a) {
                let q = page_of(before, a);
                assert(holds(before, q, a));
                assert(holds(after, q, a));
            } else {
                assert(holds(after, p, a));
            }
        }
    }
    assert forall|a: int| #[trigger] mem_of(after).contains_key(a) implies mem_of(after)[a]
        == target[a] by {
        let q = page_of(after, a);
        assert(holds(after, q, a));
        lemma_mem_at(after, q, a);
        if q == p && a >= from {
            assert(before[p].wf());
            assert(before[p].memory()[a - before[p].start()] == 0);
        } else {
            assert(holds(before, q, a));
            lemma_mem_at(before, q, a);
            assert(!(from <= a < from + count)) by {
                if from <= a < from + count {
                    assert(!mem_of(before).contains_key(a));
                }
            }
        }
    }
    assert(mem_of(after) =~= target);
}

/// Appending a page whose cursor is at its start changes no memory.
proof fn lemma_mem_push<B: PageBackend>(before: Seq<Page<B>>, page: Page<B>)
    requires
        apart(before),
        forall|q: int| 0 <= q < before.len() ==> #[trigger] before[q].wf(),
        forall|q: int|
            0 <= q < before.len() ==> #[trigger] before[q].start() + before[q].cap() + 16
                <= page.start(),
        page.wf(),
        page.cursor == 0,
    ensures
        apart(before.push(page)),
        mem_of(before.push(page)) == mem_of(before),
{
    let after = before.push(page);
    assert(apart(after)) by {
        assert forall|i: int, j: int|
            #![trigger after[i], after[j]]
            0 <= i < j < after.len() implies after[i].start() + after[i].cap() + 16
            <= after[j].start() by {
            if j < before.len() {
                assert(before[i].start() + before[i].cap() + 16 <= before[j].start());
            } else {
                assert(before[i].start() + before[i].cap() + 16 <= page.start());
            }
        }
    }
    assert forall|q: int| 0 <= q < after.len() implies #[trigger] after[q].wf() by {
        if q < before.len() {
            assert(before[q].wf());
        }
    }
    assert forall|a: int| #[trigger] mem_of(after).contains_key(a) <==> mem_of(
        before,
    ).contains_key(a) by {
        if mem_of(after).contains_key(a) {
            let q = page_of(after, a);
            assert(holds(after, q, a));
            assert(holds(before, q, a));
        }
        if mem_of(before).contains_key(a) {
            let q = page_of(before, a);
            assert(holds(before, q, a));
            assert(holds(after, q, a));
        }
    }
    assert forall|a: int| #[trigger] mem_of(after).contains_key(a) implies mem_of(after)[a]
        == mem_of(before)[a] by {
        let q = page_of(after, a);
        assert(holds(after, q, a));
        assert(holds(before, q, a));
        lemma_mem_at(after, q, a);
        lemma_mem_at(before, q, a);
    }
    assert(mem_of(after) =~= mem_of(before));
}


/// Current allocation statistics from the arena.
#[derive(Clone, Copy, Debug, PartialEq, Eq, Structural)]
pub struct ArenaMetrics {
    /// Total bytes consumed inside pages, including alignment padding.
    pub used_bytes: usize,
    /// Total capacity of all pages held by the arena.
    pub reserved_bytes: usize,
}

#[derive(Clone, Copy, Debug, PartialEq, Eq, Structural)]
pub struct ArenaEventMetrics {
    pub active_page_fast_path_allocations: u64,
    pub slow_path_allocations: u64,
    pub inactive_page_reuse_events: u64,
    pub fresh_regular_page_allocations: u64,
    pub fresh_oversized_page_allocations: u64,
    pub rewind_events: u64,
    pub rewound_bytes: u64,
    pub allocation_limit_denials: u64,
}

#[derive(Clone, Copy, Debug, PartialEq, Eq, Structural)]
pub struct ArenaRewindMetrics {
    pub used_bytes_before: usize,
    pub used_bytes_after: usize,
    pub capacity_bytes_before: usize,
    pub capacity_bytes_after: usize,
    pub active_page_capacity_bytes_after: usize,
    pub inactive_page_capacity_bytes_after: usize,
}

#[derive(Clone, Copy, Debug, PartialEq, Eq)]
pub struct ArenaTelemetrySnapshot {
    pub used_bytes: usize,
    pub capacity_bytes: usize,
    pub active_page_capacity_bytes: usize,
    pub inactive_page_capacity_bytes: usize,
    pub page_count: usize,
    pub active_page_count: usize,
    pub inactive_page_count: usize,
    pub peak_used_bytes: usize,
    pub peak_capacity_bytes: usize,
    pub events: ArenaEventMetrics,
    pub last_rewind: Option<ArenaRewindMetrics>,
}

/// What an arena remembers about its own history.
#[derive(Clone, Copy, Debug, PartialEq, Eq)]
pub struct ArenaTelemetryState {
    pub active_page_capacity_bytes: usize,
    pub peak_used_bytes: usize,
    pub peak_capacity_bytes: usize,
    pub events: ArenaEventMetrics,
    pub last_rewind: Option<ArenaRewindMetrics>,
}

/// The history of a new arena.
pub open spec fn telemetry_start() -> ArenaTelemetryState {
    ArenaTelemetryState {
        active_page_capacity_bytes: 0,
        peak_used_bytes: 0,
        peak_capacity_bytes: 0,
        events: ArenaEventMetrics {
            active_page_fast_path_allocations: 0,
            slow_path_allocations: 0,
            inactive_page_reuse_events: 0,
            fresh_regular_page_allocations: 0,
            fresh_oversized_page_allocations: 0,
            rewind_events: 0,
            rewound_bytes: 0,
            allocation_limit_denials: 0,
        },
        last_rewind: None,
    }
}

/// One more allocation that the active page could not serve.
pub open spec fn noted_slow(t: ArenaTelemetryState) -> ArenaTelemetryState {
    ArenaTelemetryState {
        events: ArenaEventMetrics {
            slow_path_allocations: t.events.slow_path_allocations.wrapping_add(1),
            ..t.events
        },
        ..t
    }
}

/// The greater of two integers.
pub open spec fn greater(a: int, b: int) -> int {
    if a >= b {
        a
    } else {
        b
    }
}

/// Peaks raised to the current use.
pub open spec fn noted_use(t: ArenaTelemetryState, used: int, reserved: int) -> ArenaTelemetryState {
    ArenaTelemetryState {
        peak_used_bytes: greater(t.peak_used_bytes as int, used) as usize,
        peak_capacity_bytes: greater(t.peak_capacity_bytes as int, reserved) as usize,
        ..t
    }
}

/// One more allocation served by the active page.
pub open spec fn noted_fast(t: ArenaTelemetryState) -> ArenaTelemetryState {
    ArenaTelemetryState {
        events: ArenaEventMetrics {
            active_page_fast_path_allocations: t.events.active_page_fast_path_allocations.wrapping_add(
                1,
            ),
            ..t.events
        },
        ..t
    }
}

/// One more page of `capacity` bytes put to use again.
pub open spec fn noted_reuse(t: ArenaTelemetryState, capacity: int) -> ArenaTelemetryState {
    ArenaTelemetryState {
        active_page_capacity_bytes: (t.active_page_capacity_bytes + capacity) as usize,
        events: ArenaEventMetrics {
            inactive_page_reuse_events: t.events.inactive_page_reuse_events.wrapping_add(1),
            ..t.events
        },
        ..t
    }
}

/// One more page of `capacity` bytes reserved for a request of `size` bytes.
pub open spec fn noted_fresh(t: ArenaTelemetryState, capacity: int, size: int) -> ArenaTelemetryState {
    ArenaTelemetryState {
        active_page_capacity_bytes: (t.active_page_capacity_bytes + capacity) as usize,
        events: if size > DEFAULT_PAGE_SIZE {
            ArenaEventMetrics {
                fresh_oversized_page_allocations: t.events.fresh_oversized_page_allocations.wrapping_add(
                    1,
                ),
                ..t.events
            }
        } else {
            ArenaEventMetrics {
                fresh_regular_page_allocations: t.events.fresh_regular_page_allocations.wrapping_add(
                    1,
                ),
                ..t.events
            }
        },
        ..t
    }
}

/// One more request denied by the budget.
pub open spec fn noted_denial(t: ArenaTelemetryState) -> ArenaTelemetryState {
    ArenaTelemetryState {
        events: ArenaEventMetrics {
            allocation_limit_denials: t.events.allocation_limit_denials.wrapping_add(1),
            ..t.events
        },
        ..t
    }
}

/// The addresses that a page takes up: its capacity up to a multiple of the maximum
/// alignment, and as many behind it that stay free.
pub open spec fn footprint(capacity: int) -> int {
    round_up(capacity, 16) + 16
}

/// The addresses that each of some pages takes up.
pub open spec fn footprints(caps: Seq<int>) -> Seq<int> {
    Seq::new(caps.len(), |i: int| footprint(caps[i]))
}

/// A page more takes up its own addresses.
proof fn lemma_footprints_push(caps: Seq<int>, capacity: int)
    ensures
        sum(footprints(caps.push(capacity))) == sum(footprints(caps)) + footprint(capacity),
{
    assert(footprints(caps.push(capacity)) =~= footprints(caps).push(footprint(capacity)));
    lemma_sum_push(footprints(caps), footprint(capacity));
}

/// In which order pages are used does not matter for the addresses they take up.
proof fn lemma_footprints_exchanged(caps: Seq<int>, i: int, j: int)
    requires
        0 <= i < caps.len(),
        0 <= j < caps.len(),
    ensures
        sum(footprints(exchanged(caps, i, j))) == sum(footprints(caps)),
{
    assert(footprints(exchanged(caps, i, j)) =~= exchanged(footprints(caps), i, j));
    lemma_sum_exchanged(footprints(caps), i, j);
}

/// A page takes up at most 31 addresses besides its capacity.
proof fn lemma_footprints_bounded(caps: Seq<int>)
    requires
        forall|i: int| 0 <= i < caps.len() ==> #[trigger] caps[i] > 0,
    ensures
        0 <= sum(caps),
        caps.len() <= sum(caps),
        0 <= sum(footprints(caps)) <= sum(caps) + 31 * caps.len(),
    decreases caps.len(),
{
    if caps.len() > 0 {
        let rest = caps.drop_last();
        assert forall|i: int| 0 <= i < rest.len() implies #[trigger] rest[i] > 0 by {
            assert(caps[i] > 0);
        }
        lemma_footprints_bounded(rest);
        assert(caps =~= rest.push(caps.last()));
        lemma_footprints_push(rest, caps.last());
        lemma_sum_push(rest, caps.last());
        assert(caps[caps.len() - 1] > 0);
        lemma_round_up(caps.last(), 16);
    }
}

/// How an arena's pages are used: the capacity and the cursor of every page, in
/// the order in which pages become active, how many of them are active, and the
/// capacity that the first regular page gets.
#[verifier::ext_equal]
pub struct ArenaShape {
    pub caps: Seq<int>,
    pub cursors: Seq<int>,
    pub active: int,
    pub first: int,
}

impl ArenaShape {
    /// Total bytes consumed inside pages, including alignment padding.
    pub open spec fn used(self) -> int {
        sum(self.cursors)
    }

    /// Total capacity of all pages.
    pub open spec fn reserved(self) -> int {
        sum(self.caps)
    }

    /// The addresses that the pages take up.
    pub open spec fn taken(self) -> int {
        sum(footprints(self.caps))
    }

    /// Total capacity of the active pages.
    pub open spec fn active_capacity(self) -> int {
        sum(self.caps.take(self.active))
    }

    /// Where an allocation in the last active page would start.
    pub open spec fn next_offset(self, align: int) -> int {
        round_up(self.cursors[self.active - 1], align)
    }

    /// Whether the last active page can serve the request.
    pub open spec fn fits(self, size: int, align: int) -> bool {
        self.active > 0 && self.next_offset(align) + size <= self.caps[self.active - 1]
    }

    /// The last active page serves the request.
    pub open spec fn bumped(self, size: int, align: int) -> ArenaShape {
        ArenaShape {
            cursors: self.cursors.update(self.active - 1, self.next_offset(align) + size),
            ..self
        }
    }

    /// Whether `j` is the inactive page to reuse for `size` bytes: the first of
    /// the smallest among those that are large enough.
    pub open spec fn best_fit(self, size: int, j: int) -> bool {
        &&& self.active <= j < self.caps.len()
        &&& self.caps[j] >= size
        &&& forall|k: int|
            self.active <= k < self.caps.len() && #[trigger] self.caps[k] >= size
                ==> self.caps[j] < self.caps[k] || (self.caps[j] == self.caps[k] && j <= k)
    }

    /// Whether some inactive page is large enough for `size` bytes.
    pub open spec fn can_reuse(self, size: int) -> bool {
        exists|k: int| self.active <= k < self.caps.len() && #[trigger] self.caps[k] >= size
    }

    /// Inactive page `j` becomes active and serves the request.
    pub open spec fn reused(self, j: int, size: int) -> ArenaShape {
        ArenaShape {
            caps: exchanged(self.caps, self.active, j),
            cursors: self.cursors.update(self.active, size),
            active: self.active + 1,
            first: self.first,
        }
    }

    /// The capacity of the next page for a request of `size` bytes.
    pub open spec fn fresh_capacity(self, size: int) -> int {
        greater(size, regular_capacity(self.caps.take(self.active), self.first))
    }

    /// A new page of `capacity` bytes becomes active and serves the request.
    pub open spec fn grown(self, capacity: int, size: int) -> ArenaShape {
        ArenaShape {
            caps: exchanged(self.caps.push(capacity), self.active, self.caps.len() as int),
            cursors: self.cursors.push(0).update(self.active, size),
            active: self.active + 1,
            first: self.first,
        }
    }

    /// The arena after a request was served: by the last active page when it can;
    /// otherwise by the smallest sufficient inactive page; otherwise by a new one.
    pub open spec fn served(self, size: int, align: int) -> ArenaShape {
        if self.fits(size, align) {
            self.bumped(size, align)
        } else if self.can_reuse(size) {
            self.reused(choose|j: int| self.best_fit(size, j), size)
        } else {
            self.grown(self.fresh_capacity(size), size)
        }
    }

    /// The bytes that a request passes over so that it is aligned.
    pub open spec fn padding(self, size: int, align: int) -> int {
        if self.fits(size, align) {
            self.next_offset(align) - self.cursors[self.active - 1]
        } else {
            0
        }
    }

    /// The capacity that has to be reserved to serve a request.
    pub open spec fn growth(self, size: int, align: int) -> int {
        if self.fits(size, align) || self.can_reuse(size) {
            0
        } else {
            self.fresh_capacity(size)
        }
    }

    /// Only the first `active` pages stay active, the last of them up to `cursor`.
    pub open spec fn rewound(self, active: int, cursor: int) -> ArenaShape {
        ArenaShape {
            caps: self.caps,
            cursors: Seq::new(
                self.cursors.len(),
                |i: int|
                    if i < active - 1 {
                        self.cursors[i]
                    } else if i == active - 1 {
                        cursor
                    } else {
                        0
                    },
            ),
            active,
            first: self.first,
        }
    }
}

/// The largest capacity up to the default among `caps`, or zero without one.
pub open spec fn largest_regular(caps: Seq<int>) -> int
    decreases caps.len(),
{
    if caps.len() == 0 {
        0
    } else if caps.last() <= DEFAULT_PAGE_SIZE {
        greater(largest_regular(caps.drop_last()), caps.last())
    } else {
        largest_regular(caps.drop_last())
    }
}

/// The capacity of the next regular page: `first` for the first, then twice the
/// largest regular one so far, up to the default. Dedicated oversized pages do not
/// influence it.
pub open spec fn regular_capacity(caps: Seq<int>, first: int) -> int {
    let largest = largest_regular(caps);
    if largest == 0 {
        first
    } else if 2 * largest <= DEFAULT_PAGE_SIZE {
        2 * largest
    } else {
        DEFAULT_PAGE_SIZE as int
    }
}

/// A checkpoint of one arena. Rewinding consumes it.
#[must_use]
pub struct ArenaMark {
    arena_id: u64,
    mark_id: u64,
    active_pages: usize,
    cursor: usize,
    used_bytes: usize,
    active_page_capacity_bytes: usize,
    domain: Ghost<Set<int>>,
}

impl ArenaMark {
    /// The arena that the mark belongs to.
    pub closed spec fn arena(&self) -> u64 {
        self.arena_id
    }

    /// The number of the mark within its arena.
    pub closed spec fn number(&self) -> u64 {
        self.mark_id
    }

    /// The addresses that were allocated when the mark was taken.
    pub closed spec fn allocated(&self) -> Set<int> {
        self.domain@
    }

    /// The bytes that were in use when the mark was taken.
    pub closed spec fn used(&self) -> int {
        self.used_bytes as int
    }

    /// The number of pages that were active when the mark was taken.
    pub closed spec fn active(&self) -> int {
        self.active_pages as int
    }

    /// The cursor of the last active page when the mark was taken.
    pub closed spec fn at(&self) -> int {
        self.cursor as int
    }
}

/// Paged bump allocator. Owns all its pages.
pub struct PagedArena<B: PageBackend> {
    /// In the order in which they were reserved, which is the order of their
    /// addresses.
    pages: Vec<Page<B>>,
    /// Indices into `pages`: first the active pages, then the inactive ones.
    order: Vec<usize>,
    backend: B,
    governor: Option<MemoryGovernor>,
    active_pages: usize,
    used_bytes: usize,
    reserved_bytes: usize,
    first_capacity: usize,
    origin: u64,
    next_base: u64,
    arena_id: u64,
    next_mark_id: u64,
    mark_stack: Vec<u64>,
    marked: Ghost<Seq<ArenaMark>>,
    telemetry: ArenaTelemetryState,
}

/// Whether `p` occurs in `order`.
spec fn occurs(order: Seq<usize>, p: int) -> bool {
    exists|i: int| 0 <= i < order.len() && #[trigger] order[i] == p
}

/// What a governor granted for each page.
spec fn grants_of<B: PageBackend>(pages: Seq<Page<B>>) -> Seq<int> {
    Seq::new(pages.len(), |p: int| pages[p].grant())
}

impl<B: PageBackend> PagedArena<B> {
    /// The identity of the arena.
    pub closed spec fn id(&self) -> u64 {
        self.arena_id
    }

    /// The memory that is allocated.
    pub closed spec fn mem(&self) -> Map<int, u8> {
        mem_of(self.pages@)
    }

    /// The first address that the arena can hand out.
    pub closed spec fn first_address(&self) -> int {
        self.origin as int
    }

    /// How the pages are used.
    pub closed spec fn shape(&self) -> ArenaShape {
        ArenaShape {
            caps: Seq::new(self.order@.len(), |i: int| self.page(i).cap()),
            cursors: Seq::new(self.order@.len(), |i: int| self.page(i).cursor as int),
            active: self.active_pages as int,
            first: self.first_capacity as int,
        }
    }

    /// What the arena remembers about its history.
    pub closed spec fn history(&self) -> ArenaTelemetryState {
        self.telemetry
    }

    /// The marks that were taken and not rewound, oldest first.
    pub closed spec fn marks(&self) -> Seq<ArenaMark> {
        self.marked@
    }

    /// The number of the next mark.
    pub closed spec fn next_mark(&self) -> u64 {
        self.next_mark_id
    }

    /// The accounting of the governor that admits this arena's pages.
    pub closed spec fn governed(&self) -> Option<MemoryGovernorTelemetry> {
        match self.governor {
            Some(governor) => Some(governor@),
            None => None,
        }
    }

    /// The addresses that no page has taken yet.
    pub open spec fn room(&self) -> int {
        ADDRESS_SPAN - self.shape().taken()
    }

    /// Whether a page of `capacity` bytes can get addresses of its own.
    pub open spec fn has_room(&self, capacity: int) -> bool {
        capacity + 32 <= self.room()
    }

    /// The backend that supplies the pages.
    pub closed spec fn supplier(&self) -> B {
        self.backend
    }

    /// Whether a request for a page of `capacity` bytes may end in this error: the
    /// host has no memory to list one more page, the governor does not admit it, or
    /// the page cannot be had.
    pub open spec fn may_refuse(&self, capacity: int, error: ArenaAllocError) -> bool {
        ||| error == ArenaAllocError::OutOfMemory
        ||| self.governed() matches Some(state) && !governor_admits(state, capacity) && error == (
        ArenaAllocError::SharedLimit { hard_limit_bytes: state.hard_limit_bytes })
        ||| self.may_lack(capacity, error)
    }

    /// Whether a page of `capacity` bytes may not be had for this reason: the
    /// addresses are used up, or the backend says so.
    pub open spec fn may_lack(&self, capacity: int, error: ArenaAllocError) -> bool {
        ||| error == ArenaAllocError::AddressSpace && !self.has_room(capacity)
        ||| call_ensures(
            B::allocate_zeroed,
            (&self.supplier(), capacity as usize, MAX_ALIGN),
            Err::<PageBacking, ArenaAllocError>(error),
        )
    }

    /// The page at position `i` of the activation order.
    #[verifier::inline]
    spec fn page(&self, i: int) -> Page<B> {
        self.pages@[self.order@[i] as int]
    }

    /// The addresses allocated in the first `active` pages, the last of them up
    /// to `cursor`.
    spec fn reach(&self, active: int, cursor: int) -> Set<int> {
        Set::new(
            |a: int|
                exists|i: int|
                    #![trigger self.order@[i]]
                    0 <= i < active && self.page(i).start() <= a < self.page(i).start() + (if i
                        == active - 1 {
                        cursor
                    } else {
                        self.page(i).cursor as int
                    }),
        )
    }

    spec fn order_wf(&self) -> bool {
        &&& self.order@.len() == self.pages@.len()
        &&& forall|i: int| 0 <= i < self.order@.len() ==> #[trigger] self.order@[i] < self.pages@.len()
        &&& forall|i: int, j: int|
            0 <= i < j < self.order@.len() ==> #[trigger] self.order@[i] != #[trigger] self.order@[j]
        &&& forall|p: int| 0 <= p < self.pages@.len() ==> #[trigger] occurs(self.order@, p)
        &&& self.active_pages <= self.order@.len()
    }

    spec fn pages_wf(&self) -> bool {
        &&& apart(self.pages@)
        &&& forall|p: int| 0 <= p < self.pages@.len() ==> #[trigger] self.pages@[p].wf()
        &&& forall|p: int|
            0 <= p < self.pages@.len() ==> self.origin <= #[trigger] self.pages@[p].start()
                && self.pages@[p].start() + self.pages@[p].cap() + 16 <= self.next_base
        &&& forall|i: int|
            self.active_pages <= i < self.order@.len() ==> self.pages@[#[trigger] self.order@[i] as int].cursor == 0
        &&& 0 < self.first_capacity <= DEFAULT_PAGE_SIZE
        &&& self.origin % 16 == 0
        &&& 16 <= self.origin <= 0x4000_0000_0000_0000
        &&& self.next_base % 16 == 0
        &&& self.origin <= self.next_base <= self.origin + ADDRESS_SPAN
        &&& self.next_base == self.origin + self.shape().taken()
    }

    spec fn counts_wf(&self) -> bool {
        &&& self.used_bytes == self.shape().used()
        &&& self.reserved_bytes == self.shape().reserved()
        &&& self.telemetry.active_page_capacity_bytes == self.shape().active_capacity()
        &&& self.telemetry.peak_used_bytes >= self.used_bytes
        &&& self.telemetry.peak_capacity_bytes >= self.reserved_bytes
    }

    /// What a mark recorded still agrees with the pages.
    spec fn mark_wf(&self, mark: ArenaMark) -> bool {
        &&& mark.arena_id == self.arena_id
        &&& mark.mark_id < self.next_mark_id
        &&& mark.active_pages <= self.active_pages
        &&& mark.active_pages == 0 ==> mark.cursor == 0 && mark.used_bytes == 0
        &&& mark.active_pages > 0 ==> {
            &&& mark.cursor <= self.shape().cursors[mark.active_pages - 1]
            &&& mark.used_bytes == sum(self.shape().cursors.take(mark.active_pages - 1)) + mark.cursor
        }
        &&& mark.active_page_capacity_bytes == sum(self.shape().caps.take(mark.active_pages as int))
        &&& mark.domain@ == self.reach(mark.active_pages as int, mark.cursor as int)
    }

    spec fn marks_wf(&self) -> bool {
        &&& self.mark_stack@.len() == self.marked@.len()
        &&& forall|i: int|
            0 <= i < self.marked@.len() ==> #[trigger] self.mark_stack@[i] == self.marked@[i].mark_id
        &&& forall|i: int| 0 <= i < self.marked@.len() ==> self.mark_wf(#[trigger] self.marked@[i])
        &&& forall|i: int, j: int|
            0 <= i < j < self.marked@.len() ==> {
                let a = #[trigger] self.marked@[i];
                let b = #[trigger] self.marked@[j];
                &&& a.mark_id < b.mark_id
                &&& a.active_pages < b.active_pages || (a.active_pages == b.active_pages && a.cursor
                    <= b.cursor)
            }
    }

    spec fn governor_wf(&self) -> bool {
        self.governor matches Some(governor) ==> {
            &&& governor.wf()
            &&& self.reserved_bytes == sum(grants_of(self.pages@))
            &&& self.reserved_bytes <= governor@.current_capacity_bytes
            &&& forall|p: int| 0 <= p < self.pages@.len() ==> (#[trigger] self.pages@[p]).granted()
        }
    }

    /// The invariant that every operation keeps.
    pub closed spec fn wf(&self) -> bool {
        &&& self.order_wf()
        &&& self.pages_wf()
        &&& self.counts_wf()
        &&& self.marks_wf()
        &&& self.governor_wf()
    }

    fn with_parts(
        backend: B,
        governor: Option<MemoryGovernor>,
        arena_id: u64,
        origin: u64,
        first_capacity: usize,
    ) -> (arena: Self)
        requires
            0 < first_capacity <= DEFAULT_PAGE_SIZE,
            origin % 16 == 0,
            16 <= origin <= 0x4000_0000_0000_0000,
            governor matches Some(governor) ==> governor.wf(),
        ensures
            arena.is_new(arena_id, origin as int, first_capacity as int),
            arena.supplier() == backend,
            arena.governed() == match governor {
                Some(governor) => Some(governor@),
                None => None,
            },
    {
        let telemetry = ArenaTelemetryState {
            active_page_capacity_bytes: 0,
            peak_used_bytes: 0,
            peak_capacity_bytes: 0,
            events: ArenaEventMetrics {
                active_page_fast_path_allocations: 0,
                slow_path_allocations: 0,
                inactive_page_reuse_events: 0,
                fresh_regular_page_allocations: 0,
                fresh_oversized_page_allocations: 0,
                rewind_events: 0,
                rewound_bytes: 0,
                allocation_limit_denials: 0,
            },
            last_rewind: None,
        };
        let arena = PagedArena {
            pages: Vec::new(),
            order: Vec::new(),
            backend,
            governor,
            active_pages: 0,
            used_bytes: 0,
            reserved_bytes: 0,
            first_capacity,
            origin,
            next_base: origin,
            arena_id,
            next_mark_id: 1,
            mark_stack: Vec::new(),
            marked: Ghost(Seq::empty()),
            telemetry,
        };
        proof {
            assert(arena.shape() =~= ArenaShape {
                caps: Seq::empty(),
                cursors: Seq::empty(),
                active: 0,
                first: first_capacity as int,
            });
            assert(arena.shape().caps.take(0) =~= Seq::<int>::empty());
            assert(footprints(arena.shape().caps) =~= Seq::<int>::empty());
            assert(arena.mem() =~= Map::<int, u8>::empty());
            assert(grants_of(arena.pages@) =~= Seq::<int>::empty());
        }
        arena
    }

    /// What holds of an arena that has reserved nothing yet.
    pub open spec fn is_new(&self, arena_id: u64, first_address: int, first_capacity: int) -> bool {
        &&& self.wf()
        &&& self.id() == arena_id
        &&& self.first_address() == first_address
        &&& self.mem() == Map::<int, u8>::empty()
        &&& self.shape() == (ArenaShape {
            caps: Seq::empty(),
            cursors: Seq::empty(),
            active: 0,
            first: first_capacity,
        })
        &&& self.history() == telemetry_start()
        &&& self.marks() == Seq::<ArenaMark>::empty()
        &&& self.next_mark() == 1
    }
}


/// Marks keep agreeing with the pages while the pages that were active keep
/// their places and no cursor moves back.
proof fn lemma_marks_kept<B: PageBackend>(before: PagedArena<B>, after: PagedArena<B>)
    requires
        before.order_wf(),
        before.marks_wf(),
        after.order_wf(),
        after.arena_id == before.arena_id,
        after.next_mark_id == before.next_mark_id,
        after.mark_stack@ == before.mark_stack@,
        after.marked == before.marked,
        before.active_pages <= after.active_pages,
        forall|i: int|
            0 <= i < before.active_pages ==> {
                &&& #[trigger] after.order@[i] == before.order@[i]
                &&& after.page(i).start() == before.page(i).start()
                &&& after.page(i).cap() == before.page(i).cap()
                &&& after.page(i).cursor >= before.page(i).cursor
                &&& i < before.active_pages - 1 ==> after.page(i).cursor == before.page(i).cursor
            },
    ensures
        after.marks_wf(),
{
    assert forall|k: int| 0 <= k < after.marked@.len() implies after.mark_wf(
        #[trigger] after.marked@[k],
    ) by {
        let mark = after.marked@[k];
        assert(before.mark_wf(before.marked@[k]));
        let n = mark.active_pages as int;
        assert(after.shape().caps.take(n) =~= before.shape().caps.take(n)) by {
            assert forall|i: int| 0 <= i < n implies after.shape().caps.take(n)[i]
                == before.shape().caps.take(n)[i] by {
                assert(after.order@[i] == before.order@[i]);
            }
        }
        if n > 0 {
            let m = n - 1;
            assert(after.shape().cursors.take(m) =~= before.shape().cursors.take(m)) by {
                assert forall|i: int| 0 <= i < m implies after.shape().cursors.take(m)[i]
                    == before.shape().cursors.take(m)[i] by {
                    assert(after.order@[i] == before.order@[i]);
                }
            }
            assert(after.order@[n - 1] == before.order@[n - 1]);
        }
        assert forall|a: int|
            after.reach(n, mark.cursor as int).contains(a) <==> before.reach(
                n,
                mark.cursor as int,
            ).contains(a) by {
            if after.reach(n, mark.cursor as int).contains(a) {
                let i = choose|i: int|
                    #![trigger after.order@[i]]
                    0 <= i < n && after.page(i).start() <= a < after.page(i).start() + (if i == n
                        - 1 {
                        mark.cursor as int
                    } else {
                        after.page(i).cursor as int
                    });
                assert(after.order@[i] == before.order@[i]);
            }
            if before.reach(n, mark.cursor as int).contains(a) {
                let i = choose|i: int|
                    #![trigger before.order@[i]]
                    0 <= i < n && before.page(i).start() <= a < before.page(i).start() + (if i == n
                        - 1 {
                        mark.cursor as int
                    } else {
                        before.page(i).cursor as int
                    });
                assert(after.order@[i] == before.order@[i]);
            }
        }
        assert(after.reach(n, mark.cursor as int) =~= before.reach(n, mark.cursor as int));
    }
}

impl<B: PageBackend> PagedArena<B> {
    /// Whether `self` came out of `before` by an operation that only allocates:
    /// the same arena with the same marks.
    pub open spec fn continues(&self, before: Self) -> bool {
        &&& self.wf()
        &&& self.id() == before.id()
        &&& self.first_address() == before.first_address()
        &&& self.supplier() == before.supplier()
        &&& self.marks() == before.marks()
        &&& self.next_mark() == before.next_mark()
    }

    /// Whether `self` has the pages and the memory of `before`.
    pub open spec fn keeps_memory(&self, before: Self) -> bool {
        &&& self.shape() == before.shape()
        &&& self.mem() == before.mem()
    }

    /// Whether `size` bytes at `address` are what an allocation added to
    /// `before`: aligned memory that was not allocated, now allocated and zero.
    pub open spec fn placed_at(&self, before: Self, address: u64, size: int, align: int) -> bool {
        let padding = self.shape().used() - before.shape().used() - size;
        &&& 0 <= padding < align
        &&& address % (align as u64) == 0
        &&& self.first_address() <= address - padding
        &&& address + size <= self.first_address() + ADDRESS_SPAN
        &&& lacks_range(before.mem(), address - padding, padding + size)
        &&& self.mem() == extended(before.mem(), address - padding, padding + size)
    }

    /// Whether `self` is `before` after a request of `size` bytes was served at
    /// `address`.
    pub open spec fn placed(&self, before: Self, address: u64, size: int, align: int) -> bool {
        &&& self.placed_at(before, address, size, align)
        &&& self.shape() == before.shape().served(size, align)
        &&& self.shape().used() == before.shape().used() + before.shape().padding(size, align)
            + size
        &&& self.shape().reserved() == before.shape().reserved() + before.shape().growth(
            size,
            align,
        )
    }


    fn refresh_telemetry_peaks(&mut self)
        ensures
            final(self).telemetry == noted_use(
                old(self).telemetry,
                old(self).used_bytes as int,
                old(self).reserved_bytes as int,
            ),
            *final(self) == (PagedArena { telemetry: final(self).telemetry, ..*old(self) }),
    {
        if self.telemetry.peak_used_bytes < self.used_bytes {
            self.telemetry.peak_used_bytes = self.used_bytes;
        }
        if self.telemetry.peak_capacity_bytes < self.reserved_bytes {
            self.telemetry.peak_capacity_bytes = self.reserved_bytes;
        }
    }

    /// Allocate only when the current active page already has capacity.
    /// No page is reserved here, so callers may use this as a budget-free hot
    /// path before consulting the execution-wide reservation limit.
    pub fn try_alloc_existing(&mut self, size: usize, align: usize) -> (result: Result<
        Option<u64>,
        ArenaAllocError,
    >)
        requires
            old(self).wf(),
            size > 0,
            valid_align(align as int),
        ensures
            final(self).continues(*old(self)),
            final(self).governed() == old(self).governed(),
            result is Ok,
            result->Ok_0 is Some <==> old(self).shape().fits(size as int, align as int),
            result->Ok_0 is None ==> {
                &&& final(self).keeps_memory(*old(self))
                &&& final(self).history() == old(self).history()
            },
            result->Ok_0 matches Some(address) ==> {
                &&& final(self).shape() == old(self).shape().bumped(size as int, align as int)
                &&& final(self).history() == noted_use(
                    noted_fast(old(self).history()),
                    final(self).shape().used(),
                    final(self).shape().reserved(),
                )
                &&& final(self).placed(*old(self), address, size as int, align as int)
            },
    {
        let ghost before = *self;
        if self.active_pages != 0 {
            let last: usize = self.active_pages - 1;
            let index: usize = self.order[last];
            proof {
                assert(self.page(last as int).wf());
            }
            if let Some((offset, consumed)) = self.pages[index].try_alloc(size, align) {
                proof {
                    lemma_round_up(before.page(last as int).cursor as int, align as int);
                    assert(self.pages@[index as int].wf());
                    assert forall|q: int|
                        0 <= q < before.pages@.len() && q != index implies #[trigger] self.pages@[q]
                        == before.pages@[q] by {}
                    lemma_mem_bump(before.pages@, self.pages@, index as int);
                    let raised = before.shape().bumped(size as int, align as int);
                    assert(self.shape().cursors =~= raised.cursors) by {
                        assert forall|i: int| 0 <= i < self.order@.len() && i != last implies
                            #[trigger] self.order@[i] != index by {}
                    }
                    assert(self.shape().caps =~= raised.caps);
                    lemma_sum_update(
                        before.shape().cursors,
                        last as int,
                        offset as int + size as int,
                    );
                    assert forall|i: int| 0 <= i < self.order@.len() implies #[trigger] self.shape().cursors[i]
                        <= self.shape().caps[i] by {
                        assert(self.pages@[self.order@[i] as int].wf());
                    }
                    lemma_sum_pointwise(self.shape().cursors, self.shape().caps);
                }
                self.used_bytes = self.used_bytes + consumed;
                self.telemetry.events.active_page_fast_path_allocations =
                    self.telemetry.events.active_page_fast_path_allocations.wrapping_add(1);
                self.refresh_telemetry_peaks();
                let address: u64 = self.pages[index].backing.base() + offset as u64;
                proof {
                    assert(self.shape() =~= before.shape().bumped(size as int, align as int));
                    assert(grants_of(self.pages@) =~= grants_of(before.pages@));
                    lemma_marks_kept(before, *self);
                    lemma_aligned(self.pages@[index as int].start(), offset as int, align as int);
                }
                return Ok(Some(address));
            }
            proof {
                assert(self.pages@ =~= before.pages@);
            }
        }
        Ok(None)
    }
}

/// An aligned offset into memory that starts at a multiple of sixteen is an
/// aligned address.
proof fn lemma_aligned(start: int, offset: int, align: int)
    requires
        valid_align(align),
        start % 16 == 0,
        offset % align == 0,
        start >= 0,
        offset >= 0,
    ensures
        (start + offset) % align == 0,
{
    if align == 2 {
        assert((start + offset) % 2 == 0);
    } else if align == 4 {
        assert((start + offset) % 4 == 0);
    } else if align == 8 {
        assert((start + offset) % 8 == 0);
    } else if align == 16 {
        assert(offset % 16 == 0);
        vstd::arithmetic::div_mod::lemma_mod_adds(start, offset, 16);
    } else {
        assert((start + offset) % 1 == 0);
    }
}

impl<B: PageBackend> PagedArena<B> {
    /// The position of the inactive page to reuse for `size` bytes.
    fn find_reusable(&self, size: usize) -> (result: Option<usize>)
        requires
            self.wf(),
        ensures
            result is Some <==> self.shape().can_reuse(size as int),
            result matches Some(j) ==> self.shape().best_fit(size as int, j as int),
    {
        let mut best: Option<usize> = None;
        let mut at: usize = self.active_pages;
        while at < self.order.len()
            invariant
                self.wf(),
                self.active_pages <= at <= self.order@.len(),
                best is None ==> forall|k: int|
                    self.active_pages <= k < at ==> #[trigger] self.shape().caps[k] < size,
                best matches Some(j) ==> {
                    &&& self.active_pages <= j < at
                    &&& self.shape().caps[j as int] >= size
                    &&& forall|k: int|
                        self.active_pages <= k < at && #[trigger] self.shape().caps[k] >= size
                            ==> self.shape().caps[j as int] < self.shape().caps[k] || (
                        self.shape().caps[j as int] == self.shape().caps[k] && j <= k)
                },
            decreases self.order@.len() - at,
        {
            let capacity: usize = self.pages[self.order[at]].capacity();
            assert(self.shape().caps[at as int] == capacity);
            if capacity >= size {
                match best {
                    None => {
                        best = Some(at);
                    },
                    Some(j) => {
                        let smallest: usize = self.pages[self.order[j]].capacity();
                        assert(self.shape().caps[j as int] == smallest);
                        if capacity < smallest {
                            best = Some(at);
                        }
                    },
                }
            }
            at = at + 1;
        }
        proof {
            if best is Some {
                assert(self.shape().caps[best->0 as int] >= size);
            }
        }
        best
    }

    /// The capacity of the next regular page.
    fn next_regular_capacity(&self) -> (capacity: usize)
        requires
            self.wf(),
        ensures
            capacity == regular_capacity(
                self.shape().caps.take(self.shape().active),
                self.shape().first,
            ),
            0 < capacity <= DEFAULT_PAGE_SIZE,
    {
        let mut largest: usize = 0;
        let mut at: usize = 0;
        let ghost caps = self.shape().caps;
        while at < self.active_pages
            invariant
                self.wf(),
                caps == self.shape().caps,
                at <= self.active_pages <= self.order@.len(),
                largest == largest_regular(caps.take(at as int)),
                largest <= DEFAULT_PAGE_SIZE,
            decreases self.active_pages - at,
        {
            let capacity: usize = self.pages[self.order[at]].capacity();
            proof {
                assert(self.pages@[self.order@[at as int] as int].wf());
                assert(caps.take(at + 1).drop_last() =~= caps.take(at as int));
                assert(caps.take(at + 1).last() == capacity);
            }
            if capacity <= DEFAULT_PAGE_SIZE && capacity > largest {
                largest = capacity;
            }
            at = at + 1;
        }
        if largest == 0 {
            self.first_capacity
        } else if largest <= DEFAULT_PAGE_SIZE / 2 {
            largest * 2
        } else {
            DEFAULT_PAGE_SIZE
        }
    }

    /// Exchanges two inactive pages in the activation order.
    fn exchange_inactive(&mut self, i: usize, j: usize)
        requires
            old(self).wf(),
            old(self).shape().active <= i < old(self).shape().caps.len(),
            old(self).shape().active <= j < old(self).shape().caps.len(),
        ensures
            final(self).continues(*old(self)),
            final(self).mem() == old(self).mem(),
            final(self).history() == old(self).history(),
            final(self).governed() == old(self).governed(),
            final(self).shape() == (ArenaShape {
                caps: exchanged(old(self).shape().caps, i as int, j as int),
                ..old(self).shape()
            }),
    {
        let ghost before = *self;
        let a: usize = self.order[i];
        let b: usize = self.order[j];
        self.order[i] = b;
        self.order[j] = a;
        proof {
            assert(self.order@ =~= exchanged(before.order@, i as int, j as int));
            assert forall|p: int| 0 <= p < self.pages@.len() implies #[trigger] occurs(
                self.order@,
                p,
            ) by {
                assert(occurs(before.order@, p));
                let k = choose|k: int|
                    0 <= k < before.order@.len() && #[trigger] before.order@[k] == p;
                if k == i {
                    assert(self.order@[j as int] == p);
                } else if k == j {
                    assert(self.order@[i as int] == p);
                } else {
                    assert(self.order@[k] == p);
                }
            }
            assert(self.shape().caps =~= exchanged(before.shape().caps, i as int, j as int));
            assert(before.pages@[a as int].cursor == 0);
            assert(before.pages@[b as int].cursor == 0);
            assert(self.shape().cursors =~= before.shape().cursors);
            lemma_sum_exchanged(before.shape().caps, i as int, j as int);
            lemma_footprints_exchanged(before.shape().caps, i as int, j as int);
            let n = self.active_pages as int;
            assert(self.shape().caps.take(n) =~= before.shape().caps.take(n));
            lemma_marks_kept(before, *self);
        }
    }

    /// Makes the first inactive page active and serves a request from it.
    fn activate(&mut self, size: usize, align: usize) -> (address: u64)
        requires
            old(self).wf(),
            size > 0,
            valid_align(align as int),
            old(self).shape().active < old(self).shape().caps.len(),
            old(self).shape().caps[old(self).shape().active] >= size,
        ensures
            final(self).continues(*old(self)),
            final(self).governed() == old(self).governed(),
            final(self).shape() == (ArenaShape {
                caps: old(self).shape().caps,
                cursors: old(self).shape().cursors.update(old(self).shape().active, size as int),
                active: old(self).shape().active + 1,
                first: old(self).shape().first,
            }),
            final(self).history() == noted_use(
                (ArenaTelemetryState {
                    active_page_capacity_bytes: (old(self).history().active_page_capacity_bytes
                        + old(self).shape().caps[old(self).shape().active]) as usize,
                    ..old(self).history()
                }),
                final(self).shape().used(),
                final(self).shape().reserved(),
            ),
            final(self).placed_at(*old(self), address, size as int, align as int),
    {
        let ghost before = *self;
        let at: usize = self.active_pages;
        let index: usize = self.order[at];
        proof {
            assert(self.page(at as int).wf());
            assert(self.page(at as int).cursor == 0);
            assert(round_up(0, align as int) == 0) by {
                lemma_round_up(0, align as int);
            }
        }
        let capacity: usize = self.pages[index].capacity();
        let placed: Option<(usize, usize)> = self.pages[index].try_alloc(size, align);
        assert(placed is Some);
        let address: u64 = self.pages[index].backing.base();
        assert(at < self.order.len());
        self.active_pages = at + 1;
        proof {
            assert(self.pages@[index as int].wf());
            assert forall|q: int| 0 <= q < before.pages@.len() && q != index implies
                #[trigger] self.pages@[q] == before.pages@[q] by {}
            lemma_mem_bump(before.pages@, self.pages@, index as int);
            assert(self.shape().cursors =~= before.shape().cursors.update(at as int, size as int))
                by {
                assert forall|i: int| 0 <= i < self.order@.len() && i != at implies
                    #[trigger] self.order@[i] != index by {}
            }
            assert(self.shape().caps =~= before.shape().caps);
            lemma_sum_update(before.shape().cursors, at as int, size as int);
            assert(before.shape().cursors[at as int] == 0);
            assert forall|i: int| 0 <= i < self.order@.len() implies
                #[trigger] self.shape().cursors[i] <= self.shape().caps[i]
                && self.shape().caps[i] >= 0 by {
                assert(self.pages@[self.order@[i] as int].wf());
            }
            lemma_sum_pointwise(self.shape().cursors, self.shape().caps);
            lemma_sum_take_step(self.shape().caps, at as int);
            assert(self.shape().caps.take(at as int) =~= before.shape().caps.take(at as int));
            lemma_sum_take_at_most(self.shape().caps, at + 1);
        }
        self.used_bytes = self.used_bytes + size;
        self.telemetry.active_page_capacity_bytes =
            self.telemetry.active_page_capacity_bytes + capacity;
        self.refresh_telemetry_peaks();
        proof {
            assert(grants_of(self.pages@) =~= grants_of(before.pages@));
            lemma_marks_kept(before, *self);
            lemma_aligned(address as int, 0, align as int);
        }
        address
    }

    /// Adds one inactive page.
    #[verifier::spinoff_prover]
    #[verifier::rlimit(60)]
    fn add_page(&mut self, backing: PageBacking, reservation: Option<GovernorReservation>)
        requires
            old(self).wf(),
            old(self).expects(backing@.len() as int, reservation),
            0 < backing@.len(),
            backing@ == zeroed(backing@.len()),
            old(self).shape().reserved() + backing@.len() <= usize::MAX,
            old(self).has_room(backing@.len() as int),
        ensures
            final(self).continues(*old(self)),
            final(self).mem() == old(self).mem(),
            final(self).shape() == (ArenaShape {
                caps: old(self).shape().caps.push(backing@.len() as int),
                cursors: old(self).shape().cursors.push(0),
                active: old(self).shape().active,
                first: old(self).shape().first,
            }),
            final(self).history() == noted_use(
                old(self).history(),
                0,
                final(self).shape().reserved(),
            ),
            final(self).governed() == old(self).governed(),
    {
        let ghost before = *self;
        let capacity: usize = backing.capacity();
        let base: u64 = self.next_base;
        let extent: u64 = capacity as u64;
        let page: Page<B> = Page::with_backing(self.backend, base, backing, reservation);
        let index: usize = self.pages.len();
        let ghost added = page;
        let padding: u64 = (16 - extent % 16) % 16;
        self.next_base = base + extent + padding + 16;
        self.reserved_bytes = self.reserved_bytes + capacity;
        self.pages.push(page);
        self.order.push(index);
        if self.telemetry.peak_capacity_bytes < self.reserved_bytes {
            self.telemetry.peak_capacity_bytes = self.reserved_bytes;
        }
        proof {
            lemma_mem_push(before.pages@, added);
            assert(self.pages@ =~= before.pages@.push(added));
            assert(self.order@ =~= before.order@.push(index));
            assert forall|p: int| 0 <= p < self.pages@.len() implies #[trigger] occurs(
                self.order@,
                p,
            ) by {
                if p < before.pages@.len() {
                    assert(occurs(before.order@, p));
                    let k = choose|k: int|
                        0 <= k < before.order@.len() && #[trigger] before.order@[k] == p;
                    assert(self.order@[k] == p);
                } else {
                    assert(self.order@[before.order@.len() as int] == p);
                }
            }
            assert(self.shape().caps =~= before.shape().caps.push(capacity as int));
            assert(self.shape().cursors =~= before.shape().cursors.push(0));
            lemma_sum_push(before.shape().caps, capacity as int);
            lemma_sum_push(before.shape().cursors, 0);
            lemma_footprints_push(before.shape().caps, capacity as int);
            assert(extent + padding == round_up(capacity as int, 16));
            let n = self.active_pages as int;
            assert(self.shape().caps.take(n) =~= before.shape().caps.take(n));
            assert(grants_of(self.pages@) =~= grants_of(before.pages@).push(added.grant()));
            lemma_sum_push(grants_of(before.pages@), added.grant());
            lemma_marks_kept(before, *self);
        }
    }

    /// Whether a grant is what a governor gave for a page of `capacity` bytes that
    /// is still to come: none where there is no governor.
    pub open spec fn expects(
        &self,
        capacity: int,
        reservation: Option<GovernorReservation>,
    ) -> bool {
        match self.governed() {
            None => reservation is None,
            Some(state) => {
                &&& reservation matches Some(grant)
                &&& grant.granted() == capacity
                &&& self.shape().reserved() + capacity <= state.current_capacity_bytes
            },
        }
    }

    /// The accounting of the governor after the grant for a page of `capacity`
    /// bytes came back.
    pub open spec fn governed_without(&self, capacity: int) -> Option<MemoryGovernorTelemetry> {
        match self.governed() {
            None => None,
            Some(state) => Some(governor_released(state, capacity as u64)),
        }
    }

    /// Gives a grant back that was taken for a page that could not be had.
    fn give_back(&mut self, reservation: Option<GovernorReservation>, Ghost(capacity): Ghost<int>)
        requires
            old(self).wf(),
            old(self).expects(capacity, reservation),
        ensures
            final(self).continues(*old(self)),
            final(self).keeps_memory(*old(self)),
            final(self).history() == old(self).history(),
            final(self).governed() == old(self).governed_without(capacity),
    {
        let ghost before = *self;
        match &mut self.governor {
            None => {},
            Some(governor) => {
                if let Some(grant) = reservation {
                    governor.release(grant);
                }
            },
        }
        proof {
            assert(self.shape() =~= before.shape());
            lemma_marks_kept(before, *self);
        }
    }
}

impl<B: PageBackend> PagedArena<B> {
    fn set_events(&mut self, events: ArenaEventMetrics)
        requires
            old(self).wf(),
        ensures
            final(self).continues(*old(self)),
            final(self).keeps_memory(*old(self)),
            final(self).governed() == old(self).governed(),
            final(self).history() == (ArenaTelemetryState { events, ..old(self).history() }),
    {
        let ghost before = *self;
        self.telemetry.events = events;
        proof {
            assert(self.shape() =~= before.shape());
            lemma_marks_kept(before, *self);
        }
    }

    /// Takes up the page that the host supplied for a request, or its refusal. A
    /// page serves the request at once. Where there is none, the grant that was
    /// taken for it goes back.
    pub fn alloc_supplied(
        &mut self,
        supplied: Result<PageBacking, ArenaAllocError>,
        capacity: usize,
        reservation: Option<GovernorReservation>,
        size: usize,
        align: usize,
    ) -> (result: Result<u64, ArenaAllocError>)
        requires
            old(self).wf(),
            0 < size <= capacity,
            valid_align(align as int),
            old(self).shape().reserved() + capacity <= usize::MAX,
            old(self).expects(capacity as int, reservation),
            supplied matches Ok(backing) ==> backing@ == zeroed(capacity as nat),
        ensures
            final(self).continues(*old(self)),
            result == match supplied {
                Err(error) => Err::<u64, ArenaAllocError>(error),
                Ok(_) => if old(self).has_room(capacity as int) {
                    Ok(result->Ok_0)
                } else {
                    Err(ArenaAllocError::AddressSpace)
                },
            },
            result matches Ok(address) ==> {
                &&& final(self).placed_at(*old(self), address, size as int, align as int)
                &&& final(self).shape() == old(self).shape().grown(capacity as int, size as int)
                &&& final(self).history() == noted_use(
                    noted_fresh(old(self).history(), capacity as int, size as int),
                    final(self).shape().used(),
                    final(self).shape().reserved(),
                )
                &&& final(self).governed() == old(self).governed()
            },
            result is Err ==> {
                &&& final(self).keeps_memory(*old(self))
                &&& final(self).history() == old(self).history()
                &&& final(self).governed() == old(self).governed_without(capacity as int)
            },
    {
        let backing: PageBacking = match supplied {
            Err(error) => {
                self.give_back(reservation, Ghost(capacity as int));
                return Err(error);
            },
            Ok(backing) => backing,
        };
        let room: u64 = self.origin + ADDRESS_SPAN - self.next_base;
        if capacity as u64 > room || room - (capacity as u64) < 32 {
            self.backend.release(backing);
            self.give_back(reservation, Ghost(capacity as int));
            return Err(ArenaAllocError::AddressSpace);
        }
        let mut events: ArenaEventMetrics = self.telemetry.events;
        self.add_page(backing, reservation);
        let first: usize = self.active_pages;
        let last: usize = self.order.len() - 1;
        self.exchange_inactive(first, last);
        assert(self.shape().caps[first as int] == capacity);
        let address: u64 = self.activate(size, align);
        if size > DEFAULT_PAGE_SIZE {
            events.fresh_oversized_page_allocations =
                events.fresh_oversized_page_allocations.wrapping_add(1);
        } else {
            events.fresh_regular_page_allocations =
                events.fresh_regular_page_allocations.wrapping_add(1);
        }
        self.set_events(events);
        proof {
            assert(self.shape() =~= old(self).shape().grown(capacity as int, size as int));
            lemma_sum_push(old(self).shape().cursors, 0);
            lemma_sum_push(old(self).shape().caps, capacity as int);
            lemma_sum_exchanged(
                old(self).shape().caps.push(capacity as int),
                first as int,
                last as int,
            );
        }
        Ok(address)
    }

    /// What a request for `size` bytes makes of the arena `before`, where at most
    /// `max_reserved_bytes` may be reserved. The last active page serves it when it
    /// can; otherwise the smallest sufficient inactive page does; otherwise a new page,
    /// if the budget, the governor and the host allow one. Where they do not, the
    /// memory stays as it is.
    pub open spec fn request_outcome(
        &self,
        before: Self,
        size: int,
        align: int,
        max_reserved_bytes: int,
        result: Result<u64, ArenaAllocError>,
    ) -> bool {
        &&& self.continues(before)
        &&& result matches Ok(address) ==> self.placed(before, address, size, align)
        &&& result is Err ==> self.keeps_memory(before)
        &&& before.shape().reserved() <= self.shape().reserved()
        &&& self.shape().reserved() <= before.shape().reserved() || self.shape().reserved()
            <= max_reserved_bytes
        &&& before.shape().fits(size, align) ==> {
            &&& result is Ok
            &&& self.shape() == before.shape().bumped(size, align)
            &&& self.history() == noted_use(
                noted_fast(before.history()),
                self.shape().used(),
                self.shape().reserved(),
            )
            &&& self.governed() == before.governed()
        }
        &&& !before.shape().fits(size, align) && before.shape().can_reuse(size) ==> {
            &&& result is Ok
            &&& self.governed() == before.governed()
            &&& exists|j: int|
                {
                    &&& #[trigger] before.shape().best_fit(size, j)
                    &&& self.shape() == before.shape().reused(j, size)
                    &&& self.history() == noted_use(
                        noted_reuse(noted_slow(before.history()), before.shape().caps[j]),
                        self.shape().used(),
                        self.shape().reserved(),
                    )
                }
        }
        &&& before.needs_page(size, align) ==> self.fresh_outcome(
            before,
            noted_slow(before.history()),
            size,
            max_reserved_bytes,
            result,
        )
    }

    /// What a request that only a new page can serve makes of the arena `before`, whose
    /// history is `history` by then. A page that exceeds what can be addressed or the
    /// budget is not asked for. Otherwise the governor is asked first, where there is
    /// one, and its grant goes back where the page cannot be had.
    pub open spec fn fresh_outcome(
        &self,
        before: Self,
        history: ArenaTelemetryState,
        size: int,
        max_reserved_bytes: int,
        result: Result<u64, ArenaAllocError>,
    ) -> bool {
        let capacity = before.shape().fresh_capacity(size);
        let reserved = before.shape().reserved() + capacity;
        if reserved > usize::MAX {
            &&& result == Err::<u64, ArenaAllocError>(ArenaAllocError::AddressSpace)
            &&& self.history() == history
            &&& self.governed() == before.governed()
        } else if reserved > max_reserved_bytes {
            &&& result == Err::<u64, ArenaAllocError>(ArenaAllocError::Limit)
            &&& self.history() == noted_denial(history)
            &&& self.governed() == before.governed()
        } else {
            &&& result is Ok ==> {
                &&& before.has_room(capacity)
                &&& self.shape() == before.shape().grown(capacity, size)
                &&& self.history() == noted_use(
                    noted_fresh(history, capacity, size),
                    self.shape().used(),
                    self.shape().reserved(),
                )
                &&& before.governed() matches Some(state) ==> {
                    &&& governor_admits(state, capacity)
                    &&& self.governed() == Some(governor_granted(state, capacity as u64))
                }
            }
            &&& result matches Err(error) ==> {
                &&& before.may_refuse(capacity, error)
                &&& self.history() == history
                &&& before.governed() matches Some(state) ==> {
                    ||| error == ArenaAllocError::OutOfMemory && self.governed()
                        == before.governed()
                    ||| {
                        &&& !governor_admits(state, capacity)
                        &&& error == (ArenaAllocError::SharedLimit {
                            hard_limit_bytes: state.hard_limit_bytes,
                        })
                        &&& self.governed() == Some(governor_denied(state))
                    }
                    ||| {
                        &&& governor_admits(state, capacity)
                        &&& before.may_lack(capacity, error)
                        &&& self.governed() == Some(
                            governor_released(
                                governor_granted(state, capacity as u64),
                                capacity as u64,
                            ),
                        )
                    }
                }
            }
            &&& before.governed() is None ==> self.governed() is None
        }
    }

    /// Serves a request from a page that is reserved for it.
    fn alloc_fresh(&mut self, size: usize, align: usize, max_reserved_bytes: usize) -> (result:
        Result<u64, ArenaAllocError>)
        requires
            old(self).wf(),
            size > 0,
            valid_align(align as int),
        ensures
            final(self).continues(*old(self)),
            result matches Ok(address) ==> final(self).placed_at(
                *old(self),
                address,
                size as int,
                align as int,
            ),
            result is Err ==> final(self).keeps_memory(*old(self)),
            old(self).shape().reserved() <= final(self).shape().reserved(),
            final(self).shape().reserved() <= old(self).shape().reserved() || final(self).shape().reserved() <= max_reserved_bytes,
            final(self).fresh_outcome(
                *old(self),
                old(self).history(),
                size as int,
                max_reserved_bytes as int,
                result,
            ),
    {
        let regular: usize = self.next_regular_capacity();
        // Fresh pages are aligned to the maximum, so the first allocation needs no padding.
        let capacity: usize = if size > regular {
            size
        } else {
            regular
        };
        let new_reserved: usize = match self.reserved_bytes.checked_add(capacity) {
            None => {
                return Err(ArenaAllocError::AddressSpace);
            },
            Some(new_reserved) => new_reserved,
        };
        let mut events: ArenaEventMetrics = self.telemetry.events;
        if new_reserved > max_reserved_bytes {
            events.allocation_limit_denials = events.allocation_limit_denials.wrapping_add(1);
            self.set_events(events);
            return Err(ArenaAllocError::Limit);
        }
        let ghost before = *self;
        if self.pages.try_reserve(1).is_err() {
            assert(self.pages@ =~= before.pages@);
            return Err(ArenaAllocError::OutOfMemory);
        }
        assert(self.pages@ =~= before.pages@);
        let mut reservation: Option<GovernorReservation> = None;
        match &mut self.governor {
            None => {},
            Some(governor) => {
                match governor.try_acquire(capacity) {
                    None => {
                        let hard_limit_bytes: u64 = governor.hard_limit_bytes();
                        return Err(ArenaAllocError::SharedLimit { hard_limit_bytes });
                    },
                    Some(grant) => {
                        reservation = Some(grant);
                    },
                }
            },
        }
        proof {
            assert(self.shape() =~= before.shape());
            lemma_marks_kept(before, *self);
        }
        let supplied: Result<PageBacking, ArenaAllocError> = self.backend.allocate_zeroed(
            capacity,
            MAX_ALIGN,
        );
        let ghost refusal = supplied;
        assert(call_ensures(
            B::allocate_zeroed,
            (&old(self).supplier(), capacity, MAX_ALIGN),
            refusal,
        ));
        let result: Result<u64, ArenaAllocError> = self.alloc_supplied(
            supplied,
            capacity,
            reservation,
            size,
            align,
        );
        proof {
            lemma_sum_push(before.shape().caps, capacity as int);
            lemma_sum_exchanged(
                before.shape().caps.push(capacity as int),
                before.shape().active,
                before.shape().caps.len() as int,
            );
        }
        result
    }

    /// Fallibly allocate zeroed arena storage. `max_reserved_bytes` is the
    /// caller-owned execution budget available to this arena.
    ///
    /// The last active page serves the request when it can; otherwise the
    /// smallest sufficient inactive page does; otherwise a new page is reserved,
    /// if the budget, the governor and the host allow it.
    pub fn try_alloc(&mut self, size: usize, align: usize, max_reserved_bytes: usize) -> (result:
        Result<u64, ArenaAllocError>)
        requires
            old(self).wf(),
            size > 0,
            valid_align(align as int),
        ensures
            final(self).request_outcome(
                *old(self),
                size as int,
                align as int,
                max_reserved_bytes as int,
                result,
            ),
    {
        if let Ok(Some(address)) = self.try_alloc_existing(size, align) {
            return Ok(address);
        }
        let mut events: ArenaEventMetrics = self.telemetry.events;
        events.slow_path_allocations = events.slow_path_allocations.wrapping_add(1);
        self.set_events(events);
        if let Some(index) = self.find_reusable(size) {
            let first: usize = self.active_pages;
            assert(old(self).shape().best_fit(size as int, index as int));
            self.exchange_inactive(first, index);
            let address: u64 = self.activate(size, align);
            events.inactive_page_reuse_events = events.inactive_page_reuse_events.wrapping_add(1);
            self.set_events(events);
            proof {
                assert(self.shape() =~= old(self).shape().reused(index as int, size as int));
                lemma_sum_exchanged(old(self).shape().caps, first as int, index as int);
                let best = choose|j: int| old(self).shape().best_fit(size as int, j);
                assert(old(self).shape().best_fit(size as int, best));
                assert(best == index);
                lemma_sum_update(old(self).shape().cursors, first as int, size as int);
            }
            return Ok(address);
        }
        let result: Result<u64, ArenaAllocError> = self.alloc_fresh(
            size,
            align,
            max_reserved_bytes,
        );
        proof {
            let shape = old(self).shape();
            let capacity = shape.fresh_capacity(size as int);
            lemma_sum_push(shape.cursors, 0);
            lemma_sum_push(shape.caps, capacity);
            lemma_sum_exchanged(shape.caps.push(capacity), shape.active, shape.caps.len() as int);
            lemma_sum_update(shape.cursors.push(0), shape.active, size as int);
        }
        result
    }

    /// Whether a request can only be served by a page that is yet to be reserved.
    pub open spec fn needs_page(&self, size: int, align: int) -> bool {
        !self.shape().fits(size, align) && !self.shape().can_reuse(size)
    }
}


/// Moving cursors back leaves the memory below them.
proof fn lemma_mem_shrink<B: PageBackend>(before: Seq<Page<B>>, after: Seq<Page<B>>)
    requires
        apart(before),
        forall|q: int| 0 <= q < before.len() ==> #[trigger] before[q].wf(),
        after.len() == before.len(),
        forall|q: int|
            0 <= q < before.len() ==> {
                &&& (#[trigger] after[q]).wf()
                &&& after[q].start() == before[q].start()
                &&& after[q].cap() == before[q].cap()
                &&& after[q].cursor <= before[q].cursor
                &&& forall|i: int|
                    0 <= i < after[q].cursor ==> #[trigger] after[q].memory()[i]
                        == before[q].memory()[i]
            },
    ensures
        apart(after),
        mem_of(after) == mem_of(before).restrict(mem_of(after).dom()),
{
    assert(apart(after)) by {
        assert forall|i: int, j: int|
            #![trigger after[i], after[j]]
            0 <= i < j < after.len() implies after[i].start() + after[i].cap() + 16
            <= after[j].start() by {
            assert(before[i].start() + before[i].cap() + 16 <= before[j].start());
        }
    }
    let target = mem_of(before).restrict(mem_of(after).dom());
    assert forall|a: int| #[trigger] mem_of(after).contains_key(a) implies target.contains_key(a)
        && target[a] == mem_of(after)[a] by {
        let q = page_of(after, a);
        assert(holds(after, q, a));
        assert(holds(before, q, a));
        lemma_mem_at(after, q, a);
        lemma_mem_at(before, q, a);
        assert(after[q].memory()[a - after[q].start()] == before[q].memory()[a
            - before[q].start()]);
    }
    assert(mem_of(after) =~= target);
}

/// The history after a rewind to `mark` of an arena of shape `shape`.
pub open spec fn noted_rewind(
    t: ArenaTelemetryState,
    shape: ArenaShape,
    after: ArenaShape,
) -> ArenaTelemetryState {
    ArenaTelemetryState {
        active_page_capacity_bytes: after.active_capacity() as usize,
        events: ArenaEventMetrics {
            rewind_events: t.events.rewind_events.wrapping_add(1),
            rewound_bytes: t.events.rewound_bytes.wrapping_add(
                (shape.used() - after.used()) as u64,
            ),
            ..t.events
        },
        last_rewind: Some(
            ArenaRewindMetrics {
                used_bytes_before: shape.used() as usize,
                used_bytes_after: after.used() as usize,
                capacity_bytes_before: shape.reserved() as usize,
                capacity_bytes_after: shape.reserved() as usize,
                active_page_capacity_bytes_after: after.active_capacity() as usize,
                inactive_page_capacity_bytes_after: (shape.reserved()
                    - after.active_capacity()) as usize,
            },
        ),
        ..t
    }
}

impl<B: PageBackend> PagedArena<B> {
    /// Allocate with no budget but the host's.
    pub fn allocate(&mut self, size: usize, align: usize) -> (result: Result<u64, ArenaAllocError>)
        requires
            old(self).wf(),
            size > 0,
            valid_align(align as int),
        ensures
            final(self).request_outcome(
                *old(self),
                size as int,
                align as int,
                usize::MAX as int,
                result,
            ),
    {
        self.try_alloc(size, align, usize::MAX)
    }

    /// Whether `self` is `before` with `mark` taken, and nothing else.
    pub open spec fn marked_from(&self, before: Self, mark: ArenaMark) -> bool {
        &&& self.wf()
        &&& self.id() == before.id()
        &&& self.first_address() == before.first_address()
        &&& self.supplier() == before.supplier()
        &&& self.keeps_memory(before)
        &&& self.history() == before.history()
        &&& self.governed() == before.governed()
        &&& self.next_mark() == before.next_mark() + 1
        &&& self.marks() == before.marks().push(mark)
        &&& mark.arena() == before.id()
        &&& mark.number() == before.next_mark()
        &&& mark.allocated() == before.mem().dom()
        &&& mark.used() == before.shape().used()
        &&& mark.active() == before.shape().active
        &&& mark.at() == if before.shape().active == 0 {
            0
        } else {
            before.shape().cursors[before.shape().active - 1]
        }
    }

    /// Whether `self` is `before` with everything given back that was allocated since
    /// `mark` was taken, and nothing else.
    pub open spec fn rewound_from(&self, before: Self, mark: ArenaMark) -> bool {
        &&& self.wf()
        &&& self.id() == before.id()
        &&& self.first_address() == before.first_address()
        &&& self.supplier() == before.supplier()
        &&& self.governed() == before.governed()
        &&& self.next_mark() == before.next_mark()
        &&& self.marks() == before.marks().drop_last()
        &&& self.shape() == before.shape().rewound(mark.active(), mark.at())
        &&& self.shape().used() == mark.used()
        &&& self.mem() == before.mem().restrict(mark.allocated())
        &&& mark.allocated().subset_of(before.mem().dom())
        &&& self.history() == noted_rewind(before.history(), before.shape(), self.shape())
    }

    /// Takes a checkpoint of what is allocated.
    pub fn mark(&mut self) -> (mark: ArenaMark)
        requires
            old(self).wf(),
            old(self).next_mark() < u64::MAX,
        ensures
            final(self).marked_from(*old(self), mark),
    {
        let ghost before = *self;
        let mark_id: u64 = self.next_mark_id;
        let cursor: usize = if self.active_pages == 0 {
            0
        } else {
            self.pages[self.order[self.active_pages - 1]].cursor
        };
        let mark = ArenaMark {
            arena_id: self.arena_id,
            mark_id,
            active_pages: self.active_pages,
            cursor,
            used_bytes: self.used_bytes,
            active_page_capacity_bytes: self.telemetry.active_page_capacity_bytes,
            domain: Ghost(self.reach(self.active_pages as int, cursor as int)),
        };
        self.next_mark_id = mark_id + 1;
        self.mark_stack.push(mark_id);
        self.marked = Ghost(self.marked@.push(mark));
        proof {
            assert(self.shape() =~= before.shape());
            let n = self.active_pages as int;
            let cursors = self.shape().cursors;
            lemma_sum_zero_tail(cursors, n);
            if n > 0 {
                lemma_sum_take_step(cursors, n - 1);
            } else {
                assert(cursors.take(0) =~= Seq::<int>::empty());
            }
            assert forall|a: int|
                before.reach(n, cursor as int).contains(a) <==> before.mem().contains_key(a) by {
                if before.reach(n, cursor as int).contains(a) {
                    let i = choose|i: int|
                        #![trigger before.order@[i]]
                        0 <= i < n && before.page(i).start() <= a < before.page(i).start() + (if i
                            == n - 1 {
                            cursor as int
                        } else {
                            before.page(i).cursor as int
                        });
                    assert(holds(before.pages@, before.order@[i] as int, a));
                }
                if before.mem().contains_key(a) {
                    let p = page_of(before.pages@, a);
                    assert(holds(before.pages@, p, a));
                    assert(occurs(before.order@, p));
                    let i = choose|i: int|
                        0 <= i < before.order@.len() && #[trigger] before.order@[i] == p;
                    assert(before.order@[i] == p);
                }
            }
            assert(mark.domain@ =~= before.mem().dom());
            assert forall|k: int| 0 <= k < self.marked@.len() implies self.mark_wf(
                #[trigger] self.marked@[k],
            ) by {
                let m = self.marked@[k];
                if k < before.marked@.len() {
                    assert(before.mark_wf(before.marked@[k]));
                }
                assert(self.reach(m.active_pages as int, m.cursor as int) =~= before.reach(
                    m.active_pages as int,
                    m.cursor as int,
                ));
            }
            assert forall|i: int, j: int| 0 <= i < j < self.marked@.len() implies {
                let a = #[trigger] self.marked@[i];
                let b = #[trigger] self.marked@[j];
                &&& a.mark_id < b.mark_id
                &&& a.active_pages < b.active_pages || (a.active_pages == b.active_pages
                    && a.cursor <= b.cursor)
            } by {
                assert(before.mark_wf(before.marked@[i]));
                if j < before.marked@.len() {
                    assert(before.marked@[i].mark_id < before.marked@[j].mark_id);
                }
            }
        }
        mark
    }

    /// Gives back everything allocated since `mark`, which must be the last mark
    /// that was not rewound. Reclaimed memory is zeroed, and its pages stay
    /// reserved.
    pub fn rewind(&mut self, mark: ArenaMark)
        requires
            old(self).wf(),
            old(self).marks().len() > 0,
            old(self).marks().last() == mark,
        ensures
            final(self).rewound_from(*old(self), mark),
    {
        let ghost before = *self;
        proof {
            assert(before.mark_wf(before.marked@.last()));
            lemma_rewind_counts(before, mark);
        }
        let used_bytes_before: usize = self.used_bytes;
        let capacity_bytes: usize = self.reserved_bytes;
        let kept: usize = mark.active_pages;
        if kept > 0 {
            let index: usize = self.order[kept - 1];
            assert(self.pages@[index as int].wf());
            self.pages[index].rewind_to(mark.cursor);
        }
        let mut at: usize = kept;
        while at < self.active_pages
            invariant
                before.wf(),
                kept == mark.active_pages,
                before.mark_wf(mark),
                kept <= at <= self.active_pages,
                self.active_pages <= self.order@.len(),
                *self == (PagedArena { pages: self.pages, ..before }),
                self.pages@.len() == before.pages@.len(),
                forall|i: int|
                    0 <= i < self.order@.len() ==> self.rewound_page(
                        before,
                        #[trigger] self.order@[i] as int,
                        if i < kept - 1 || i >= at {
                            before.page(i).cursor as int
                        } else if i == kept - 1 {
                            mark.cursor as int
                        } else {
                            0
                        },
                    ),
            decreases self.active_pages - at,
        {
            let index: usize = self.order[at];
            let ghost step = *self;
            assert(self.rewound_page(
                before,
                self.order@[at as int] as int,
                before.page(at as int).cursor as int,
            ));
            self.pages[index].rewind_to(0);
            proof {
                assert forall|i: int| 0 <= i < self.order@.len() implies self.rewound_page(
                    before,
                    #[trigger] self.order@[i] as int,
                    if i < kept - 1 || i >= at + 1 {
                        before.page(i).cursor as int
                    } else if i == kept - 1 {
                        mark.cursor as int
                    } else {
                        0
                    },
                ) by {
                    if i != at {
                        assert(step.order@[i] != index);
                        assert(self.pages@[self.order@[i] as int]
                            == step.pages@[step.order@[i] as int]);
                    }
                }
            }
            at = at + 1;
        }
        let ghost shrunk = *self;
        self.active_pages = kept;
        self.used_bytes = mark.used_bytes;
        let _popped: Option<u64> = self.mark_stack.pop();
        self.marked = Ghost(self.marked@.drop_last());
        self.telemetry.active_page_capacity_bytes = mark.active_page_capacity_bytes;
        self.telemetry.events.rewind_events = self.telemetry.events.rewind_events.wrapping_add(1);
        self.telemetry.events.rewound_bytes = self.telemetry.events.rewound_bytes.wrapping_add(
            (used_bytes_before - mark.used_bytes) as u64,
        );
        self.telemetry.last_rewind = Some(
            ArenaRewindMetrics {
                used_bytes_before,
                used_bytes_after: mark.used_bytes,
                capacity_bytes_before: capacity_bytes,
                capacity_bytes_after: capacity_bytes,
                active_page_capacity_bytes_after: mark.active_page_capacity_bytes,
                inactive_page_capacity_bytes_after: capacity_bytes
                    - mark.active_page_capacity_bytes,
            },
        );
        proof {
            lemma_rewound(before, *self, mark);
        }
    }

    /// Page `p` is the page of `before` with its cursor moved back to `cursor`.
    spec fn rewound_page(&self, before: Self, p: int, cursor: int) -> bool {
        &&& self.pages@[p].wf()
        &&& self.pages@[p].start() == before.pages@[p].start()
        &&& self.pages@[p].cap() == before.pages@[p].cap()
        &&& self.pages@[p].reservation == before.pages@[p].reservation
        &&& self.pages@[p].cursor == cursor
        &&& cursor <= before.pages@[p].cursor
        &&& forall|i: int|
            0 <= i < cursor ==> #[trigger] self.pages@[p].memory()[i] == before.pages@[p].memory()[i]
    }
}

/// What the last mark recorded is at most what is in use.
proof fn lemma_rewind_counts<B: PageBackend>(arena: PagedArena<B>, mark: ArenaMark)
    requires
        arena.wf(),
        arena.mark_wf(mark),
    ensures
        mark.used_bytes <= arena.used_bytes,
        mark.active_page_capacity_bytes <= arena.reserved_bytes,
{
    let shape = arena.shape();
    assert forall|i: int| 0 <= i < shape.caps.len() implies #[trigger] shape.caps[i] >= 0
        && shape.cursors[i] >= 0 by {
        assert(arena.pages@[arena.order@[i] as int].wf());
    }
    lemma_sum_take_at_most(shape.caps, mark.active_pages as int);
    if mark.active_pages > 0 {
        let n = mark.active_pages - 1;
        lemma_sum_take_step(shape.cursors, n);
        lemma_sum_take_at_most(shape.cursors, n + 1);
    }
}

/// The arena that a rewind to `mark` leaves is well formed and holds what was
/// allocated when the mark was taken.
proof fn lemma_rewound<B: PageBackend>(
    before: PagedArena<B>,
    after: PagedArena<B>,
    mark: ArenaMark,
)
    requires
        before.wf(),
        before.marked@.len() > 0,
        before.marked@.last() == mark,
        after.order@ == before.order@,
        after.pages@.len() == before.pages@.len(),
        after.governor == before.governor,
        after.active_pages == mark.active_pages,
        after.used_bytes == mark.used_bytes,
        after.reserved_bytes == before.reserved_bytes,
        after.first_capacity == before.first_capacity,
        after.origin == before.origin,
        after.next_base == before.next_base,
        after.arena_id == before.arena_id,
        after.next_mark_id == before.next_mark_id,
        after.mark_stack@ == before.mark_stack@.drop_last(),
        after.marked@ == before.marked@.drop_last(),
        after.telemetry.active_page_capacity_bytes == mark.active_page_capacity_bytes,
        after.telemetry.peak_used_bytes == before.telemetry.peak_used_bytes,
        after.telemetry.peak_capacity_bytes == before.telemetry.peak_capacity_bytes,
        forall|i: int|
            0 <= i < after.order@.len() ==> after.rewound_page(
                before,
                #[trigger] after.order@[i] as int,
                if i < mark.active_pages - 1 || i >= before.active_pages {
                    before.page(i).cursor as int
                } else if i == mark.active_pages - 1 {
                    mark.cursor as int
                } else {
                    0
                },
            ),
    ensures
        after.wf(),
        after.shape() == before.shape().rewound(mark.active_pages as int, mark.cursor as int),
        after.shape().used() == mark.used_bytes,
        after.shape().reserved() == before.shape().reserved(),
        after.shape().active_capacity() == mark.active_page_capacity_bytes,
        after.mem() == before.mem().restrict(mark.domain@),
        mark.domain@.subset_of(before.mem().dom()),
{
    let n = mark.active_pages as int;
    assert(before.mark_wf(before.marked@.last()));
    lemma_rewind_counts(before, mark);
    assert forall|p: int| 0 <= p < after.pages@.len() implies #[trigger] after.pages@[p].wf()
        && after.pages@[p].start() == before.pages@[p].start() && after.pages@[p].cap()
        == before.pages@[p].cap() && after.pages@[p].cursor <= before.pages@[p].cursor
        && after.pages@[p].reservation == before.pages@[p].reservation && (forall|i: int|
        0 <= i < after.pages@[p].cursor ==> #[trigger] after.pages@[p].memory()[i]
            == before.pages@[p].memory()[i]) by {
        assert(occurs(before.order@, p));
        let i = choose|i: int| 0 <= i < before.order@.len() && #[trigger] before.order@[i] == p;
        assert(after.order@[i] == p);
    }
    lemma_mem_shrink(before.pages@, after.pages@);
    assert forall|p: int| 0 <= p < after.pages@.len() implies after.origin <= #[trigger] after.pages@[p].start()
        && after.pages@[p].start() + after.pages@[p].cap() + 16 <= after.next_base by {
        assert(before.pages@[p].start() + before.pages@[p].cap() + 16 <= before.next_base);
        assert(after.pages@[p].wf());
    }
    assert forall|i: int| after.active_pages <= i < after.order@.len() implies
        after.pages@[#[trigger] after.order@[i] as int].cursor == 0 by {
        if i >= before.active_pages {
            assert(before.pages@[before.order@[i] as int].cursor == 0);
        }
    }
    let target = before.shape().rewound(n, mark.cursor as int);
    assert(after.shape().caps =~= target.caps) by {
        assert forall|i: int| 0 <= i < after.order@.len() implies after.shape().caps[i]
            == target.caps[i] by {
            assert(after.rewound_page(before, after.order@[i] as int, after.page(i).cursor as int));
        }
    }
    assert(after.shape().cursors =~= target.cursors) by {
        assert forall|i: int| 0 <= i < after.order@.len() implies after.shape().cursors[i]
            == target.cursors[i] by {
            assert(after.order@[i] == before.order@[i]);
            if i >= before.active_pages {
                assert(before.pages@[before.order@[i] as int].cursor == 0);
            }
        }
    }
    lemma_sum_zero_tail(after.shape().cursors, n);
    if n > 0 {
        lemma_sum_take_step(after.shape().cursors, n - 1);
        let m = n - 1;
        assert(after.shape().cursors.take(m) =~= before.shape().cursors.take(m));
    } else {
        assert(after.shape().cursors.take(0) =~= Seq::<int>::empty());
    }
    assert(grants_of(after.pages@) =~= grants_of(before.pages@)) by {
        assert forall|p: int| 0 <= p < after.pages@.len() implies grants_of(after.pages@)[p]
            == grants_of(before.pages@)[p] by {
            assert(after.pages@[p].wf());
        }
    }
    // What stays allocated is what the mark recorded.
    assert forall|a: int| after.mem().contains_key(a) <==> mark.domain@.contains(a) by {
        if after.mem().contains_key(a) {
            let p = page_of(after.pages@, a);
            assert(holds(after.pages@, p, a));
            assert(after.pages@[p].wf());
            assert(occurs(before.order@, p));
            let i = choose|i: int|
                0 <= i < before.order@.len() && #[trigger] before.order@[i] == p;
            assert(after.order@[i] == p);
            assert(before.order@[i] == p);
            if i >= n {
                assert(after.pages@[after.order@[i] as int].cursor == 0);
            }
        }
        if mark.domain@.contains(a) {
            let i = choose|i: int|
                #![trigger before.order@[i]]
                0 <= i < n && before.page(i).start() <= a < before.page(i).start() + (if i == n
                    - 1 {
                    mark.cursor as int
                } else {
                    before.page(i).cursor as int
                });
            assert(after.order@[i] == before.order@[i]);
            assert(holds(after.pages@, after.order@[i] as int, a));
        }
    }
    assert(after.mem().dom() =~= mark.domain@);
    assert(mark.domain@.subset_of(before.mem().dom())) by {
        assert forall|a: int| mark.domain@.contains(a) implies before.mem().contains_key(a) by {
            assert(after.mem().contains_key(a));
        }
    }
    // The marks that remain agree with what stays.
    assert forall|k: int| 0 <= k < after.marked@.len() implies after.mark_wf(
        #[trigger] after.marked@[k],
    ) by {
        let m = after.marked@[k];
        assert(before.marked@[k] == m);
        assert(before.mark_wf(before.marked@[k]));
        assert(before.marked@[k].mark_id < before.marked@[before.marked@.len() - 1].mark_id);
        let c = m.active_pages as int;
        assert(c <= n);
        assert(after.shape().caps.take(c) =~= before.shape().caps.take(c));
        if c > 0 {
            let d = c - 1;
            assert(after.shape().cursors.take(d) =~= before.shape().cursors.take(d));
        }
        assert forall|a: int|
            after.reach(c, m.cursor as int).contains(a) <==> before.reach(
                c,
                m.cursor as int,
            ).contains(a) by {
            if after.reach(c, m.cursor as int).contains(a) {
                let i = choose|i: int|
                    #![trigger after.order@[i]]
                    0 <= i < c && after.page(i).start() <= a < after.page(i).start() + (if i == c
                        - 1 {
                        m.cursor as int
                    } else {
                        after.page(i).cursor as int
                    });
                assert(after.order@[i] == before.order@[i]);
            }
            if before.reach(c, m.cursor as int).contains(a) {
                let i = choose|i: int|
                    #![trigger before.order@[i]]
                    0 <= i < c && before.page(i).start() <= a < before.page(i).start() + (if i == c
                        - 1 {
                        m.cursor as int
                    } else {
                        before.page(i).cursor as int
                    });
                assert(after.order@[i] == before.order@[i]);
            }
        }
        assert(after.reach(c, m.cursor as int) =~= before.reach(c, m.cursor as int));
    }
    assert forall|i: int, j: int| 0 <= i < j < after.marked@.len() implies {
        let a = #[trigger] after.marked@[i];
        let b = #[trigger] after.marked@[j];
        &&& a.mark_id < b.mark_id
        &&& a.active_pages < b.active_pages || (a.active_pages == b.active_pages && a.cursor
            <= b.cursor)
    } by {
        assert(before.marked@[i].mark_id < before.marked@[j].mark_id);
    }
    if after.governor is Some {
        assert forall|p: int| 0 <= p < after.pages@.len() implies (#[trigger] after.pages@[p]).granted() by {
            assert(occurs(after.order@, p));
            let i = choose|i: int| 0 <= i < after.order@.len() && #[trigger] after.order@[i] == p;
            assert(after.order@[i] == p);
            assert(before.pages@[p].granted());
        }
    }
}

impl<B: PageBackend> PagedArena<B> {
    /// An empty arena whose pages come from `backend`.
    pub fn with_backend(backend: B, arena_id: u64) -> (arena: Self)
        ensures
            arena.is_new(arena_id, FIRST_ADDRESS as int, MIN_PAGE_SIZE as int),
            arena.supplier() == backend,
            arena.governed() is None,
    {
        Self::with_parts(backend, None, arena_id, FIRST_ADDRESS, MIN_PAGE_SIZE)
    }

    /// An empty arena whose pages come from `backend` and are admitted by
    /// `governor`.
    pub fn with_backend_and_memory_governor(
        backend: B,
        governor: MemoryGovernor,
        arena_id: u64,
    ) -> (arena: Self)
        requires
            governor.wf(),
        ensures
            arena.is_new(arena_id, FIRST_ADDRESS as int, MIN_PAGE_SIZE as int),
            arena.supplier() == backend,
            arena.governed() == Some(governor@),
    {
        Self::with_parts(backend, Some(governor), arena_id, FIRST_ADDRESS, MIN_PAGE_SIZE)
    }

    pub fn governor_telemetry(&self) -> (telemetry: Option<MemoryGovernorTelemetry>)
        ensures
            telemetry == self.governed(),
    {
        match &self.governor {
            None => None,
            Some(governor) => Some(governor.telemetry()),
        }
    }

    pub fn metrics(&self) -> (metrics: ArenaMetrics)
        requires
            self.wf(),
        ensures
            metrics.used_bytes == self.shape().used(),
            metrics.reserved_bytes == self.shape().reserved(),
            metrics.used_bytes <= metrics.reserved_bytes,
    {
        proof {
            self.lemma_used_at_most_reserved();
        }
        ArenaMetrics { used_bytes: self.used_bytes, reserved_bytes: self.reserved_bytes }
    }

    pub fn telemetry_snapshot(&self) -> (snapshot: Option<ArenaTelemetrySnapshot>)
        requires
            self.wf(),
        ensures
            snapshot == Some(
                ArenaTelemetrySnapshot {
                    used_bytes: self.shape().used() as usize,
                    capacity_bytes: self.shape().reserved() as usize,
                    active_page_capacity_bytes: self.history().active_page_capacity_bytes,
                    inactive_page_capacity_bytes: (self.shape().reserved()
                        - self.history().active_page_capacity_bytes) as usize,
                    page_count: self.shape().caps.len() as usize,
                    active_page_count: self.shape().active as usize,
                    inactive_page_count: (self.shape().caps.len() - self.shape().active) as usize,
                    peak_used_bytes: self.history().peak_used_bytes,
                    peak_capacity_bytes: self.history().peak_capacity_bytes,
                    events: self.history().events,
                    last_rewind: self.history().last_rewind,
                },
            ),
    {
        let active_page_capacity_bytes: usize = self.telemetry.active_page_capacity_bytes;
        proof {
            assert forall|i: int| 0 <= i < self.shape().caps.len() implies
                #[trigger] self.shape().caps[i] >= 0 by {
                assert(self.pages@[self.order@[i] as int].wf());
            }
            lemma_sum_take_at_most(self.shape().caps, self.active_pages as int);
        }
        Some(
            ArenaTelemetrySnapshot {
                used_bytes: self.used_bytes,
                capacity_bytes: self.reserved_bytes,
                active_page_capacity_bytes,
                inactive_page_capacity_bytes: self.reserved_bytes - active_page_capacity_bytes,
                page_count: self.order.len(),
                active_page_count: self.active_pages,
                inactive_page_count: self.order.len() - self.active_pages,
                peak_used_bytes: self.telemetry.peak_used_bytes,
                peak_capacity_bytes: self.telemetry.peak_capacity_bytes,
                events: self.telemetry.events,
                last_rewind: self.telemetry.last_rewind,
            },
        )
    }

    /// Number of pages currently held.
    pub fn page_count(&self) -> (count: usize)
        requires
            self.wf(),
        ensures
            count == self.shape().caps.len(),
    {
        self.order.len()
    }

    /// Number of pages that serve allocations.
    pub fn active_page_count(&self) -> (count: usize)
        requires
            self.wf(),
        ensures
            count == self.shape().active,
    {
        self.active_pages
    }

    /// Capacity of the page that serves the next allocation.
    pub fn active_page_capacity(&self) -> (capacity: Option<usize>)
        requires
            self.wf(),
        ensures
            capacity is None <==> self.shape().active == 0,
            capacity matches Some(bytes) ==> bytes == self.shape().caps[self.shape().active - 1],
    {
        if self.active_pages == 0 {
            None
        } else {
            Some(self.pages[self.order[self.active_pages - 1]].capacity())
        }
    }

    /// What is used is at most what is reserved, and both can be counted.
    pub proof fn lemma_used_at_most_reserved(&self)
        requires
            self.wf(),
        ensures
            0 <= self.shape().used() <= self.shape().reserved() <= usize::MAX,
    {
        assert forall|i: int| 0 <= i < self.order@.len() implies #[trigger] self.shape().cursors[i]
            <= self.shape().caps[i] by {
            assert(self.pages@[self.order@[i] as int].wf());
        }
        lemma_sum_pointwise(self.shape().cursors, self.shape().caps);
    }

    /// What the pages leave of the address space.
    pub proof fn lemma_room(&self)
        requires
            self.wf(),
        ensures
            0 <= self.room() <= ADDRESS_SPAN,
            self.shape().caps.len() <= self.shape().reserved(),
            self.shape().taken() <= self.shape().reserved() + 31 * self.shape().caps.len(),
    {
        assert forall|i: int| 0 <= i < self.shape().caps.len() implies
            #[trigger] self.shape().caps[i] > 0 by {
            assert(self.pages@[self.order@[i] as int].wf());
        }
        lemma_footprints_bounded(self.shape().caps);
    }

    /// Every allocated address lies in the arena's own address space.
    pub proof fn lemma_address_space(&self)
        requires
            self.wf(),
        ensures
            forall|a: int| #[trigger]
                self.mem().contains_key(a) ==> self.first_address() <= a < self.first_address()
                    + ADDRESS_SPAN,
            16 <= self.first_address() <= 0x4000_0000_0000_0000,
    {
        assert forall|a: int| #[trigger] self.mem().contains_key(a) implies self.first_address()
            <= a < self.first_address() + ADDRESS_SPAN by {
            let p = page_of(self.pages@, a);
            assert(holds(self.pages@, p, a));
            assert(self.pages@[p].wf());
            assert(self.pages@[p].start() + self.pages@[p].cap() + 16 <= self.next_base);
        }
    }

    /// The page and the offset at which `len` allocated bytes from `address` on
    /// are found.
    fn locate(&self, address: u64, len: usize) -> (result: Option<(usize, usize)>)
        requires
            self.wf(),
            len > 0,
        ensures
            result is Some <==> has_range(self.mem(), address as int, len as int),
            result matches Some(found) ==> {
                &&& found.0 < self.pages@.len()
                &&& self.pages@[found.0 as int].start() + found.1 == address
                &&& found.1 + len <= self.pages@[found.0 as int].cursor
            },
    {
        let mut low: usize = 0;
        let mut high: usize = self.pages.len();
        while low < high
            invariant
                self.wf(),
                low <= high <= self.pages@.len(),
                forall|p: int| 0 <= p < low ==> #[trigger] self.pages@[p].start() <= address,
                forall|p: int|
                    high <= p < self.pages@.len() ==> #[trigger] self.pages@[p].start() > address,
            decreases high - low,
        {
            let middle: usize = low + (high - low) / 2;
            assert(self.pages@[middle as int].wf());
            if self.pages[middle].backing.base() <= address {
                proof {
                    assert forall|p: int| 0 <= p < middle + 1 implies
                        #[trigger] self.pages@[p].start() <= address by {
                        if p < middle {
                            assert(self.pages@[p].wf());
                            assert(self.pages@[p].start() + self.pages@[p].cap() + 16
                                <= self.pages@[middle as int].start());
                        }
                    }
                }
                low = middle + 1;
            } else {
                proof {
                    assert forall|p: int| middle <= p < self.pages@.len() implies
                        #[trigger] self.pages@[p].start() > address by {
                        if middle < p {
                            assert(self.pages@[middle as int].start()
                                + self.pages@[middle as int].cap() + 16 <= self.pages@[p].start());
                        }
                    }
                }
                high = middle;
            }
        }
        if low == 0 {
            proof {
                if has_range(self.mem(), address as int, len as int) {
                    assert(self.mem().contains_key(address as int));
                    let p = page_of(self.pages@, address as int);
                    assert(holds(self.pages@, p, address as int));
                    assert(self.pages@[p].start() > address);
                }
            }
            return None;
        }
        let index: usize = low - 1;
        assert(self.pages@[index as int].wf());
        let distance: u64 = address - self.pages[index].backing.base();
        let cursor: usize = self.pages[index].cursor;
        let limit: u64 = cursor as u64;
        let extent: u64 = len as u64;
        if distance < limit && extent <= limit - distance {
            let offset: usize = distance as usize;
            proof {
                assert forall|k: int| address <= k < address + len implies
                    #[trigger] self.mem().contains_key(k) by {
                    assert(holds(self.pages@, index as int, k));
                }
            }
            return Some((index, offset));
        }
        proof {
            if has_range(self.mem(), address as int, len as int) {
                assert(self.mem().contains_key(address as int));
                let p = page_of(self.pages@, address as int);
                assert(holds(self.pages@, p, address as int));
                assert(self.pages@[p].wf());
                assert(p < low) by {
                    if p >= low {
                        assert(self.pages@[p].start() > address);
                    }
                }
                if p < index {
                    assert(self.pages@[p].start() + self.pages@[p].cap() + 16
                        <= self.pages@[index as int].start());
                }
                assert(p == index);
                let k = self.pages@[p].start() + self.pages@[p].cursor;
                assert(self.mem().contains_key(k));
                let q = page_of(self.pages@, k);
                assert(holds(self.pages@, q, k));
                assert(self.pages@[q].wf());
                if q < p {
                    assert(self.pages@[q].start() + self.pages@[q].cap() + 16
                        <= self.pages@[p].start());
                }
                if p < q {
                    assert(self.pages@[p].start() + self.pages@[p].cap() + 16
                        <= self.pages@[q].start());
                }
            }
        }
        None
    }

    /// Whether `len` bytes from `address` on are allocated.
    pub fn contains(&self, address: u64, len: usize) -> (found: bool)
        requires
            self.wf(),
        ensures
            found == has_range(self.mem(), address as int, len as int),
    {
        if len == 0 {
            true
        } else {
            self.locate(address, len).is_some()
        }
    }

    /// The `len` bytes from `address` on, if they are all allocated.
    pub fn read(&self, address: u64, len: usize) -> (result: Option<Vec<u8>>)
        requires
            self.wf(),
        ensures
            result is Some <==> has_range(self.mem(), address as int, len as int),
            result matches Some(bytes) ==> bytes@ == bytes_at(
                self.mem(),
                address as int,
                len as nat,
            ),
    {
        let mut bytes: Vec<u8> = Vec::new();
        if len == 0 {
            assert(bytes@ =~= bytes_at(self.mem(), address as int, 0));
            return Some(bytes);
        }
        match self.locate(address, len) {
            None => None,
            Some((index, offset)) => {
                let memory: &[u8] = self.pages[index].backing.bytes();
                let mut at: usize = 0;
                while at < len
                    invariant
                        self.wf(),
                        at <= len,
                        index < self.pages@.len(),
                        memory@ == self.pages@[index as int].memory(),
                        self.pages@[index as int].start() + offset == address,
                        offset + len <= self.pages@[index as int].cursor,
                        bytes@ == bytes_at(self.mem(), address as int, at as nat),
                    decreases len - at,
                {
                    assert(self.pages@[index as int].wf());
                    bytes.push(memory[offset + at]);
                    proof {
                        lemma_mem_at(self.pages@, index as int, address + at);
                        assert(bytes@ =~= bytes_at(self.mem(), address as int, (at + 1) as nat));
                    }
                    at = at + 1;
                }
                Some(bytes)
            },
        }
    }

    /// Stores `bytes` from `address` on, if the whole range is allocated.
    pub fn write(&mut self, address: u64, bytes: &[u8]) -> (stored: bool)
        requires
            old(self).wf(),
        ensures
            final(self).continues(*old(self)),
            final(self).shape() == old(self).shape(),
            final(self).history() == old(self).history(),
            final(self).governed() == old(self).governed(),
            stored == has_range(old(self).mem(), address as int, bytes@.len() as int),
            !stored ==> *final(self) == *old(self),
            final(self).mem() == if stored {
                overwritten(old(self).mem(), address as int, bytes@)
            } else {
                old(self).mem()
            },
    {
        let ghost before = *self;
        let len: usize = bytes.len();
        if len == 0 {
            assert(overwritten(before.mem(), address as int, bytes@) =~= before.mem());
            return true;
        }
        match self.locate(address, len) {
            None => false,
            Some((index, offset)) => {
                let mut at: usize = 0;
                while at < len
                    invariant
                        before.wf(),
                        at <= len,
                        len == bytes@.len(),
                        index < before.pages@.len(),
                        before.pages@[index as int].start() + offset == address,
                        offset + len <= before.pages@[index as int].cursor,
                        *self == (PagedArena { pages: self.pages, ..before }),
                        self.pages@.len() == before.pages@.len(),
                        forall|q: int|
                            0 <= q < before.pages@.len() && q != index ==> #[trigger] self.pages@[q]
                                == before.pages@[q],
                        self.pages@[index as int].cursor == before.pages@[index as int].cursor,
                        self.pages@[index as int].reservation
                            == before.pages@[index as int].reservation,
                        self.pages@[index as int].start() == before.pages@[index as int].start(),
                        self.pages@[index as int].cap() == before.pages@[index as int].cap(),
                        forall|i: int|
                            0 <= i < self.pages@[index as int].cap()
                                ==> #[trigger] self.pages@[index as int].memory()[i] == if offset
                                <= i < offset + at {
                                bytes@[i - offset]
                            } else {
                                before.pages@[index as int].memory()[i]
                            },
                    decreases len - at,
                {
                    assert(before.pages@[index as int].wf());
                    self.pages[index].backing.set(offset + at, bytes[at]);
                    at = at + 1;
                }
                proof {
                    lemma_mem_write(before, *self, index as int, offset as int, bytes@);
                }
                true
            },
        }
    }

    /// Gives every page back to its backend and every grant to the governor,
    /// and hands the governor back.
    pub fn release(self) -> (governor: Option<MemoryGovernor>)
        requires
            self.wf(),
        ensures
            governor is Some <==> self.governed() is Some,
            governor matches Some(governor) ==> {
                &&& governor.wf()
                &&& governor@ == governor_released_pages(
                    self.governed()->0,
                    self.shape().reserved(),
                    self.shape().caps.len() as int,
                )
            },
    {
        let ghost whole = self.pages@;
        let ghost reserved = self.reserved_bytes as int;
        let ghost start = self.governed();
        let mut governor: Option<MemoryGovernor> = self.governor;
        let mut pages: Vec<Page<B>> = self.pages;
        assert(whole.len() == pages.len());
        while pages.len() > 0
            invariant
                governor is Some <==> start is Some,
                forall|p: int| 0 <= p < pages@.len() ==> #[trigger] pages@[p].wf(),
                governor matches Some(governor) ==> {
                    &&& governor.wf()
                    &&& forall|p: int|
                        0 <= p < pages@.len() ==> (#[trigger] pages@[p]).granted()
                    &&& 0 <= sum(grants_of(pages@)) <= reserved
                    &&& reserved <= start->0.current_capacity_bytes
                    &&& governor@ == governor_released_pages(
                        start->0,
                        reserved - sum(grants_of(pages@)),
                        whole.len() - pages@.len(),
                    )
                },
                pages@.len() <= whole.len() <= usize::MAX,
            decreases pages@.len(),
        {
            let ghost held = pages@;
            if let Some(page) = pages.pop() {
                let ghost last = page;
                proof {
                    assert(held =~= pages@.push(last));
                    assert(grants_of(held) =~= grants_of(pages@).push(last.grant()));
                    lemma_sum_push(grants_of(pages@), last.grant());
                    lemma_grants_nonnegative(pages@);
                }
                if let Some(grant) = page.reservation {
                    match &mut governor {
                        None => {},
                        Some(governor) => {
                            governor.release(grant);
                        },
                    }
                }
                page.backing.release();
            }
        }
        proof {
            assert(grants_of(pages@) =~= Seq::<int>::empty());
        }
        governor
    }
}

proof fn lemma_grants_nonnegative<B: PageBackend>(pages: Seq<Page<B>>)
    ensures
        sum(grants_of(pages)) >= 0,
{
    lemma_sum_take_at_most(grants_of(pages), pages.len() as int);
}

/// Storing bytes below the cursor of one page overwrites the memory there.
proof fn lemma_mem_write<B: PageBackend>(
    before: PagedArena<B>,
    after: PagedArena<B>,
    p: int,
    offset: int,
    bytes: Seq<u8>,
)
    requires
        before.wf(),
        0 <= p < before.pages@.len(),
        0 <= offset,
        offset + bytes.len() <= before.pages@[p].cursor,
        after == (PagedArena { pages: after.pages, ..before }),
        after.pages@.len() == before.pages@.len(),
        forall|q: int|
            0 <= q < before.pages@.len() && q != p ==> #[trigger] after.pages@[q]
                == before.pages@[q],
        after.pages@[p].cursor == before.pages@[p].cursor,
        after.pages@[p].reservation == before.pages@[p].reservation,
        after.pages@[p].start() == before.pages@[p].start(),
        after.pages@[p].cap() == before.pages@[p].cap(),
        forall|i: int|
            0 <= i < after.pages@[p].cap() ==> #[trigger] after.pages@[p].memory()[i] == if offset
                <= i < offset + bytes.len() {
                bytes[i - offset]
            } else {
                before.pages@[p].memory()[i]
            },
    ensures
        after.wf(),
        after.shape() == before.shape(),
        after.mem() == overwritten(before.mem(), before.pages@[p].start() + offset, bytes),
{
    assert(before.pages@[p].wf());
    assert(after.pages@[p].wf());
    assert forall|q: int| 0 <= q < after.pages@.len() implies #[trigger] after.pages@[q].wf()
        && after.pages@[q].start() == before.pages@[q].start() && after.pages@[q].cap()
        == before.pages@[q].cap() && after.pages@[q].cursor == before.pages@[q].cursor by {
        assert(before.pages@[q].wf());
    }
    assert(apart(after.pages@)) by {
        assert forall|i: int, j: int|
            #![trigger after.pages@[i], after.pages@[j]]
            0 <= i < j < after.pages@.len() implies after.pages@[i].start() + after.pages@[i].cap()
            + 16 <= after.pages@[j].start() by {
            assert(before.pages@[i].start() + before.pages@[i].cap() + 16
                <= before.pages@[j].start());
        }
    }
    assert forall|q: int| 0 <= q < after.pages@.len() implies after.origin
        <= #[trigger] after.pages@[q].start() && after.pages@[q].start() + after.pages@[q].cap()
        + 16 <= after.next_base by {
        assert(after.pages@[q].wf());
        assert(before.pages@[q].start() + before.pages@[q].cap() + 16 <= before.next_base);
    }
    assert forall|i: int| after.active_pages <= i < after.order@.len() implies
        after.pages@[#[trigger] after.order@[i] as int].cursor == 0 by {
        assert(after.pages@[after.order@[i] as int].wf());
        assert(before.pages@[before.order@[i] as int].cursor == 0);
    }
    assert(after.shape().caps =~= before.shape().caps) by {
        assert forall|i: int| 0 <= i < after.order@.len() implies after.shape().caps[i]
            == before.shape().caps[i] by {
            assert(after.pages@[after.order@[i] as int].wf());
        }
    }
    assert(after.shape().cursors =~= before.shape().cursors) by {
        assert forall|i: int| 0 <= i < after.order@.len() implies after.shape().cursors[i]
            == before.shape().cursors[i] by {
            assert(after.pages@[after.order@[i] as int].wf());
        }
    }
    assert(grants_of(after.pages@) =~= grants_of(before.pages@)) by {
        assert forall|q: int| 0 <= q < after.pages@.len() implies grants_of(after.pages@)[q]
            == grants_of(before.pages@)[q] by {
            if q != p {
                assert(after.pages@[q] == before.pages@[q]);
            }
        }
    }
    assert forall|i: int| 0 <= i < before.active_pages implies {
        &&& #[trigger] after.order@[i] == before.order@[i]
        &&& after.page(i).start() == before.page(i).start()
        &&& after.page(i).cap() == before.page(i).cap()
        &&& after.page(i).cursor >= before.page(i).cursor
        &&& i < before.active_pages - 1 ==> after.page(i).cursor == before.page(i).cursor
    } by {
        assert(after.pages@[after.order@[i] as int].wf());
    }
    lemma_marks_kept(before, after);
    let start = before.pages@[p].start() + offset;
    let target = overwritten(before.mem(), start, bytes);
    assert forall|a: int| #[trigger] after.mem().contains_key(a) <==> target.contains_key(a) by {
        if after.mem().contains_key(a) {
            let q = page_of(after.pages@, a);
            assert(holds(after.pages@, q, a));
            assert(after.pages@[q].wf());
            assert(holds(before.pages@, q, a));
        }
        if before.mem().contains_key(a) {
            let q = page_of(before.pages@, a);
            assert(holds(before.pages@, q, a));
            assert(after.pages@[q].wf());
            assert(holds(after.pages@, q, a));
        }
    }
    assert forall|a: int| #[trigger] after.mem().contains_key(a) implies after.mem()[a]
        == target[a] by {
        let q = page_of(after.pages@, a);
        assert(holds(after.pages@, q, a));
        assert(after.pages@[q].wf());
        assert(holds(before.pages@, q, a));
        lemma_mem_at(after.pages@, q, a);
        lemma_mem_at(before.pages@, q, a);
        if q != p {
            assert(after.pages@[q] == before.pages@[q]);
            if start <= a < start + bytes.len() {
                assert(holds(before.pages@, p, a));
                lemma_mem_at(before.pages@, p, a);
            }
        } else {
            assert(after.pages@[p].memory()[a - after.pages@[p].start()] == if offset <= a
                - after.pages@[p].start() < offset + bytes.len() {
                bytes[a - after.pages@[p].start() - offset]
            } else {
                before.pages@[p].memory()[a - after.pages@[p].start()]
            });
        }
    }
    assert(after.mem() =~= target);
}

impl PagedArena<SystemAllocatorPageBackend> {
    /// An empty arena with an address space of its own.
    pub fn new(arena_id: u64) -> (arena: Self)
        ensures
            arena.is_new(arena_id, FIRST_ADDRESS as int, MIN_PAGE_SIZE as int),
            arena.governed() is None,
    {
        Self::with_parts(default_page_backend(), None, arena_id, FIRST_ADDRESS, MIN_PAGE_SIZE)
    }

    /// An empty arena whose addresses start at `first_address`, and whose first
    /// regular page has `first_capacity` bytes.
    pub fn with_first_page(arena_id: u64, first_address: u64, first_capacity: usize) -> (arena: Self)
        requires
            first_address % 16 == 0,
            16 <= first_address <= 0x4000_0000_0000_0000,
            0 < first_capacity <= DEFAULT_PAGE_SIZE,
        ensures
            arena.is_new(arena_id, first_address as int, first_capacity as int),
            arena.governed() is None,
    {
        Self::with_parts(default_page_backend(), None, arena_id, first_address, first_capacity)
    }

    /// An empty arena whose pages are admitted by `governor`.
    pub fn with_memory_governor(governor: MemoryGovernor, arena_id: u64) -> (arena: Self)
        requires
            governor.wf(),
        ensures
            arena.is_new(arena_id, FIRST_ADDRESS as int, MIN_PAGE_SIZE as int),
            arena.governed() == Some(governor@),
    {
        Self::with_parts(default_page_backend(), Some(governor), arena_id, FIRST_ADDRESS, MIN_PAGE_SIZE)
    }
}


/// Addresses outlast memory: while the pages of an arena and one more have at most
/// 2^55 bytes, there are addresses for that page.
pub proof fn law_addresses_outlast_memory<B: PageBackend>(arena: PagedArena<B>, capacity: int)
    requires
        arena.wf(),
        capacity > 0,
        arena.shape().reserved() + capacity <= 0x80_0000_0000_0000,
    ensures
        arena.has_room(capacity),
        arena.room() >= ADDRESS_SPAN - arena.shape().reserved() - 31 * arena.shape().caps.len(),
{
    arena.lemma_room();
}

/// Two allocations that are both live share no address.
pub proof fn law_allocations_do_not_overlap<B: PageBackend>(
    start: PagedArena<B>,
    middle: PagedArena<B>,
    end: PagedArena<B>,
    first: u64,
    first_size: int,
    second: u64,
    second_size: int,
    align: int,
)
    requires
        first_size > 0,
        second_size > 0,
        exists|a: int| middle.placed_at(start, first, first_size, a),
        end.placed_at(middle, second, second_size, align),
    ensures
        first + first_size <= second || second + second_size <= first,
{
    if first + first_size > second && second + second_size > first {
        let shared = greater(first as int, second as int);
        assert(middle.mem().contains_key(shared));
        assert(!middle.mem().contains_key(shared));
    }
}

/// Rewinding to a mark undoes whatever was allocated and stored since: memory
/// that was allocated when the mark was taken is allocated again with the same
/// bytes, and nothing else is.
pub proof fn law_rewind_undoes_allocation(
    m: Map<int, u8>,
    start: int,
    n: int,
    at: int,
    bytes: Seq<u8>,
)
    requires
        lacks_range(m, start, n),
        start <= at,
        at + bytes.len() <= start + n,
    ensures
        extended(m, start, n).restrict(m.dom()) == m,
        overwritten(extended(m, start, n), at, bytes).restrict(m.dom()) == m,
{
    assert(extended(m, start, n).restrict(m.dom()) =~= m) by {
        assert forall|k: int| #[trigger] m.contains_key(k) implies extended(m, start, n)[k]
            == m[k] by {}
    }
    let w = overwritten(extended(m, start, n), at, bytes);
    assert(w.restrict(m.dom()) =~= m) by {
        assert forall|k: int| #[trigger] m.contains_key(k) implies w[k] == m[k] by {}
    }
}

/// An arena never gives capacity back while it lives: no allocation path and no
/// rewind lowers the reserved total, and only a new page raises it.
pub proof fn law_reserved_never_decreases(
    shape: ArenaShape,
    size: int,
    align: int,
    j: int,
    capacity: int,
    active: int,
    cursor: int,
)
    requires
        0 <= shape.active <= shape.caps.len(),
        capacity > 0,
    ensures
        shape.bumped(size, align).reserved() == shape.reserved(),
        shape.active <= j < shape.caps.len() ==> shape.reused(j, size).reserved()
            == shape.reserved(),
        shape.grown(capacity, size).reserved() == shape.reserved() + capacity,
        shape.rewound(active, cursor).reserved() == shape.reserved(),
{
    if shape.active <= j < shape.caps.len() {
        lemma_sum_exchanged(shape.caps, shape.active, j);
    }
    lemma_sum_push(shape.caps, capacity);
    lemma_sum_exchanged(shape.caps.push(capacity), shape.active, shape.caps.len() as int);
}

/// Rewinding right after an allocation restores every cursor, whichever way the
/// allocation was served.
pub proof fn law_rewind_restores_cursors(
    shape: ArenaShape,
    size: int,
    align: int,
    j: int,
    capacity: int,
)
    requires
        0 <= shape.active <= shape.caps.len(),
        shape.cursors.len() == shape.caps.len(),
        forall|i: int| shape.active <= i < shape.cursors.len() ==> shape.cursors[i] == 0,
    ensures
        ({
            let cursor = if shape.active == 0 {
                0
            } else {
                shape.cursors[shape.active - 1]
            };
            &&& shape.active > 0 ==> shape.bumped(size, align).rewound(shape.active, cursor)
                == shape
            &&& shape.active <= j < shape.caps.len() ==> shape.reused(j, size).rewound(
                shape.active,
                cursor,
            ).cursors == shape.cursors
            &&& shape.grown(capacity, size).rewound(shape.active, cursor).cursors
                == shape.cursors.push(0)
        }),
{
    let cursor = if shape.active == 0 {
        0
    } else {
        shape.cursors[shape.active - 1]
    };
    if shape.active > 0 {
        assert(shape.bumped(size, align).rewound(shape.active, cursor) =~= shape);
    }
    if shape.active <= j < shape.caps.len() {
        assert(shape.reused(j, size).rewound(shape.active, cursor).cursors =~= shape.cursors);
    }
    assert(shape.grown(capacity, size).rewound(shape.active, cursor).cursors
        =~= shape.cursors.push(0));
}

} // verus!
