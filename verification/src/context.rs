//! Per-execution ownership: the arenas, the first error, and the statistics of
//! one invocation.

use vstd::prelude::*;

use crate::arena::{
    valid_align, ArenaAllocError, ArenaMark, ArenaMetrics, PagedArena, SystemAllocatorPageBackend,
    DEFAULT_PAGE_SIZE, FIRST_ADDRESS, MIN_PAGE_SIZE,
};
use crate::filesystem::{
    content_reply, paths_reply, FileCall, FileSystemBackend, FileSystemError, PathOperation,
};
use crate::io::{
    line_text, reply_text, ConsoleBackend, ConsoleCall, MemoryConsoleBackend, ReadLineResult,
};
use crate::io_error::HostIoError;
use crate::memory::{bytes_at, extended, has_range, lacks_range, overwritten};
use crate::numbers::{lemma_shows, lemma_shows_more, shows};
use crate::text::{decimal, push_decimal};

verus! {

/// First address of every context's temporary arena.
pub const TEMPORARY_ADDRESS: u64 = 0x4000_0000_0000_0000;

/// Immutable snapshot of allocation metrics for one execution.
#[derive(Clone, Copy, Debug, PartialEq, Eq, Structural)]
pub struct MemoryStats {
    pub total_allocations: u64,
    pub object_allocations: u64,
    pub array_allocations: u64,
    pub string_allocations: u64,
    pub requested_bytes: u64,
    pub used_bytes: u64,
    pub reserved_bytes: u64,
    pub peak_used_bytes: u64,
    pub peak_reserved_bytes: u64,
}

/// The metrics of an execution that has allocated nothing.
pub open spec fn no_stats() -> MemoryStats {
    MemoryStats {
        total_allocations: 0,
        object_allocations: 0,
        array_allocations: 0,
        string_allocations: 0,
        requested_bytes: 0,
        used_bytes: 0,
        reserved_bytes: 0,
        peak_used_bytes: 0,
        peak_reserved_bytes: 0,
    }
}

impl Default for MemoryStats {
    fn default() -> (stats: Self)
        ensures
            stats == no_stats(),
    {
        MemoryStats {
            total_allocations: 0,
            object_allocations: 0,
            array_allocations: 0,
            string_allocations: 0,
            requested_bytes: 0,
            used_bytes: 0,
            reserved_bytes: 0,
            peak_used_bytes: 0,
            peak_reserved_bytes: 0,
        }
    }
}

/// What an allocation is counted as.
#[derive(Clone, Copy, Debug, PartialEq, Eq, Structural)]
pub enum AllocationCategory {
    Object,
    Array,
    String,
}

/// `stats` with the current usage, and the peaks raised to it.
pub open spec fn with_usage(stats: MemoryStats, used: int, reserved: int) -> MemoryStats {
    MemoryStats {
        used_bytes: used as u64,
        reserved_bytes: reserved as u64,
        peak_used_bytes: if stats.peak_used_bytes >= used {
            stats.peak_used_bytes
        } else {
            used as u64
        },
        peak_reserved_bytes: if stats.peak_reserved_bytes >= reserved {
            stats.peak_reserved_bytes
        } else {
            reserved as u64
        },
        ..stats
    }
}

/// `stats` with one more logical allocation of `requested` bytes.
pub open spec fn with_allocation(
    stats: MemoryStats,
    category: AllocationCategory,
    requested: int,
) -> MemoryStats {
    let counted = MemoryStats {
        total_allocations: stats.total_allocations.wrapping_add(1),
        requested_bytes: stats.requested_bytes.wrapping_add(requested as u64),
        ..stats
    };
    match category {
        AllocationCategory::Object => MemoryStats {
            object_allocations: stats.object_allocations.wrapping_add(1),
            ..counted
        },
        AllocationCategory::Array => MemoryStats {
            array_allocations: stats.array_allocations.wrapping_add(1),
            ..counted
        },
        AllocationCategory::String => MemoryStats {
            string_allocations: stats.string_allocations.wrapping_add(1),
            ..counted
        },
    }
}

/// How many allocations were counted, and how many bytes they asked for: the numbers
/// of [`MemoryStats`] without a largest number that they start over from.
pub struct Tally {
    pub objects: nat,
    pub arrays: nat,
    pub strings: nat,
    pub requested: nat,
}

impl Tally {
    /// The tally after one more allocation of `bytes` bytes.
    pub open spec fn with(self, category: AllocationCategory, bytes: nat) -> Tally {
        let counted = Tally { requested: self.requested + bytes, ..self };
        match category {
            AllocationCategory::Object => Tally { objects: self.objects + 1, ..counted },
            AllocationCategory::Array => Tally { arrays: self.arrays + 1, ..counted },
            AllocationCategory::String => Tally { strings: self.strings + 1, ..counted },
        }
    }

    /// Nothing of `before` was taken back.
    pub open spec fn extends(self, before: Tally) -> bool {
        &&& self.objects >= before.objects
        &&& self.arrays >= before.arrays
        &&& self.strings >= before.strings
        &&& self.requested >= before.requested
    }

    /// `stats` holds these numbers, each counted up to the largest number there is
    /// and from zero again.
    pub open spec fn shown_by(self, stats: MemoryStats) -> bool {
        &&& shows(stats.total_allocations, (self.objects + self.arrays + self.strings) as int)
        &&& shows(stats.object_allocations, self.objects as int)
        &&& shows(stats.array_allocations, self.arrays as int)
        &&& shows(stats.string_allocations, self.strings as int)
        &&& shows(stats.requested_bytes, self.requested as int)
    }
}

/// Statistics that agree with themselves: what is in use is reserved, and no peak is
/// below what it is the peak of.
pub open spec fn adds_up(stats: MemoryStats) -> bool {
    &&& stats.used_bytes <= stats.reserved_bytes
    &&& stats.used_bytes <= stats.peak_used_bytes
    &&& stats.reserved_bytes <= stats.peak_reserved_bytes
}

/// Opaque checkpoint for the temporary arena owned by one execution context.
/// Rewinding consumes it, so the same checkpoint cannot be applied twice.
#[must_use]
pub struct TemporaryArenaMark {
    mark: ArenaMark,
}

impl TemporaryArenaMark {
    /// The arena checkpoint.
    pub closed spec fn inner(&self) -> ArenaMark {
        self.mark
    }
}

/// What makes one context distinct from every other: the identities of its
/// arenas, and the seed and owner number of its dictionaries. The host draws
/// the numbers.
#[derive(Clone, Copy, Debug)]
pub struct ContextIdentity {
    pub persistent_arena_id: u64,
    pub temporary_arena_id: u64,
    pub dictionary_hash_k0: u64,
    pub dictionary_hash_k1: u64,
    pub dictionary_owner_id: u64,
}

/// The capacity of the first regular page of an arena. An execution without a
/// memory limit starts with whole default pages.
pub open spec fn first_page_capacity(settings: ContextSettings) -> int {
    if settings.memory_limit == usize::MAX {
        DEFAULT_PAGE_SIZE as int
    } else {
        MIN_PAGE_SIZE as int
    }
}

/// Owns every dynamic allocation made by one invocation. Persistent allocations
/// live in one arena; function-local objects, arrays, and strings can use the
/// other, whose scopes rewind on return.
pub struct ExecutionContext {
    arena: PagedArena<SystemAllocatorPageBackend>,
    temporary_arena: PagedArena<SystemAllocatorPageBackend>,
    temporary_scopes: Vec<TemporaryArenaMark>,
    error: Option<String>,
    stats: MemoryStats,
    tally: Ghost<Tally>,
    settings: ContextSettings,
    devices: HostDevices,
}

/// The devices of the host that a context uses until others are injected.
pub struct HostDevices {
    pub console: Box<dyn ConsoleBackend>,
    pub filesystem: Box<dyn FileSystemBackend>,
}

/// What stays the same while a context allocates.
#[derive(Clone, Copy, Debug)]
pub struct ContextSettings {
    pub identity: ContextIdentity,
    pub collect_stats: bool,
    pub memory_limit: usize,
    /// Opaque host extension registered for this execution.
    pub task_runtime: Option<usize>,
}

/// The error that is recorded once `text` has been reported: the first one
/// wins.
pub open spec fn first_error(error: Option<Seq<char>>, text: Seq<char>) -> Option<Seq<char>> {
    match error {
        Some(_) => error,
        None => Some(text),
    }
}

/// What is reported when an arena cannot serve a request.
pub open spec fn arena_error_text(error: ArenaAllocError) -> Seq<char> {
    match error {
        ArenaAllocError::AddressSpace => "allocation exceeds the addressable range"@,
        ArenaAllocError::Limit => "allocation exceeds the execution memory limit"@,
        ArenaAllocError::SharedLimit { hard_limit_bytes } =>
            "allocation exceeds the shared memory limit of "@ + decimal(hard_limit_bytes as nat)
            + " bytes"@,
        ArenaAllocError::OutOfMemory => "the host has no memory left for the allocation"@,
    }
}

fn arena_error_message(error: ArenaAllocError) -> (message: String)
    ensures
        message@ == arena_error_text(error),
{
    match error {
        ArenaAllocError::AddressSpace => "allocation exceeds the addressable range".to_owned(),
        ArenaAllocError::Limit => "allocation exceeds the execution memory limit".to_owned(),
        ArenaAllocError::SharedLimit { hard_limit_bytes } => {
            let mut message: String = "allocation exceeds the shared memory limit of ".to_owned();
            push_decimal(&mut message, hard_limit_bytes);
            message.append(" bytes");
            message
        },
        ArenaAllocError::OutOfMemory =>
            "the host has no memory left for the allocation".to_owned(),
    }
}

impl ExecutionContext {
    pub closed spec fn persistent(&self) -> PagedArena<SystemAllocatorPageBackend> {
        self.arena
    }

    pub closed spec fn temporary(&self) -> PagedArena<SystemAllocatorPageBackend> {
        self.temporary_arena
    }

    /// The arena that a request goes to.
    pub open spec fn region(&self, temporary: bool) -> PagedArena<SystemAllocatorPageBackend> {
        if temporary {
            self.temporary()
        } else {
            self.persistent()
        }
    }

    /// The temporary scopes that were entered and not left, outermost first.
    pub closed spec fn scopes(&self) -> Seq<ArenaMark> {
        Seq::new(self.temporary_scopes@.len(), |i: int| self.temporary_scopes@[i].mark)
    }

    /// The recorded error.
    pub closed spec fn error_text(&self) -> Option<Seq<char>> {
        match self.error {
            Some(text) => Some(text@),
            None => None,
        }
    }

    pub closed spec fn memory_statistics(&self) -> MemoryStats {
        self.stats
    }

    /// What was counted since the context was made.
    pub closed spec fn tally(&self) -> Tally {
        self.tally@
    }

    pub closed spec fn configuration(&self) -> ContextSettings {
        self.settings
    }

    /// The devices that are installed.
    pub closed spec fn installed(&self) -> HostDevices {
        self.devices
    }

    /// What was asked of the console that is installed, and what it replied.
    pub open spec fn console_calls(&self) -> Seq<ConsoleCall> {
        self.installed().console.calls()
    }

    /// What was asked of the filesystem that is installed, and what it replied.
    pub open spec fn file_calls(&self) -> Seq<FileCall> {
        self.installed().filesystem.calls()
    }

    /// All memory that is allocated, in either arena.
    pub open spec fn mem(&self) -> Map<int, u8> {
        self.persistent().mem().union_prefer_right(self.temporary().mem())
    }

    /// Bytes in use in both arenas.
    pub open spec fn used(&self) -> int {
        self.persistent().shape().used() + self.temporary().shape().used()
    }

    /// Capacity reserved by both arenas.
    pub open spec fn reserved(&self) -> int {
        self.persistent().shape().reserved() + self.temporary().shape().reserved()
    }

    /// Both arenas are well formed, each in its own address space.
    pub open spec fn arenas_wf(&self) -> bool {
        &&& self.persistent().wf()
        &&& self.temporary().wf()
        &&& self.persistent().first_address() == FIRST_ADDRESS
        &&& self.temporary().first_address() == TEMPORARY_ADDRESS
        &&& self.persistent().governed() is None
        &&& self.temporary().governed() is None
    }

    /// The statistics show what was counted and agree with themselves. A context
    /// that collects none has those of an execution that has allocated nothing.
    pub open spec fn statistics_wf(&self) -> bool {
        if self.configuration().collect_stats {
            self.tally().shown_by(self.memory_statistics()) && adds_up(self.memory_statistics())
        } else {
            self.memory_statistics() == no_stats()
        }
    }

    /// The invariant that every operation keeps.
    pub open spec fn wf(&self) -> bool {
        &&& self.arenas_wf()
        &&& self.reserved() <= self.configuration().memory_limit
        &&& self.statistics_wf()
    }

    /// Whether every outstanding temporary mark belongs to a scope.
    pub open spec fn scoped(&self) -> bool {
        self.temporary().marks() == self.scopes()
    }

    /// Whether nothing that was counted in `before` was taken back, and no peak fell.
    pub open spec fn counts_on(&self, before: Self) -> bool {
        &&& self.tally().extends(before.tally())
        &&& self.memory_statistics().peak_used_bytes >= before.memory_statistics().peak_used_bytes
        &&& self.memory_statistics().peak_reserved_bytes
            >= before.memory_statistics().peak_reserved_bytes
    }

    /// Whether `self` is `before` at a later time: it has the same configuration and
    /// the same devices, and counts on from it.
    pub open spec fn carries_on(&self, before: Self) -> bool {
        &&& self.configuration() == before.configuration()
        &&& self.installed() == before.installed()
        &&& self.counts_on(before)
    }

    /// Whether `self` differs from `before` at most in the recorded error.
    pub open spec fn same_store(&self, before: Self) -> bool {
        &&& self.carries_on(before)
        &&& self.persistent() == before.persistent()
        &&& self.temporary() == before.temporary()
        &&& self.scopes() == before.scopes()
        &&& self.memory_statistics() == before.memory_statistics()
    }

    /// What a report makes of the context `before`: it is recorded, or nothing
    /// happens where there is none.
    pub open spec fn reported(&self, before: Self, report: Option<Seq<char>>) -> bool {
        match report {
            Some(text) => self.only_failed(before, text),
            None => *self == before,
        }
    }

    /// Whether nothing but the report of `text` happened since `before`.
    pub open spec fn only_failed(&self, before: Self, text: Seq<char>) -> bool {
        &&& self.same_store(before)
        &&& self.error_text() == first_error(before.error_text(), text)
    }

    /// Whether nothing happened since `before`.
    pub open spec fn unchanged(&self, before: Self) -> bool {
        &&& self.same_store(before)
        &&& self.error_text() == before.error_text()
    }

    fn with_settings(settings: ContextSettings, devices: HostDevices) -> (context: Self)
        ensures
            context.is_new(settings, devices),
    {
        let first_capacity: usize = if settings.memory_limit == usize::MAX {
            DEFAULT_PAGE_SIZE
        } else {
            MIN_PAGE_SIZE
        };
        let context = ExecutionContext {
            arena: PagedArena::with_first_page(
                settings.identity.persistent_arena_id,
                FIRST_ADDRESS,
                first_capacity,
            ),
            temporary_arena: PagedArena::with_first_page(
                settings.identity.temporary_arena_id,
                TEMPORARY_ADDRESS,
                first_capacity,
            ),
            temporary_scopes: Vec::new(),
            error: None,
            stats: MemoryStats::default(),
            tally: Ghost(Tally { objects: 0, arrays: 0, strings: 0, requested: 0 }),
            settings,
            devices,
        };
        proof {
            lemma_shows(0, 0);
            assert(context.scopes() =~= Seq::<ArenaMark>::empty());
            assert(context.mem() =~= Map::<int, u8>::empty());
        }
        context
    }

    /// What holds of a context that has done nothing yet.
    pub open spec fn is_new(&self, settings: ContextSettings, devices: HostDevices) -> bool {
        &&& self.wf()
        &&& self.scoped()
        &&& self.persistent().is_new(
            settings.identity.persistent_arena_id,
            FIRST_ADDRESS as int,
            first_page_capacity(settings),
        )
        &&& self.temporary().is_new(
            settings.identity.temporary_arena_id,
            TEMPORARY_ADDRESS as int,
            first_page_capacity(settings),
        )
        &&& self.mem() == Map::<int, u8>::empty()
        &&& self.scopes() == Seq::<ArenaMark>::empty()
        &&& self.error_text() is None
        &&& self.memory_statistics() == no_stats()
        &&& self.configuration() == settings
        &&& self.installed() == devices
    }

    /// A context that collects no statistics.
    pub fn new(identity: ContextIdentity, devices: HostDevices) -> (context: Self)
        ensures
            context.is_new(
                (ContextSettings {
                    identity,
                    collect_stats: false,
                    memory_limit: usize::MAX,
                    task_runtime: None,
                }),
                devices,
            ),
    {
        Self::with_settings(
            ContextSettings {
                identity,
                collect_stats: false,
                memory_limit: usize::MAX,
                task_runtime: None,
            },
            devices,
        )
    }

    /// A context that collects statistics.
    pub fn with_stats(identity: ContextIdentity, devices: HostDevices) -> (context: Self)
        ensures
            context.is_new(
                (ContextSettings {
                    identity,
                    collect_stats: true,
                    memory_limit: usize::MAX,
                    task_runtime: None,
                }),
                devices,
            ),
    {
        Self::with_settings(
            ContextSettings {
                identity,
                collect_stats: true,
                memory_limit: usize::MAX,
                task_runtime: None,
            },
            devices,
        )
    }

    /// A context whose arenas together reserve at most `memory_limit` bytes.
    pub fn with_memory_limit(
        identity: ContextIdentity,
        memory_limit: usize,
        devices: HostDevices,
    ) -> (context: Self)
        ensures
            context.is_new(
                (ContextSettings {
                    identity,
                    collect_stats: false,
                    memory_limit,
                    task_runtime: None,
                }),
                devices,
            ),
    {
        Self::with_settings(
            ContextSettings { identity, collect_stats: false, memory_limit, task_runtime: None },
            devices,
        )
    }

    /// Hands out the recorded error and forgets it.
    pub fn take_error(&mut self) -> (error: Option<String>)
        requires
            old(self).wf(),
        ensures
            final(self).wf(),
            final(self).same_store(*old(self)),
            final(self).error_text() is None,
            error is Some <==> old(self).error_text() is Some,
            error matches Some(text) ==> old(self).error_text() == Some(text@),
    {
        self.error.take()
    }

    pub fn memory_stats(&self) -> (stats: &MemoryStats)
        ensures
            *stats == self.memory_statistics(),
    {
        &self.stats
    }

    /// The metrics of one of the two arenas.
    pub fn arena_metrics(&self, temporary: bool) -> (metrics: ArenaMetrics)
        requires
            self.wf(),
        ensures
            metrics.used_bytes == self.region(temporary).shape().used(),
            metrics.reserved_bytes == self.region(temporary).shape().reserved(),
    {
        if temporary {
            self.temporary_arena.metrics()
        } else {
            self.arena.metrics()
        }
    }

    /// What the context was told about itself when it was made.
    pub fn identity(&self) -> (identity: ContextIdentity)
        ensures
            identity == self.configuration().identity,
    {
        self.settings.identity
    }

    pub fn has_error(&self) -> (failed: bool)
        ensures
            failed == (self.error_text() is Some),
    {
        self.error.is_some()
    }

    /// Record a controlled runtime error. First-error-wins: later calls are
    /// ignored once an error is already recorded.
    pub fn fail(&mut self, message: String)
        requires
            old(self).wf(),
        ensures
            final(self).wf(),
            final(self).only_failed(*old(self), message@),
    {
        if self.error.is_none() {
            self.error = Some(message);
        }
    }

    /// Records a fixed text.
    pub fn fail_with(&mut self, text: &str)
        requires
            old(self).wf(),
        ensures
            final(self).wf(),
            final(self).only_failed(*old(self), text@),
    {
        if self.error.is_none() {
            self.error = Some(text.to_owned());
        }
    }

    /// Register the current top-level execution's opaque host extension.
    /// Overwrites any previous value.
    pub fn set_task_runtime(&mut self, handle: usize)
        requires
            old(self).wf(),
        ensures
            final(self).wf(),
            final(self).configuration() == (ContextSettings {
                task_runtime: Some(handle),
                ..old(self).configuration()
            }),
            final(self).persistent() == old(self).persistent(),
            final(self).temporary() == old(self).temporary(),
            final(self).scopes() == old(self).scopes(),
            final(self).memory_statistics() == old(self).memory_statistics(),
            final(self).error_text() == old(self).error_text(),
            final(self).installed() == old(self).installed(),
            final(self).counts_on(*old(self)),
    {
        self.settings.task_runtime = Some(handle);
    }

    /// The opaque host extension registered by [`Self::set_task_runtime`], or
    /// `None` if this execution never opted in.
    pub fn task_runtime(&self) -> (handle: Option<usize>)
        ensures
            handle == self.configuration().task_runtime,
    {
        self.settings.task_runtime
    }

    /// Whether `self` differs from `before` at most in its devices.
    pub open spec fn same_but_devices(&self, before: Self) -> bool {
        &&& self.configuration() == before.configuration()
        &&& self.counts_on(before)
        &&& self.persistent() == before.persistent()
        &&& self.temporary() == before.temporary()
        &&& self.scopes() == before.scopes()
        &&& self.memory_statistics() == before.memory_statistics()
        &&& self.error_text() == before.error_text()
    }

    /// Inject the console backend this context uses. Overwrites any previous
    /// backend.
    pub fn set_console_backend(&mut self, mut backend: Box<dyn ConsoleBackend>)
        requires
            old(self).wf(),
        ensures
            final(self).wf(),
            final(self).same_but_devices(*old(self)),
            final(self).installed().console == backend,
            final(self).installed().filesystem == old(self).installed().filesystem,
            final(self).console_calls() == backend.calls(),
    {
        std::mem::swap(&mut self.devices.console, &mut backend);
    }

    /// Captures what this context writes from now on in `console`, and lets it read
    /// from there. From here on, what is asked of the console is asked of this one.
    pub fn capture_console(&mut self, console: MemoryConsoleBackend)
        requires
            old(self).wf(),
        ensures
            final(self).wf(),
            final(self).same_but_devices(*old(self)),
            final(self).installed().filesystem == old(self).installed().filesystem,
            final(self).console_calls() == console.calls(),
    {
        self.set_console_backend(Box::new(console));
    }

    /// Inject the filesystem backend this context uses. Overwrites any previous
    /// backend.
    pub fn set_filesystem_backend(&mut self, mut backend: Box<dyn FileSystemBackend>)
        requires
            old(self).wf(),
        ensures
            final(self).wf(),
            final(self).same_but_devices(*old(self)),
            final(self).installed().filesystem == backend,
            final(self).installed().console == old(self).installed().console,
            final(self).file_calls() == backend.calls(),
    {
        std::mem::swap(&mut self.devices.filesystem, &mut backend);
    }

    /// Whether `self` came out of `before` by asking the console `calls`, and
    /// nothing else.
    pub open spec fn only_asked_console(&self, before: Self, calls: Seq<ConsoleCall>) -> bool {
        &&& self.same_but_devices(before)
        &&& self.console_calls() == before.console_calls() + calls
        &&& self.installed().filesystem == before.installed().filesystem
    }

    /// Whether `self` came out of `before` by asking the filesystem for one thing,
    /// and nothing else.
    pub open spec fn only_asked_files(&self, before: Self, call: FileCall) -> bool {
        &&& self.same_but_devices(before)
        &&& self.installed().console == before.installed().console
        &&& self.file_calls() == before.file_calls().push(call)
    }

    /// Hands bytes to the console.
    pub(crate) fn console_write(&mut self, to_error: bool, bytes: &[u8]) -> (reply: Result<
        (),
        HostIoError,
    >)
        requires
            old(self).wf(),
        ensures
            final(self).wf(),
            final(self).only_asked_console(
                *old(self),
                seq![ConsoleCall::Write { to_error, bytes: bytes@, reply: reply_text(reply) }],
            ),
    {
        let reply: Result<(), HostIoError> = if to_error {
            self.devices.console.write_error(bytes)
        } else {
            self.devices.console.write(bytes)
        };
        assert(self.console_calls() =~= old(self).console_calls() + seq![
            ConsoleCall::Write { to_error, bytes: bytes@, reply: reply_text(reply) },
        ]);
        reply
    }

    /// Flushes the console.
    pub(crate) fn console_flush(&mut self, to_error: bool) -> (reply: Result<(), HostIoError>)
        requires
            old(self).wf(),
        ensures
            final(self).wf(),
            final(self).only_asked_console(
                *old(self),
                seq![ConsoleCall::Flush { to_error, reply: reply_text(reply) }],
            ),
    {
        let reply: Result<(), HostIoError> = if to_error {
            self.devices.console.flush_error()
        } else {
            self.devices.console.flush()
        };
        assert(self.console_calls() =~= old(self).console_calls() + seq![
            ConsoleCall::Flush { to_error, reply: reply_text(reply) },
        ]);
        reply
    }

    /// Reads a line from the console.
    pub(crate) fn console_read_line(&mut self) -> (reply: ReadLineResult)
        requires
            old(self).wf(),
        ensures
            final(self).wf(),
            final(self).only_asked_console(
                *old(self),
                seq![ConsoleCall::ReadLine { reply: line_text(reply) }],
            ),
    {
        let reply: ReadLineResult = self.devices.console.read_line();
        assert(self.console_calls() =~= old(self).console_calls() + seq![
            ConsoleCall::ReadLine { reply: line_text(reply) },
        ]);
        reply
    }

    /// Asks the filesystem for a file.
    pub(crate) fn file_read_all(&mut self, path: &str, probe_limit: u64) -> (reply: Result<
        Vec<u8>,
        FileSystemError,
    >)
        requires
            old(self).wf(),
        ensures
            final(self).wf(),
            final(self).only_asked_files(
                *old(self),
                FileCall::ReadAll { path: path@, probe_limit, reply: content_reply(reply) },
            ),
    {
        self.devices.filesystem.read_all(path, probe_limit)
    }

    /// Asks the filesystem to write or extend a file.
    pub(crate) fn file_write_all(&mut self, append: bool, path: &str, content: &[u8]) -> (reply: 
    Result<(), FileSystemError>)
        requires
            old(self).wf(),
        ensures
            final(self).wf(),
            final(self).only_asked_files(
                *old(self),
                FileCall::WriteAll { append, path: path@, content: content@, reply },
            ),
    {
        if append {
            self.devices.filesystem.append_all(path, content)
        } else {
            self.devices.filesystem.write_all(path, content)
        }
    }

    /// Asks the filesystem for the files or directories in a directory.
    pub(crate) fn file_list(
        &mut self,
        directories: bool,
        directory: &str,
        max_entries: usize,
        max_total_bytes: usize,
    ) -> (reply: Result<Vec<String>, FileSystemError>)
        requires
            old(self).wf(),
        ensures
            final(self).wf(),
            final(self).only_asked_files(
                *old(self),
                FileCall::List {
                    directories,
                    directory: directory@,
                    max_entries,
                    max_total_bytes,
                    reply: paths_reply(reply),
                },
            ),
    {
        if directories {
            self.devices.filesystem.list_directories(directory, max_entries, max_total_bytes)
        } else {
            self.devices.filesystem.list_files(directory, max_entries, max_total_bytes)
        }
    }

    /// Asks the filesystem about a path, or to change it.
    pub(crate) fn file_question(&mut self, operation: PathOperation, path: &str) -> (reply: Result<
        bool,
        FileSystemError,
    >)
        requires
            old(self).wf(),
        ensures
            final(self).wf(),
            final(self).only_asked_files(
                *old(self),
                FileCall::Path { operation, path: path@, reply },
            ),
    {
        match operation {
            PathOperation::FileExists => self.devices.filesystem.file_exists(path),
            PathOperation::DirectoryExists => self.devices.filesystem.directory_exists(path),
            PathOperation::CreateDirectory => self.devices.filesystem.create_directory(path),
            PathOperation::DeleteFile => self.devices.filesystem.delete_file(path),
            PathOperation::DeleteDirectory => self.devices.filesystem.delete_directory(path),
        }
    }

    fn refresh_memory_usage(&mut self)
        requires
            old(self).wf(),
        ensures
            final(self).wf(),
            final(self).carries_on(*old(self)),
            final(self).persistent() == old(self).persistent(),
            final(self).temporary() == old(self).temporary(),
            final(self).scopes() == old(self).scopes(),
            final(self).error_text() == old(self).error_text(),
            final(self).memory_statistics() == if old(self).configuration().collect_stats {
                with_usage(old(self).memory_statistics(), old(self).used(), old(self).reserved())
            } else {
                old(self).memory_statistics()
            },
    {
        if !self.settings.collect_stats {
            return;
        }
        let persistent = self.arena.metrics();
        let temporary = self.temporary_arena.metrics();
        let used_bytes: u64 = (persistent.used_bytes + temporary.used_bytes) as u64;
        let reserved_bytes: u64 = (persistent.reserved_bytes + temporary.reserved_bytes) as u64;
        self.stats.used_bytes = used_bytes;
        self.stats.reserved_bytes = reserved_bytes;
        if self.stats.peak_used_bytes < used_bytes {
            self.stats.peak_used_bytes = used_bytes;
        }
        if self.stats.peak_reserved_bytes < reserved_bytes {
            self.stats.peak_reserved_bytes = reserved_bytes;
        }
    }

    /// The statistics after one more allocation of `requested` bytes.
    pub open spec fn counted(&self, category: AllocationCategory, requested: int) -> MemoryStats {
        if self.configuration().collect_stats {
            with_usage(
                with_allocation(self.memory_statistics(), category, requested),
                self.used(),
                self.reserved(),
            )
        } else {
            self.memory_statistics()
        }
    }

    /// Counts one logical allocation.
    pub fn record_allocation(&mut self, category: AllocationCategory, requested: usize)
        requires
            old(self).wf(),
        ensures
            final(self).wf(),
            final(self).carries_on(*old(self)),
            final(self).persistent() == old(self).persistent(),
            final(self).temporary() == old(self).temporary(),
            final(self).scopes() == old(self).scopes(),
            final(self).error_text() == old(self).error_text(),
            final(self).memory_statistics() == old(self).counted(category, requested as int),
    {
        if !self.settings.collect_stats {
            return;
        }
        proof {
            lemma_tally_more(self.tally@, self.stats, category, requested as nat);
            self.tally@ = self.tally@.with(category, requested as nat);
        }
        self.stats.total_allocations = self.stats.total_allocations.wrapping_add(1);
        match category {
            AllocationCategory::Object => {
                self.stats.object_allocations = self.stats.object_allocations.wrapping_add(1);
            },
            AllocationCategory::Array => {
                self.stats.array_allocations = self.stats.array_allocations.wrapping_add(1);
            },
            AllocationCategory::String => {
                self.stats.string_allocations = self.stats.string_allocations.wrapping_add(1);
            },
        }
        self.stats.requested_bytes = self.stats.requested_bytes.wrapping_add(requested as u64);
        self.refresh_memory_usage();
    }
}


impl ExecutionContext {
    /// No allocated address comes near the end of what an address can hold.
    pub proof fn lemma_memory_below_end(&self)
        requires
            self.arenas_wf(),
        ensures
            forall|a: int| #[trigger] self.mem().contains_key(a) ==> 0 < a < 0x8000_0000_0000_0000,
    {
        self.persistent().lemma_address_space();
        self.temporary().lemma_address_space();
    }

    /// What is in use is reserved, and what is reserved can be counted.
    pub proof fn lemma_usage(&self)
        requires
            self.wf(),
        ensures
            0 <= self.used() <= self.reserved() <= usize::MAX,
    {
        self.persistent().lemma_used_at_most_reserved();
        self.temporary().lemma_used_at_most_reserved();
    }
}

/// Whether a range of addresses is allocated in a context is decided by the one
/// arena whose address space it starts in.
proof fn lemma_region_of(context: ExecutionContext, address: int, len: int)
    requires
        context.wf(),
        len > 0,
    ensures
        address >= TEMPORARY_ADDRESS ==> has_range(context.mem(), address, len) == has_range(
            context.temporary().mem(),
            address,
            len,
        ),
        address < TEMPORARY_ADDRESS ==> has_range(context.mem(), address, len) == has_range(
            context.persistent().mem(),
            address,
            len,
        ),
        forall|a: int| #[trigger] context.persistent().mem().contains_key(a) ==> a
            < TEMPORARY_ADDRESS && !context.temporary().mem().contains_key(a),
        forall|a: int| #[trigger] context.temporary().mem().contains_key(a) ==> a
            >= TEMPORARY_ADDRESS && !context.persistent().mem().contains_key(a),
{
    context.persistent().lemma_address_space();
    context.temporary().lemma_address_space();
    let whole = context.mem();
    let low = context.persistent().mem();
    let high = context.temporary().mem();
    if address >= TEMPORARY_ADDRESS {
        if has_range(whole, address, len) {
            assert forall|k: int| address <= k < address + len implies #[trigger] high.contains_key(
                k,
            ) by {
                assert(whole.contains_key(k));
            }
        }
        if has_range(high, address, len) {
            assert forall|k: int| address <= k < address + len implies
                #[trigger] whole.contains_key(k) by {
                assert(high.contains_key(k));
            }
        }
    } else {
        if has_range(whole, address, len) {
            assert(address + len <= TEMPORARY_ADDRESS) by {
                if address + len > TEMPORARY_ADDRESS {
                    assert(whole.contains_key(TEMPORARY_ADDRESS - 1));
                }
            }
            assert forall|k: int| address <= k < address + len implies #[trigger] low.contains_key(
                k,
            ) by {
                assert(whole.contains_key(k));
            }
        }
        if has_range(low, address, len) {
            assert forall|k: int| address <= k < address + len implies
                #[trigger] whole.contains_key(k) by {
                assert(low.contains_key(k));
            }
        }
    }
}

impl ExecutionContext {
    /// The arenas use different addresses.
    pub proof fn lemma_regions_apart(&self)
        requires
            self.wf(),
        ensures
            forall|a: int| #[trigger] self.persistent().mem().contains_key(a) ==> a
                < TEMPORARY_ADDRESS,
            forall|a: int| #[trigger] self.temporary().mem().contains_key(a) ==> a
                >= TEMPORARY_ADDRESS,
    {
        lemma_region_of(*self, 0, 1);
    }

    /// Whether `self` came out of `before` by an allocation of `size` bytes at
    /// `address` in the arena that `temporary` names, and nothing else.
    pub open spec fn allocated(
        &self,
        before: Self,
        temporary: bool,
        address: u64,
        size: int,
        align: int,
    ) -> bool {
        &&& self.carries_on(before)
        &&& self.scopes() == before.scopes()
        &&& self.error_text() == before.error_text()
        &&& self.region(!temporary) == before.region(!temporary)
        &&& self.region(temporary).continues(before.region(temporary))
        &&& self.region(temporary).placed(before.region(temporary), address, size, align)
        &&& before.region(temporary).governed() is None ==> self.region(temporary).governed()
            is None
    }

    /// What an allocation means for the memory of the whole context.
    pub proof fn lemma_allocated(
        &self,
        before: Self,
        temporary: bool,
        address: u64,
        size: int,
        align: int,
    )
        requires
            before.arenas_wf(),
            self.allocated(before, temporary, address, size, align),
            size > 0,
            valid_align(align),
        ensures
            self.arenas_wf(),
            before.scoped() ==> self.scoped(),
            address > 0,
            address + size <= u64::MAX,
            ({
                let padding = self.used() - before.used() - size;
                &&& 0 <= padding < align
                &&& lacks_range(before.mem(), address - padding, padding + size)
                &&& self.mem() == extended(before.mem(), address - padding, padding + size)
            }),
            has_range(self.mem(), address as int, size),
            bytes_at(self.mem(), address as int, size as nat) == crate::memory::zeroed(size as nat),
            lacks_range(before.mem(), address as int, size),
            crate::memory::preserved(before.mem(), self.mem()),
    {
        let padding = self.used() - before.used() - size;
        let start = address - padding;
        let total = padding + size;
        before.persistent().lemma_address_space();
        before.temporary().lemma_address_space();
        assert forall|k: int| start <= k < start + total implies !#[trigger] before.mem().contains_key(
            k,
        ) by {
            assert(!before.region(temporary).mem().contains_key(k));
        }
        assert(self.mem() =~= extended(before.mem(), start, total));
        assert(bytes_at(self.mem(), address as int, size as nat) =~= crate::memory::zeroed(
            size as nat,
        ));
    }

    /// Allocates `size` zeroed bytes in one of the arenas. When the budget or
    /// the host denies them, that is recorded and nothing is allocated.
    pub fn allocate_in(&mut self, temporary: bool, size: usize, align: usize) -> (result: Option<
        u64,
    >)
        requires
            old(self).wf(),
            size > 0,
            valid_align(align as int),
        ensures
            final(self).wf(),
            final(self).memory_statistics() == old(self).memory_statistics(),
            old(self).scoped() ==> final(self).scoped(),
            result matches Some(address) ==> final(self).allocated(
                *old(self),
                temporary,
                address,
                size as int,
                align as int,
            ),
            result is None ==> {
                &&& final(self).carries_on(*old(self))
                &&& final(self).scopes() == old(self).scopes()
                &&& final(self).region(!temporary) == old(self).region(!temporary)
                &&& final(self).region(temporary).continues(old(self).region(temporary))
                &&& final(self).region(temporary).keeps_memory(old(self).region(temporary))
                &&& final(self).mem() == old(self).mem()
                &&& final(self).refused(*old(self), temporary, size as int, align as int)
            },
            !old(self).region(temporary).needs_page(size as int, align as int) ==> result is Some,
            old(self).over_limit(temporary, size as int, align as int) ==> {
                &&& result is None
                &&& final(self).error_text() == first_error(
                    old(self).error_text(),
                    arena_error_text(ArenaAllocError::Limit),
                )
            },
    {
        let ghost before = *self;
        proof {
            before.persistent().lemma_used_at_most_reserved();
            before.temporary().lemma_used_at_most_reserved();
        }
        let outcome: Result<u64, ArenaAllocError> = if temporary {
            let other: usize = self.arena.metrics().reserved_bytes;
            self.temporary_arena.try_alloc(size, align, self.settings.memory_limit - other)
        } else {
            let other: usize = self.temporary_arena.metrics().reserved_bytes;
            self.arena.try_alloc(size, align, self.settings.memory_limit - other)
        };
        match outcome {
            Ok(address) => Some(address),
            Err(error) => {
                let ghost text = arena_error_text(error);
                let message: String = arena_error_message(error);
                self.fail(message);
                proof {
                    assert(self.error_text() == first_error(before.error_text(), text));
                    assert(before.refuses(temporary, size as int, align as int, error));
                }
                None
            },
        }
    }

    /// Whether a request ends in this error: it needs a new page, and the page
    /// exceeds what can be addressed, or the execution budget, or the host has no
    /// memory or no addresses left for it.
    pub open spec fn refuses(
        &self,
        temporary: bool,
        size: int,
        align: int,
        error: ArenaAllocError,
    ) -> bool {
        let arena = self.region(temporary);
        let capacity = arena.shape().fresh_capacity(size);
        &&& arena.needs_page(size, align)
        &&& if arena.shape().reserved() + capacity > usize::MAX {
            error == ArenaAllocError::AddressSpace
        } else if self.reserved() + capacity > self.configuration().memory_limit {
            error == ArenaAllocError::Limit
        } else {
            arena.may_refuse(capacity, error)
        }
    }

    /// Whether the error that a request in `before` ended in was recorded.
    pub open spec fn refused(
        &self,
        before: Self,
        temporary: bool,
        size: int,
        align: int,
    ) -> bool {
        exists|error: ArenaAllocError|
            #[trigger] before.refuses(temporary, size, align, error) && self.error_text()
                == first_error(before.error_text(), arena_error_text(error))
    }

    /// Whether a request needs a new page that the execution budget denies.
    pub open spec fn over_limit(&self, temporary: bool, size: int, align: int) -> bool {
        let arena = self.region(temporary);
        let capacity = arena.shape().fresh_capacity(size);
        &&& arena.needs_page(size, align)
        &&& arena.shape().reserved() + capacity <= usize::MAX
        &&& self.reserved() + capacity > self.configuration().memory_limit
    }

    /// Whether `len` bytes from `address` on are allocated.
    pub fn is_allocated(&self, address: u64, len: usize) -> (found: bool)
        requires
            self.wf(),
        ensures
            found == has_range(self.mem(), address as int, len as int),
    {
        proof {
            if len > 0 {
                lemma_region_of(*self, address as int, len as int);
            }
        }
        if address >= TEMPORARY_ADDRESS {
            self.temporary_arena.contains(address, len)
        } else {
            self.arena.contains(address, len)
        }
    }

    /// The `len` bytes from `address` on, if they are all allocated.
    pub fn read_memory(&self, address: u64, len: usize) -> (result: Option<Vec<u8>>)
        requires
            self.wf(),
        ensures
            result is Some <==> has_range(self.mem(), address as int, len as int),
            result matches Some(bytes) ==> bytes@ == bytes_at(
                self.mem(),
                address as int,
                len as nat,
            ),
    {
        proof {
            if len > 0 {
                lemma_region_of(*self, address as int, len as int);
            }
        }
        if address >= TEMPORARY_ADDRESS {
            let result: Option<Vec<u8>> = self.temporary_arena.read(address, len);
            proof {
                if result is Some {
                    let bytes = result->0;
                    assert(bytes@ =~= bytes_at(self.mem(), address as int, len as nat)) by {
                        assert forall|i: int| 0 <= i < len implies bytes@[i] == bytes_at(
                            self.mem(),
                            address as int,
                            len as nat,
                        )[i] by {
                            assert(self.temporary().mem().contains_key(address + i));
                        }
                    }
                }
            }
            result
        } else {
            let result: Option<Vec<u8>> = self.arena.read(address, len);
            proof {
                if result is Some {
                    let bytes = result->0;
                    assert(bytes@ =~= bytes_at(self.mem(), address as int, len as nat)) by {
                        assert forall|i: int| 0 <= i < len implies bytes@[i] == bytes_at(
                            self.mem(),
                            address as int,
                            len as nat,
                        )[i] by {
                            assert(self.persistent().mem().contains_key(address + i));
                        }
                    }
                }
            }
            result
        }
    }

    /// Whether `self` differs from `before` at most in the bytes of allocated
    /// memory.
    pub open spec fn same_but_bytes(&self, before: Self) -> bool {
        &&& self.carries_on(before)
        &&& self.scopes() == before.scopes()
        &&& self.error_text() == before.error_text()
        &&& self.memory_statistics() == before.memory_statistics()
        &&& self.persistent().continues(before.persistent())
        &&& self.temporary().continues(before.temporary())
        &&& self.persistent().shape() == before.persistent().shape()
        &&& self.temporary().shape() == before.temporary().shape()
        &&& self.persistent().history() == before.persistent().history()
        &&& self.temporary().history() == before.temporary().history()
    }

    /// Stores `bytes` from `address` on, if the whole range is allocated.
    pub fn write_memory(&mut self, address: u64, bytes: &[u8]) -> (stored: bool)
        requires
            old(self).wf(),
        ensures
            final(self).wf(),
            final(self).same_but_bytes(*old(self)),
            address >= TEMPORARY_ADDRESS ==> final(self).persistent() == old(self).persistent(),
            address < TEMPORARY_ADDRESS ==> final(self).temporary() == old(self).temporary(),
            stored == has_range(old(self).mem(), address as int, bytes@.len() as int),
            !stored ==> final(self).unchanged(*old(self)),
            final(self).mem() == if stored {
                overwritten(old(self).mem(), address as int, bytes@)
            } else {
                old(self).mem()
            },
    {
        let ghost before = *self;
        let ghost len = bytes@.len() as int;
        proof {
            if len > 0 {
                lemma_region_of(*self, address as int, len);
            }
            before.persistent().lemma_address_space();
            before.temporary().lemma_address_space();
        }
        let stored: bool = if address >= TEMPORARY_ADDRESS {
            self.temporary_arena.write(address, bytes)
        } else {
            self.arena.write(address, bytes)
        };
        proof {
            if stored {
                let target = overwritten(before.mem(), address as int, bytes@);
                assert forall|a: int| #[trigger] self.mem().contains_key(a) implies self.mem()[a]
                    == target[a] by {
                    if address <= a < address + len {
                        assert(before.mem().contains_key(a));
                    }
                }
                assert(self.mem() =~= target);
            }
        }
        stored
    }
}


impl ExecutionContext {
    /// Takes a checkpoint of the temporary arena.
    pub fn mark_temporary(&mut self) -> (mark: TemporaryArenaMark)
        requires
            old(self).wf(),
            old(self).temporary().next_mark() < u64::MAX,
        ensures
            final(self).wf(),
            final(self).carries_on(*old(self)),
            final(self).persistent() == old(self).persistent(),
            final(self).scopes() == old(self).scopes(),
            final(self).error_text() == old(self).error_text(),
            final(self).memory_statistics() == old(self).memory_statistics(),
            final(self).mem() == old(self).mem(),
            final(self).used() == old(self).used(),
            final(self).reserved() == old(self).reserved(),
            final(self).temporary().marked_from(old(self).temporary(), mark.inner()),
    {
        TemporaryArenaMark { mark: self.temporary_arena.mark() }
    }

    /// Allocates in the temporary arena without counting a logical allocation.
    pub fn allocate_temporary(&mut self, size: usize, align: usize) -> (result: Option<u64>)
        requires
            old(self).wf(),
            size > 0,
            valid_align(align as int),
        ensures
            final(self).wf(),
            old(self).scoped() ==> final(self).scoped(),
            result matches Some(address) ==> {
                &&& final(self).allocated(*old(self), true, address, size as int, align as int)
                &&& final(self).memory_statistics() == if old(self).configuration().collect_stats {
                    with_usage(
                        old(self).memory_statistics(),
                        final(self).used(),
                        final(self).reserved(),
                    )
                } else {
                    old(self).memory_statistics()
                }
            },
            result is None ==> final(self).denied(*old(self), true, size as int, align as int),
            !old(self).temporary().needs_page(size as int, align as int) ==> result is Some,
    {
        let result: Option<u64> = self.allocate_in(true, size, align);
        if result.is_some() {
            self.refresh_memory_usage();
        }
        result
    }

    /// Whether `self` came out of `before` by a request that was denied: the
    /// memory is the same and the denial is recorded.
    pub open spec fn denied(&self, before: Self, temporary: bool, size: int, align: int) -> bool {
        &&& self.carries_on(before)
        &&& self.scopes() == before.scopes()
        &&& self.mem() == before.mem()
        &&& self.region(!temporary) == before.region(!temporary)
        &&& self.region(temporary).continues(before.region(temporary))
        &&& self.region(temporary).keeps_memory(before.region(temporary))
        &&& self.memory_statistics() == before.memory_statistics()
        &&& self.refused(before, temporary, size, align)
    }

    /// Whether `self` is `before` with the temporary arena rewound to `mark`.
    pub open spec fn rewound_to(&self, before: Self, mark: ArenaMark) -> bool {
        &&& self.carries_on(before)
        &&& self.persistent() == before.persistent()
        &&& self.error_text() == before.error_text()
        &&& self.temporary().rewound_from(before.temporary(), mark)
        &&& self.reserved() == before.reserved()
        &&& self.memory_statistics() == if before.configuration().collect_stats {
            with_usage(before.memory_statistics(), self.used(), self.reserved())
        } else {
            before.memory_statistics()
        }
    }

    /// Gives back everything allocated in the temporary arena since `mark`.
    pub fn rewind_temporary(&mut self, mark: TemporaryArenaMark)
        requires
            old(self).wf(),
            old(self).temporary().marks().len() > 0,
            old(self).temporary().marks().last() == mark.inner(),
        ensures
            final(self).wf(),
            final(self).rewound_to(*old(self), mark.inner()),
            final(self).scopes() == old(self).scopes(),
    {
        self.temporary_arena.rewind(mark.mark);
        self.refresh_memory_usage();
    }

    /// What opening a temporary scope makes of the context `before`: nothing but a
    /// scope more, which remembers what is allocated.
    pub open spec fn scope_entered(&self, before: Self) -> bool {
        &&& self.carries_on(before)
        &&& self.persistent() == before.persistent()
        &&& self.error_text() == before.error_text()
        &&& self.memory_statistics() == before.memory_statistics()
        &&& self.mem() == before.mem()
        &&& self.used() == before.used()
        &&& self.reserved() == before.reserved()
        &&& self.scopes().len() == before.scopes().len() + 1
        &&& self.scopes().drop_last() == before.scopes()
        &&& self.temporary().marked_from(before.temporary(), self.scopes().last())
    }

    /// Opens a temporary scope.
    pub fn enter_temporary_scope(&mut self)
        requires
            old(self).wf(),
            old(self).temporary().next_mark() < u64::MAX,
        ensures
            final(self).wf(),
            old(self).scoped() ==> final(self).scoped(),
            final(self).scope_entered(*old(self)),
    {
        let ghost before = *self;
        let mark: TemporaryArenaMark = self.mark_temporary();
        self.temporary_scopes.push(mark);
        proof {
            assert(self.scopes() =~= before.scopes().push(mark.mark));
            assert(self.scopes().drop_last() =~= before.scopes());
        }
    }

    /// Closes the innermost temporary scope and gives back everything that was
    /// allocated in it.
    pub fn leave_temporary_scope(&mut self)
        requires
            old(self).wf(),
            old(self).scopes().len() > 0 ==> old(self).scoped(),
        ensures
            final(self).wf(),
            old(self).scopes().len() == 0 ==> final(self).only_failed(
                *old(self),
                "temporary scope leave has no matching enter"@,
            ),
            old(self).scopes().len() > 0 ==> {
                &&& final(self).scoped()
                &&& final(self).scopes() == old(self).scopes().drop_last()
                &&& final(self).rewound_to(*old(self), old(self).scopes().last())
            },
    {
        let ghost before = *self;
        match self.temporary_scopes.pop() {
            None => {
                assert(self.scopes() =~= before.scopes());
                self.fail_with("temporary scope leave has no matching enter");
            },
            Some(mark) => {
                assert(self.scopes() =~= before.scopes().drop_last());
                self.rewind_temporary(mark);
            },
        }
    }

    /// The number of temporary scopes that were entered and not left.
    pub fn scope_depth(&self) -> (depth: usize)
        ensures
            depth == self.scopes().len(),
    {
        self.temporary_scopes.len()
    }

    /// Whether `self` came out of `before` by one counted allocation of `size`
    /// bytes at `address`, and nothing else.
    pub open spec fn allocated_counted(
        &self,
        before: Self,
        temporary: bool,
        address: u64,
        size: int,
        align: int,
        category: AllocationCategory,
    ) -> bool {
        &&& self.allocated(before, temporary, address, size, align)
        &&& self.memory_statistics() == self.statistics_after(before, category, size)
    }

    /// The statistics of `before` after one more allocation, with the usage of
    /// `self`.
    pub open spec fn statistics_after(
        &self,
        before: Self,
        category: AllocationCategory,
        requested: int,
    ) -> MemoryStats {
        if before.configuration().collect_stats {
            with_usage(
                with_allocation(before.memory_statistics(), category, requested),
                self.used(),
                self.reserved(),
            )
        } else {
            before.memory_statistics()
        }
    }

    pub(crate) fn allocate_counted(
        &mut self,
        temporary: bool,
        size: usize,
        align: usize,
        category: AllocationCategory,
    ) -> (result: Option<u64>)
        requires
            old(self).wf(),
            size > 0,
            valid_align(align as int),
        ensures
            final(self).wf(),
            old(self).scoped() ==> final(self).scoped(),
            result matches Some(address) ==> final(self).allocated_counted(
                *old(self),
                temporary,
                address,
                size as int,
                align as int,
                category,
            ),
            result is None ==> final(self).denied(
                *old(self),
                temporary,
                size as int,
                align as int,
            ),
            !old(self).region(temporary).needs_page(size as int, align as int) ==> result is Some,
            old(self).over_limit(temporary, size as int, align as int) ==> {
                &&& result is None
                &&& final(self).error_text() == first_error(
                    old(self).error_text(),
                    arena_error_text(ArenaAllocError::Limit),
                )
            },
    {
        let result: Option<u64> = self.allocate_in(temporary, size, align);
        if result.is_some() {
            self.record_allocation(category, size);
        }
        result
    }

    /// Zeroed storage for one object of `size` bytes, and at least one byte.
    pub fn allocate_object(&mut self, size: u32) -> (result: Option<u64>)
        requires
            old(self).wf(),
        ensures
            final(self).wf(),
            old(self).scoped() ==> final(self).scoped(),
            result matches Some(address) ==> final(self).allocated_counted(
                *old(self),
                false,
                address,
                at_least_one(size as int),
                8,
                AllocationCategory::Object,
            ),
            result is None ==> final(self).denied(
                *old(self),
                false,
                at_least_one(size as int),
                8,
            ),
            !old(self).persistent().needs_page(at_least_one(size as int), 8) ==> result is Some,
    {
        let bytes: usize = if size == 0 {
            1
        } else {
            size as usize
        };
        self.allocate_counted(false, bytes, 8, AllocationCategory::Object)
    }

    /// Zeroed storage for one object that lives until its scope is left.
    pub fn allocate_temporary_object(&mut self, size: u32) -> (result: Option<u64>)
        requires
            old(self).wf(),
        ensures
            final(self).wf(),
            old(self).scoped() ==> final(self).scoped(),
            old(self).scopes().len() == 0 ==> {
                &&& result is None
                &&& final(self).only_failed(
                    *old(self),
                    "temporary object allocation requires an active temporary scope"@,
                )
            },
            old(self).scopes().len() > 0 ==> {
                &&& result matches Some(address) ==> final(self).allocated_counted(
                    *old(self),
                    true,
                    address,
                    at_least_one(size as int),
                    8,
                    AllocationCategory::Object,
                )
                &&& result is None ==> final(self).denied(
                    *old(self),
                    true,
                    at_least_one(size as int),
                    8,
                )
                &&& !old(self).temporary().needs_page(at_least_one(size as int), 8) ==> result
                    is Some
            },
    {
        if self.scope_depth() == 0 {
            self.fail_with("temporary object allocation requires an active temporary scope");
            return None;
        }
        let bytes: usize = if size == 0 {
            1
        } else {
            size as usize
        };
        self.allocate_counted(true, bytes, 8, AllocationCategory::Object)
    }
}

impl ExecutionContext {
    /// Whether `self` came out of `before` by an allocation of `size` bytes at
    /// `address` that start with `content` and are zero after it, and nothing
    /// else but statistics.
    pub open spec fn placed_with(
        &self,
        before: Self,
        temporary: bool,
        address: u64,
        size: int,
        align: int,
        content: Seq<u8>,
    ) -> bool {
        let padding = self.used() - before.used() - size;
        &&& self.carries_on(before)
        &&& self.scopes() == before.scopes()
        &&& before.scoped() ==> self.scoped()
        &&& self.error_text() == before.error_text()
        &&& self.region(!temporary) == before.region(!temporary)
        &&& self.region(temporary).continues(before.region(temporary))
        &&& self.region(temporary).shape() == before.region(temporary).shape().served(size, align)
        &&& self.used() == before.used() + before.region(temporary).shape().padding(size, align)
            + size
        &&& self.reserved() == before.reserved() + before.region(temporary).shape().growth(
            size,
            align,
        )
        &&& address > 0
        &&& address % (align as u64) == 0
        &&& address + size <= u64::MAX
        &&& content.len() <= size
        &&& 0 <= padding < align
        &&& lacks_range(before.mem(), address - padding, padding + size)
        &&& self.mem() == overwritten(
            extended(before.mem(), address - padding, padding + size),
            address as int,
            content,
        )
    }

    /// What such an allocation means for memory.
    pub proof fn lemma_placed_with(
        &self,
        before: Self,
        temporary: bool,
        address: u64,
        size: int,
        align: int,
        content: Seq<u8>,
    )
        requires
            self.placed_with(before, temporary, address, size, align, content),
        ensures
            has_range(self.mem(), address as int, size),
            lacks_range(before.mem(), address as int, size),
            crate::memory::preserved(before.mem(), self.mem()),
            bytes_at(self.mem(), address as int, content.len()) == content,
            forall|k: int| address + content.len() <= k < address + size ==> #[trigger] self.mem()[k] == 0,
    {
        assert(bytes_at(self.mem(), address as int, content.len()) =~= content);
    }

    /// Allocates `size` bytes that start with `content`.
    pub fn allocate_with(&mut self, temporary: bool, size: usize, align: usize, content: &[u8]) -> (
    result: Option<u64>)
        requires
            old(self).wf(),
            size > 0,
            valid_align(align as int),
            content@.len() <= size,
        ensures
            final(self).wf(),
            old(self).scoped() ==> final(self).scoped(),
            final(self).memory_statistics() == old(self).memory_statistics(),
            result matches Some(address) ==> final(self).placed_with(
                *old(self),
                temporary,
                address,
                size as int,
                align as int,
                content@,
            ),
            result is None ==> final(self).denied(
                *old(self),
                temporary,
                size as int,
                align as int,
            ),
            !old(self).region(temporary).needs_page(size as int, align as int) ==> result is Some,
            old(self).over_limit(temporary, size as int, align as int) ==> {
                &&& result is None
                &&& final(self).error_text() == first_error(
                    old(self).error_text(),
                    arena_error_text(ArenaAllocError::Limit),
                )
            },
    {
        let ghost before = *self;
        match self.allocate_in(temporary, size, align) {
            None => None,
            Some(address) => {
                proof {
                    self.lemma_allocated(before, temporary, address, size as int, align as int);
                }
                let _stored: bool = self.write_memory(address, content);
                Some(address)
            },
        }
    }
}

/// `n`, but never less than one.
pub open spec fn at_least_one(n: int) -> int {
    if n < 1 {
        1
    } else {
        n
    }
}

/// The first error that an execution reports stays recorded, whatever is
/// reported after it.
pub proof fn law_first_error_wins(error: Option<Seq<char>>, first: Seq<char>, second: Seq<char>)
    ensures
        first_error(first_error(error, first), second) == first_error(error, first),
        error is None ==> first_error(first_error(error, first), second) == Some(first),
{
}

/// Entering a scope, allocating in it and leaving it gives back the temporary
/// memory that was allocated before, byte for byte, and the same usage.
pub proof fn law_scope_restores_temporary_memory(
    start: ExecutionContext,
    entered: ExecutionContext,
    filled: ExecutionContext,
    left: ExecutionContext,
    address: u64,
    size: int,
    align: int,
)
    requires
        start.wf(),
        start.scoped(),
        entered.wf(),
        entered.temporary().mem() == start.temporary().mem(),
        entered.scopes().len() == start.scopes().len() + 1,
        entered.scopes().last().allocated() == start.temporary().mem().dom(),
        entered.scopes().last().used() == start.temporary().shape().used(),
        filled.allocated(entered, true, address, size, align),
        left.rewound_to(filled, filled.scopes().last()),
    ensures
        left.temporary().mem() == start.temporary().mem(),
        left.temporary().shape().used() == start.temporary().shape().used(),
        left.persistent() == entered.persistent(),
        left.error_text() == entered.error_text(),
{
    let m = start.temporary().mem();
    assert(left.temporary().mem() =~= m) by {
        assert forall|k: int| #[trigger] m.contains_key(k) implies filled.temporary().mem()[k]
            == m[k] && filled.temporary().mem().contains_key(k) by {}
    }
}

/// What can happen to the recorded error.
pub enum ErrorEvent {
    Report { text: Seq<char> },
    Take,
}

/// The recorded error after the first `n` events, from none on.
pub open spec fn error_after(events: Seq<ErrorEvent>, n: int) -> Option<Seq<char>>
    decreases n,
{
    if n <= 0 {
        None
    } else {
        match events[n - 1] {
            ErrorEvent::Report { text } => first_error(error_after(events, n - 1), text),
            ErrorEvent::Take => None,
        }
    }
}

/// The recorded error is the first that was reported since it was last taken.
pub proof fn law_error_is_the_first_since_it_was_taken(events: Seq<ErrorEvent>, k: int, n: int)
    requires
        0 <= k < n <= events.len(),
        k == 0 || events[k - 1] is Take,
        forall|i: int| k <= i < n ==> (#[trigger] events[i]) is Report,
    ensures
        error_after(events, n) == Some(events[k]->text),
    decreases n,
{
    assert(events[n - 1] is Report);
    if n > k + 1 {
        law_error_is_the_first_since_it_was_taken(events, k, n - 1);
    } else {
        assert(error_after(events, k) is None);
    }
}

/// The host extension is the one that was registered last.
pub proof fn law_latest_task_runtime_stays(settings: Seq<ContextSettings>, handles: Seq<usize>)
    requires
        settings.len() == handles.len() + 1,
        handles.len() > 0,
        forall|i: int|
            0 <= i < handles.len() ==> #[trigger] settings[i + 1] == (ContextSettings {
                task_runtime: Some(handles[i]),
                ..settings[i]
            }),
    ensures
        settings.last().task_runtime == Some(handles.last()),
{
    assert(settings[handles.len() - 1 + 1] == settings.last());
}

/// Whether these are states of one execution, in the order in which it went through
/// them. Whatever a public call makes of a context is such a step.
pub open spec fn is_execution(states: Seq<ExecutionContext>) -> bool {
    &&& forall|k: int| 0 <= k < states.len() ==> (#[trigger] states[k]).wf()
    &&& forall|k: int|
        0 < k < states.len() ==> {
            &&& (#[trigger] states[k]).counts_on(states[k - 1])
            &&& states[k].configuration().collect_stats
                == states[k - 1].configuration().collect_stats
        }
}

/// In every state of an execution that collects statistics, what is in use is reserved
/// and no peak is below it. From a state to a later one no peak falls. The counts and
/// the requested bytes do not fall either, and every allocation has one category, as
/// long as they did not outgrow the largest number there is.
pub proof fn law_statistics_never_fall(states: Seq<ExecutionContext>, i: int, j: int)
    requires
        is_execution(states),
        0 <= i <= j < states.len(),
        states[i].configuration().collect_stats,
    ensures
        ({
            let earlier = states[i].memory_statistics();
            let later = states[j].memory_statistics();
            let tally = states[j].tally();
            &&& adds_up(later)
            &&& earlier.peak_used_bytes <= later.peak_used_bytes
            &&& earlier.peak_reserved_bytes <= later.peak_reserved_bytes
            &&& tally.requested <= u64::MAX ==> earlier.requested_bytes <= later.requested_bytes
            &&& tally.objects + tally.arrays + tally.strings <= u64::MAX ==> {
                &&& later.total_allocations == later.object_allocations + later.array_allocations
                    + later.string_allocations
                &&& earlier.total_allocations <= later.total_allocations
                &&& earlier.object_allocations <= later.object_allocations
                &&& earlier.array_allocations <= later.array_allocations
                &&& earlier.string_allocations <= later.string_allocations
            }
        }),
{
    lemma_execution(states, i, j);
    assert(states[i].statistics_wf() && states[j].statistics_wf()) by {
        assert(states[i].wf() && states[j].wf());
    }
    lemma_tally_shown(states[i].tally(), states[i].memory_statistics());
    lemma_tally_shown(states[j].tally(), states[j].memory_statistics());
}

/// Statistics show one more allocation when it is counted.
proof fn lemma_tally_more(
    tally: Tally,
    stats: MemoryStats,
    category: AllocationCategory,
    requested: nat,
)
    requires
        tally.shown_by(stats),
        requested <= u64::MAX,
    ensures
        tally.with(category, requested).shown_by(
            with_allocation(stats, category, requested as int),
        ),
{
    lemma_shows_more(
        stats.total_allocations,
        (tally.objects + tally.arrays + tally.strings) as int,
        1,
    );
    lemma_shows_more(stats.requested_bytes, tally.requested as int, requested as u64);
    match category {
        AllocationCategory::Object => {
            lemma_shows_more(stats.object_allocations, tally.objects as int, 1);
        },
        AllocationCategory::Array => {
            lemma_shows_more(stats.array_allocations, tally.arrays as int, 1);
        },
        AllocationCategory::String => {
            lemma_shows_more(stats.string_allocations, tally.strings as int, 1);
        },
    }
}

/// A tally that did not outgrow the largest number there is can be read off.
proof fn lemma_tally_shown(tally: Tally, stats: MemoryStats)
    requires
        tally.shown_by(stats),
    ensures
        tally.requested <= u64::MAX ==> stats.requested_bytes == tally.requested,
        tally.objects + tally.arrays + tally.strings <= u64::MAX ==> {
            &&& stats.total_allocations == tally.objects + tally.arrays + tally.strings
            &&& stats.object_allocations == tally.objects
            &&& stats.array_allocations == tally.arrays
            &&& stats.string_allocations == tally.strings
        },
{
    lemma_shows(stats.requested_bytes, tally.requested as int);
    lemma_shows(stats.object_allocations, tally.objects as int);
    lemma_shows(stats.array_allocations, tally.arrays as int);
    lemma_shows(stats.string_allocations, tally.strings as int);
    lemma_shows(
        stats.total_allocations,
        (tally.objects + tally.arrays + tally.strings) as int,
    );
}

/// In every state of an execution that collects no statistics, they are those of an
/// execution that has allocated nothing.
pub proof fn law_statistics_stay_while_off(states: Seq<ExecutionContext>, i: int, j: int)
    requires
        is_execution(states),
        0 <= i <= j < states.len(),
        !states[i].configuration().collect_stats,
    ensures
        states[j].memory_statistics() == no_stats(),
{
    lemma_execution(states, i, j);
    assert(states[j].wf());
}

/// What holds from a state of an execution to a later one.
proof fn lemma_execution(states: Seq<ExecutionContext>, i: int, j: int)
    requires
        is_execution(states),
        0 <= i <= j < states.len(),
    ensures
        states[j].counts_on(states[i]),
        states[j].configuration().collect_stats == states[i].configuration().collect_stats,
    decreases j - i,
{
    if i < j {
        lemma_execution(states, i, j - 1);
        assert(states[j].counts_on(states[j - 1]));
    }
}

} // verus!
