//! Terminal I/O backing `aster.io.Write`, `WriteLine` and `ReadLine`.
//!
//! [`ConsoleBackend`] is the injectable seam. Each context owns its backend, so
//! output from one context never appears in another and input from one is never
//! consumed by another.

use vstd::prelude::*;

use crate::io_error::{HostIoError, HostIoErrorKind};

verus! {

/// One line read from the console, or `None` on end-of-input. The bytes include
/// the terminator (if any); callers strip it.
pub type ReadLineResult = Result<Option<Vec<u8>>, HostIoError>;

/// One write that a console accepted.
#[verifier::ext_equal]
pub struct ConsoleWrite {
    /// Whether it went to the error stream.
    pub to_error: bool,
    pub bytes: Seq<u8>,
}

/// All bytes of a transcript, in the order in which they were written.
pub open spec fn transcript_bytes(transcript: Seq<ConsoleWrite>) -> Seq<u8>
    decreases transcript.len(),
{
    if transcript.len() == 0 {
        Seq::empty()
    } else {
        transcript_bytes(transcript.drop_last()) + transcript.last().bytes
    }
}

/// One thing that a console was asked to do, and what it replied.
#[verifier::ext_equal]
#[allow(inconsistent_fields)]
pub enum ConsoleCall {
    Write { to_error: bool, bytes: Seq<u8>, reply: Result<(), Seq<char>> },
    Flush { to_error: bool, reply: Result<(), Seq<char>> },
    ReadLine { reply: Result<Option<Seq<u8>>, Seq<char>> },
}

/// A reply, with the text of its error.
pub open spec fn reply_text(reply: Result<(), HostIoError>) -> Result<(), Seq<char>> {
    match reply {
        Ok(_) => Ok(()),
        Err(error) => Err(error.text@),
    }
}

/// A line, with the text of its error.
pub open spec fn line_text(reply: ReadLineResult) -> Result<Option<Seq<u8>>, Seq<char>> {
    match reply {
        Ok(Some(line)) => Ok(Some(line@)),
        Ok(None) => Ok(None),
        Err(error) => Err(error.text@),
    }
}

/// Injectable terminal backend for `aster.io`. Implementations own whatever
/// host resource they read from or write to.
pub trait ConsoleBackend: Send {
    /// Everything that was asked of this backend so far, and what it replied. Only
    /// contracts speak of it: nothing is recorded when a program runs.
    open spec fn calls(&self) -> Seq<ConsoleCall> {
        Seq::empty()
    }

    /// Write raw bytes verbatim (no newline, no encoding conversion).
    fn write(&mut self, bytes: &[u8]) -> (result: Result<(), HostIoError>)
        ensures
            final(self).calls() == old(self).calls().push(
                ConsoleCall::Write { to_error: false, bytes: bytes@, reply: reply_text(result) },
            ),
    ;

    /// Make prior writes visible to whatever this backend represents.
    fn flush(&mut self) -> (result: Result<(), HostIoError>)
        ensures
            final(self).calls() == old(self).calls().push(
                ConsoleCall::Flush { to_error: false, reply: reply_text(result) },
            ),
    ;

    /// Write raw bytes verbatim to the error stream.
    fn write_error(&mut self, bytes: &[u8]) -> (result: Result<(), HostIoError>)
        ensures
            final(self).calls() == old(self).calls().push(
                ConsoleCall::Write { to_error: true, bytes: bytes@, reply: reply_text(result) },
            ),
    ;

    /// Make prior writes to the error stream visible.
    fn flush_error(&mut self) -> (result: Result<(), HostIoError>)
        ensures
            final(self).calls() == old(self).calls().push(
                ConsoleCall::Flush { to_error: true, reply: reply_text(result) },
            ),
    ;

    /// Read one line, including its terminator. `Ok(None)` means end of input
    /// with no more bytes available.
    fn read_line(&mut self) -> (result: ReadLineResult)
        ensures
            final(self).calls() == old(self).calls().push(
                ConsoleCall::ReadLine { reply: line_text(result) },
            ),
    ;
}

/// Where the first line of `input` from `start` on ends: behind its line feed,
/// or at the end of the input.
pub open spec fn line_end(input: Seq<u8>, start: int) -> int
    decreases input.len() - start,
{
    if start < 0 || start >= input.len() {
        start
    } else if input[start] == 10 {
        start + 1
    } else {
        line_end(input, start + 1)
    }
}

/// One write that a [`MemoryConsoleBackend`] recorded.
struct RecordedWrite {
    to_error: bool,
    bytes: Vec<u8>,
}

/// In-memory backend: reads from a pre-loaded byte buffer and records what is
/// written for inspection afterward.
pub struct MemoryConsoleBackend {
    input: Vec<u8>,
    position: usize,
    writes: Vec<RecordedWrite>,
    log: Ghost<Seq<ConsoleCall>>,
}

impl MemoryConsoleBackend {
    /// Every write so far.
    pub closed spec fn transcript(&self) -> Seq<ConsoleWrite> {
        Seq::new(
            self.writes@.len(),
            |i: int|
                ConsoleWrite {
                    to_error: self.writes@[i].to_error,
                    bytes: self.writes@[i].bytes@,
                },
        )
    }

    /// The input that was not read yet.
    pub closed spec fn pending(&self) -> Seq<u8> {
        if self.position <= self.input@.len() {
            self.input@.skip(self.position as int)
        } else {
            Seq::empty()
        }
    }

    /// `input` is consumed line by line by `read_line`. Output accumulates and
    /// can be read back through [`Self::output`].
    pub fn new(input: Vec<u8>) -> (backend: Self)
        ensures
            backend.pending() == input@,
            backend.transcript() == Seq::<ConsoleWrite>::empty(),
            backend.calls() == Seq::<ConsoleCall>::empty(),
    {
        let backend = MemoryConsoleBackend {
            input,
            position: 0,
            writes: Vec::new(),
            log: Ghost(Seq::empty()),
        };
        assert(backend.pending() =~= input@);
        assert(backend.transcript() =~= Seq::<ConsoleWrite>::empty());
        backend
    }

    /// Bytes written so far, to either stream.
    pub fn output(&self) -> (bytes: Vec<u8>)
        ensures
            bytes@ == transcript_bytes(self.transcript()),
    {
        let mut bytes: Vec<u8> = Vec::new();
        let mut at: usize = 0;
        while at < self.writes.len()
            invariant
                at <= self.writes@.len(),
                bytes@ == transcript_bytes(self.transcript().take(at as int)),
            decreases self.writes@.len() - at,
        {
            let ghost start = bytes@;
            bytes.extend_from_slice(self.writes[at].bytes.as_slice());
            proof {
                let next = self.transcript().take(at + 1);
                assert(next.drop_last() =~= self.transcript().take(at as int));
                assert(bytes@ =~= start + self.writes@[at as int].bytes@);
            }
            at = at + 1;
        }
        assert(self.transcript().take(at as int) =~= self.transcript());
        bytes
    }

    fn accept(&mut self, bytes: &[u8], to_error: bool)
        ensures
            final(self).transcript() == old(self).transcript().push(
                (ConsoleWrite { to_error, bytes: bytes@ }),
            ),
            final(self).pending() == old(self).pending(),
            final(self).log@ == old(self).log@,
    {
        let copy: Vec<u8> = vstd::slice::slice_to_vec(bytes);
        self.writes.push(RecordedWrite { to_error, bytes: copy });
        assert(self.transcript() =~= old(self).transcript().push(
            (ConsoleWrite { to_error, bytes: bytes@ }),
        ));
    }
}

impl Default for MemoryConsoleBackend {
    fn default() -> (backend: Self)
        ensures
            backend.pending() == Seq::<u8>::empty(),
            backend.transcript() == Seq::<ConsoleWrite>::empty(),
            backend.calls() == Seq::<ConsoleCall>::empty(),
    {
        MemoryConsoleBackend::new(Vec::new())
    }
}

impl ConsoleBackend for MemoryConsoleBackend {
    closed spec fn calls(&self) -> Seq<ConsoleCall> {
        self.log@
    }

    fn write(&mut self, bytes: &[u8]) -> (result: Result<(), HostIoError>)
        ensures
            result is Ok,
            final(self).transcript() == old(self).transcript().push(
                (ConsoleWrite { to_error: false, bytes: bytes@ }),
            ),
            final(self).pending() == old(self).pending(),
    {
        self.accept(bytes, false);
        let result: Result<(), HostIoError> = Ok(());
        self.log = Ghost(
            self.log@.push(
                ConsoleCall::Write { to_error: false, bytes: bytes@, reply: reply_text(result) },
            ),
        );
        assert(self.transcript() =~= old(self).transcript().push(
            (ConsoleWrite { to_error: false, bytes: bytes@ }),
        ));
        result
    }

    fn flush(&mut self) -> (result: Result<(), HostIoError>)
        ensures
            result is Ok,
            final(self).transcript() == old(self).transcript(),
            final(self).pending() == old(self).pending(),
    {
        let result: Result<(), HostIoError> = Ok(());
        self.log = Ghost(
            self.log@.push(ConsoleCall::Flush { to_error: false, reply: reply_text(result) }),
        );
        assert(self.transcript() =~= old(self).transcript());
        result
    }

    fn write_error(&mut self, bytes: &[u8]) -> (result: Result<(), HostIoError>)
        ensures
            result is Ok,
            final(self).transcript() == old(self).transcript().push(
                (ConsoleWrite { to_error: true, bytes: bytes@ }),
            ),
            final(self).pending() == old(self).pending(),
    {
        self.accept(bytes, true);
        let result: Result<(), HostIoError> = Ok(());
        self.log = Ghost(
            self.log@.push(
                ConsoleCall::Write { to_error: true, bytes: bytes@, reply: reply_text(result) },
            ),
        );
        assert(self.transcript() =~= old(self).transcript().push(
            (ConsoleWrite { to_error: true, bytes: bytes@ }),
        ));
        result
    }

    fn flush_error(&mut self) -> (result: Result<(), HostIoError>)
        ensures
            result is Ok,
            final(self).transcript() == old(self).transcript(),
            final(self).pending() == old(self).pending(),
    {
        let result: Result<(), HostIoError> = Ok(());
        self.log = Ghost(
            self.log@.push(ConsoleCall::Flush { to_error: true, reply: reply_text(result) }),
        );
        assert(self.transcript() =~= old(self).transcript());
        result
    }

    fn read_line(&mut self) -> (result: ReadLineResult)
        ensures
            result is Ok,
            final(self).transcript() == old(self).transcript(),
            old(self).pending().len() == 0 ==> result->Ok_0 is None && final(self).pending()
                == old(self).pending(),
            old(self).pending().len() > 0 ==> {
                let end = line_end(old(self).pending(), 0);
                &&& result->Ok_0 is Some
                &&& result->Ok_0->0@ == old(self).pending().take(end)
                &&& final(self).pending() == old(self).pending().skip(end)
            },
    {
        let ghost pending = self.pending();
        if self.position >= self.input.len() {
            assert(pending =~= Seq::<u8>::empty());
            self.log = Ghost(self.log@.push(ConsoleCall::ReadLine { reply: Ok(None) }));
            assert(self.transcript() =~= old(self).transcript());
            return Ok(None);
        }
        let start: usize = self.position;
        let mut line: Vec<u8> = Vec::new();
        let mut at: usize = start;
        let mut done: bool = false;
        while at < self.input.len() && !done
            invariant
                start <= at <= self.input@.len(),
                start < self.input@.len(),
                *self == *old(self),
                start == self.position,
                pending == self.input@.skip(start as int),
                line@ == pending.take(at - start),
                done ==> line_end(pending, 0) == at - start,
                !done ==> line_end(pending, 0) == line_end(pending, at - start),
            decreases self.input@.len() - at,
        {
            let byte: u8 = self.input[at];
            line.push(byte);
            assert(pending[at - start] == byte);
            assert(line@ =~= pending.take(at + 1 - start));
            if byte == 10 {
                done = true;
            }
            at = at + 1;
        }
        self.position = at;
        assert(self.pending() =~= pending.skip(at - start));
        self.log = Ghost(self.log@.push(ConsoleCall::ReadLine { reply: Ok(Some(line@)) }));
        assert(self.transcript() =~= old(self).transcript());
        Ok(Some(line))
    }
}

/// Backend that always fails, as a host does whose console is gone.
pub struct FailingConsoleBackend {
    log: Ghost<Seq<ConsoleCall>>,
}

impl Default for FailingConsoleBackend {
    fn default() -> (backend: Self)
        ensures
            backend.calls() == Seq::<ConsoleCall>::empty(),
    {
        FailingConsoleBackend { log: Ghost(Seq::empty()) }
    }
}

/// An error of no particular kind with this text.
pub open spec fn is_failure(error: HostIoError, text: Seq<char>) -> bool {
    &&& error.kind == HostIoErrorKind::Other
    &&& error.raw_os_error is None
    &&& error.text@ == text
}

impl ConsoleBackend for FailingConsoleBackend {
    closed spec fn calls(&self) -> Seq<ConsoleCall> {
        self.log@
    }

    fn write(&mut self, bytes: &[u8]) -> (result: Result<(), HostIoError>)
        ensures
            result is Err,
            is_failure(result->Err_0, "simulated console write failure"@),
    {
        let result: Result<(), HostIoError> = Err(
            HostIoError::new(HostIoErrorKind::Other, "simulated console write failure"),
        );
        self.log = Ghost(
            self.log@.push(ConsoleCall::Write { to_error: false, bytes: bytes@, reply: reply_text(result) }),
        );
        result
    }

    fn flush(&mut self) -> (result: Result<(), HostIoError>)
        ensures
            result is Err,
            is_failure(result->Err_0, "simulated console flush failure"@),
    {
        let result: Result<(), HostIoError> = Err(
            HostIoError::new(HostIoErrorKind::Other, "simulated console flush failure"),
        );
        self.log = Ghost(
            self.log@.push(ConsoleCall::Flush { to_error: false, reply: reply_text(result) }),
        );
        result
    }

    fn write_error(&mut self, bytes: &[u8]) -> (result: Result<(), HostIoError>)
        ensures
            result is Err,
            is_failure(result->Err_0, "simulated console write failure"@),
    {
        let result: Result<(), HostIoError> = Err(
            HostIoError::new(HostIoErrorKind::Other, "simulated console write failure"),
        );
        self.log = Ghost(
            self.log@.push(ConsoleCall::Write { to_error: true, bytes: bytes@, reply: reply_text(result) }),
        );
        result
    }

    fn flush_error(&mut self) -> (result: Result<(), HostIoError>)
        ensures
            result is Err,
            is_failure(result->Err_0, "simulated console flush failure"@),
    {
        let result: Result<(), HostIoError> = Err(
            HostIoError::new(HostIoErrorKind::Other, "simulated console flush failure"),
        );
        self.log = Ghost(
            self.log@.push(ConsoleCall::Flush { to_error: true, reply: reply_text(result) }),
        );
        result
    }

    fn read_line(&mut self) -> (result: ReadLineResult)
        ensures
            result is Err,
            is_failure(result->Err_0, "simulated console read failure"@),
    {
        let result: ReadLineResult = Err(
            HostIoError::new(HostIoErrorKind::Other, "simulated console read failure"),
        );
        self.log = Ghost(
            self.log@.push(ConsoleCall::ReadLine { reply: line_text(result) }),
        );
        result
    }
}

/// `bytes` without one logical line terminator.
pub open spec fn without_terminator(bytes: Seq<u8>) -> Seq<u8> {
    let body = if bytes.len() > 0 && bytes.last() == 10 {
        bytes.drop_last()
    } else {
        bytes
    };
    if body.len() > 0 && body.last() == 13 {
        body.drop_last()
    } else {
        body
    }
}

/// Strip exactly one logical line terminator: a trailing `\n`, and then a
/// trailing `\r` if one remains. Never trims anything else.
pub fn strip_line_terminator(bytes: &[u8]) -> (stripped: &[u8])
    ensures
        stripped@ == without_terminator(bytes@),
{
    let mut end: usize = bytes.len();
    if end > 0 && bytes[end - 1] == 10 {
        end = end - 1;
    }
    if end > 0 && bytes[end - 1] == 13 {
        end = end - 1;
    }
    let stripped: &[u8] = vstd::slice::slice_subrange(bytes, 0, end);
    assert(stripped@ =~= without_terminator(bytes@));
    stripped
}

/// The transcript after a call: a write adds to it, and nothing else does.
pub open spec fn transcript_after(transcript: Seq<ConsoleWrite>, call: ConsoleCall) -> Seq<
    ConsoleWrite,
> {
    match call {
        ConsoleCall::Write { to_error, bytes, .. } => transcript.push(
            (ConsoleWrite { to_error, bytes }),
        ),
        _ => transcript,
    }
}

/// The bytes that the first `n` calls write.
pub open spec fn written_by(calls: Seq<ConsoleCall>, n: int) -> Seq<u8>
    decreases n,
{
    if n <= 0 {
        Seq::empty()
    } else {
        match calls[n - 1] {
            ConsoleCall::Write { bytes, .. } => written_by(calls, n - 1) + bytes,
            _ => written_by(calls, n - 1),
        }
    }
}

/// After any calls, the output of a memory console is what they wrote, in order. Who
/// makes a call does not matter: the calls of several owners who take turns with one
/// console are such calls.
pub proof fn law_output_is_what_was_written(
    transcripts: Seq<Seq<ConsoleWrite>>,
    calls: Seq<ConsoleCall>,
    n: int,
)
    requires
        transcripts.len() == calls.len() + 1,
        transcripts[0].len() == 0,
        forall|i: int|
            0 <= i < calls.len() ==> #[trigger] transcripts[i + 1] == transcript_after(
                transcripts[i],
                calls[i],
            ),
        0 <= n < transcripts.len(),
    ensures
        transcript_bytes(transcripts[n]) == written_by(calls, n),
    decreases n,
{
    if n > 0 {
        law_output_is_what_was_written(transcripts, calls, n - 1);
        assert(transcripts[n - 1 + 1] == transcript_after(transcripts[n - 1], calls[n - 1]));
        match calls[n - 1] {
            ConsoleCall::Write { to_error, bytes, .. } => {
                assert(transcripts[n].drop_last() =~= transcripts[n - 1]);
            },
            _ => {},
        }
    }
}

} // verus!
