//! Terminal operations as generated code calls them, and logging.
//!
//! A log line is `[log] message` on the ordinary stream for normal messages, and
//! `[warning] message` or `[error] message` on the error stream. Messages have no
//! timestamps. Logging is not error handling: nothing that goes wrong with it is
//! recorded.

use vstd::bytes::{lemma_auto_spec_u64_to_from_le_bytes, spec_u64_to_le_bytes, u64_to_le_bytes};
use vstd::prelude::*;
use vstd::utf8::*;

use crate::context::ExecutionContext;
use crate::io::{
    line_text, reply_text, strip_line_terminator, without_terminator, ConsoleBackend, ConsoleCall,
    ReadLineResult,
};
use crate::io_error::HostIoError;
use crate::string::{text_payload, view_str};
use crate::string_parse::{option_result, write_option_result};
use crate::text::{push_signed_decimal, signed_decimal};
use crate::utf8::is_utf8;

verus! {

/// One thing that a console is asked to do.
#[verifier::ext_equal]
pub enum ConsoleAsk {
    Write { to_error: bool, bytes: Seq<u8> },
    Flush { to_error: bool },
    ReadLine,
}

/// What was asked in a call.
pub open spec fn asked(call: ConsoleCall) -> ConsoleAsk {
    match call {
        ConsoleCall::Write { to_error, bytes, .. } => ConsoleAsk::Write { to_error, bytes },
        ConsoleCall::Flush { to_error, .. } => ConsoleAsk::Flush { to_error },
        ConsoleCall::ReadLine { .. } => ConsoleAsk::ReadLine,
    }
}

/// Why a call was refused, if it was.
pub open spec fn refusal(call: ConsoleCall) -> Option<Seq<char>> {
    match call {
        ConsoleCall::Write { reply: Err(text), .. } => Some(text),
        ConsoleCall::Flush { reply: Err(text), .. } => Some(text),
        ConsoleCall::ReadLine { reply: Err(text) } => Some(text),
        _ => None,
    }
}

/// The calls follow the plan, up to the first one that is refused.
pub open spec fn follows(calls: Seq<ConsoleCall>, plan: Seq<ConsoleAsk>) -> bool {
    &&& 0 < calls.len() <= plan.len()
    &&& forall|i: int| 0 <= i < calls.len() ==> asked(#[trigger] calls[i]) == plan[i]
    &&& forall|i: int| 0 <= i < calls.len() - 1 ==> refusal(#[trigger] calls[i]) is None
    &&& calls.len() < plan.len() ==> refusal(calls.last()) is Some
}

/// What is asked of a console to write a text and make it visible.
pub open spec fn write_plan(bytes: Seq<u8>, newline: bool) -> Seq<ConsoleAsk> {
    let text = seq![ConsoleAsk::Write { to_error: false, bytes }];
    let end = seq![ConsoleAsk::Flush { to_error: false }];
    if newline {
        text + seq![ConsoleAsk::Write { to_error: false, bytes: seq![10u8] }] + end
    } else {
        text + end
    }
}

/// The report about calls of which the last was refused.
pub open spec fn write_report(calls: Seq<ConsoleCall>, operation: Seq<char>) -> Option<Seq<char>> {
    match (refusal(calls.last()), calls.last()) {
        (None, _) => None,
        (Some(text), ConsoleCall::Flush { .. }) => Some(
            "aster.io."@ + operation + " failed to flush: "@ + text,
        ),
        (Some(text), _) => Some("aster.io."@ + operation + " failed: "@ + text),
    }
}

impl ExecutionContext {
    /// Whether `self` came out of `before` by asking the console `calls` and
    /// recording the report, if there is one.
    pub open spec fn asked_console(
        &self,
        before: Self,
        calls: Seq<ConsoleCall>,
        report: Option<Seq<char>>,
    ) -> bool {
        exists|after: ExecutionContext|
            {
                &&& #[trigger] after.only_asked_console(before, calls)
                &&& match report {
                    Some(text) => self.only_failed(after, text),
                    None => *self == after,
                }
            }
    }

    /// What writing a text makes of the context `before`: a report and nothing
    /// else where that is not possible; otherwise the text goes to the console,
    /// as far as it takes it, and what it refuses is reported.
    pub open spec fn write_outcome(
        &self,
        before: Self,
        value: Option<&[u8]>,
        newline: bool,
        operation: Seq<char>,
    ) -> bool {
        match text_payload(value) {
            None => self.only_failed(
                before,
                "aster.io."@ + operation + " received an invalid UTF-8 string reference"@,
            ),
            Some(bytes) => exists|calls: Seq<ConsoleCall>|
                #[trigger] follows(calls, write_plan(bytes, newline)) && self.asked_console(
                    before,
                    calls,
                    write_report(calls, operation),
                ),
        }
    }

    /// Records a report about one operation on the terminal.
    fn fail_io(&mut self, operation: &str, rest: &str, text: &str)
        requires
            old(self).wf(),
        ensures
            final(self).wf(),
            final(self).only_failed(*old(self), "aster.io."@ + operation@ + rest@ + text@),
    {
        let mut message: String = "aster.io.".to_owned();
        message.append(operation);
        message.append(rest);
        message.append(text);
        self.fail(message);
    }

    /// Writes a text to the console, and makes it visible.
    fn write_and_flush(&mut self, value: Option<&[u8]>, newline: bool, operation: &str)
        requires
            old(self).wf(),
        ensures
            final(self).wf(),
            old(self).scoped() ==> final(self).scoped(),
            final(self).write_outcome(*old(self), value, newline, operation@),
    {
        let ghost before = *self;
        let bytes: &[u8] = match view_str(value) {
            None => {
                self.fail_io(operation, " received an invalid UTF-8 string reference", "");
                assert("aster.io."@ + operation@
                    + " received an invalid UTF-8 string reference"@ + ""@ =~= "aster.io."@
                    + operation@ + " received an invalid UTF-8 string reference"@) by {
                    reveal_strlit("");
                }
                return ;
            },
            Some(bytes) => bytes,
        };
        let ghost plan = write_plan(bytes@, newline);
        let ghost mut calls: Seq<ConsoleCall> = Seq::empty();
        let reply: Result<(), HostIoError> = self.console_write(false, bytes);
        let ghost after = *self;
        proof {
            calls = seq![
                ConsoleCall::Write { to_error: false, bytes: bytes@, reply: reply_text(reply) },
            ];
        }
        if let Err(error) = reply {
            self.fail_io(operation, " failed: ", error.text.as_str());
            proof {
                assert(follows(calls, plan));
                assert(after.only_asked_console(before, calls));
                assert(self.asked_console(before, calls, write_report(calls, operation@)));
            }
            return ;
        }
        if newline {
            let end: [u8; 1] = [10];
            assert(end@ =~= seq![10u8]);
            let reply: Result<(), HostIoError> = self.console_write(false, &end);
            let ghost after = *self;
            proof {
                let earlier = calls;
                calls = earlier.push(
                    ConsoleCall::Write { to_error: false, bytes: end@, reply: reply_text(reply) },
                );
                assert(calls =~= earlier + seq![calls[1]]);
                assert(after.console_calls() =~= before.console_calls() + calls);
            }
            if let Err(error) = reply {
                self.fail_io(operation, " failed: ", error.text.as_str());
                proof {
                    assert(follows(calls, plan));
                    assert(after.only_asked_console(before, calls));
                    assert(self.asked_console(before, calls, write_report(calls, operation@)));
                }
                return ;
            }
        }
        let reply: Result<(), HostIoError> = self.console_flush(false);
        let ghost after = *self;
        proof {
            let earlier = calls;
            calls = earlier.push(
                ConsoleCall::Flush { to_error: false, reply: reply_text(reply) },
            );
            assert(calls =~= earlier + seq![calls.last()]);
            assert(after.console_calls() =~= before.console_calls() + calls);
            assert(follows(calls, plan));
            assert(after.only_asked_console(before, calls));
        }
        if let Err(error) = reply {
            self.fail_io(operation, " failed to flush: ", error.text.as_str());
        }
        proof {
            assert(self.asked_console(before, calls, write_report(calls, operation@)));
        }
    }
}

/// Writes the bytes of a string, and nothing else.
pub fn aster_rt_io_write(context: Option<&mut ExecutionContext>, value: Option<&[u8]>)
    requires
        context matches Some(c) ==> c.wf(),
    ensures
        context matches Some(c) ==> {
            &&& final(c).wf()
            &&& c.scoped() ==> final(c).scoped()
            &&& final(c).write_outcome(*c, value, false, "Write"@)
        },
{
    if let Some(context) = context {
        context.write_and_flush(value, false, "Write");
    }
}

/// Writes the bytes of a string and a line feed.
pub fn aster_rt_io_write_line(context: Option<&mut ExecutionContext>, value: Option<&[u8]>)
    requires
        context matches Some(c) ==> c.wf(),
    ensures
        context matches Some(c) ==> {
            &&& final(c).wf()
            &&& c.scoped() ==> final(c).scoped()
            &&& final(c).write_outcome(*c, value, true, "WriteLine"@)
        },
{
    if let Some(context) = context {
        context.write_and_flush(value, true, "WriteLine");
    }
}

/// What keeps a line from being read.
pub open spec fn read_line_report(
    has_destination: bool,
    total_size: i32,
    payload_offset: i32,
) -> Option<Seq<char>> {
    if !has_destination {
        Some("aster.io.ReadLine received a null destination"@)
    } else if total_size < 0 || payload_offset < 0 {
        Some("aster.io.ReadLine received a negative layout size"@)
    } else if payload_offset + 8 > usize::MAX {
        Some("aster.io.ReadLine payload offset overflows"@)
    } else if payload_offset + 8 > total_size {
        Some("aster.io.ReadLine destination is too small for its payload"@)
    } else {
        None
    }
}

/// Where a result goes, and how it is marked.
#[derive(Clone, Copy, Debug, PartialEq, Eq, Structural)]
pub struct OptionLayout {
    pub total_size: i32,
    pub some_tag: i32,
    pub none_tag: i32,
    pub payload_offset: i32,
}

/// A destination after `None`, or `Some` with an address, was written to it.
pub open spec fn address_option(target: Seq<u8>, layout: OptionLayout, address: Option<u64>) -> Seq<
    u8,
> {
    option_result(
        target,
        layout.total_size as int,
        layout.payload_offset as int,
        match address {
            Some(address) => Some(spec_u64_to_le_bytes(address)),
            None => None,
        },
        layout.some_tag,
        layout.none_tag,
    )
}

impl ExecutionContext {
    /// What storing the reply of the console makes of the context `before` and
    /// of the destination. The end of the input is `None`. A line is stored
    /// without its end; the address of a line that could not be stored is zero.
    /// What is no text, and what the console refused, is reported, and leaves
    /// the destination as it is.
    pub open spec fn line_outcome(
        &self,
        before: Self,
        reply: Result<Option<Seq<u8>>, Seq<char>>,
        temporary: bool,
        target: Seq<u8>,
        written: Seq<u8>,
        layout: OptionLayout,
    ) -> bool {
        match reply {
            Err(text) => {
                &&& written == target
                &&& self.only_failed(before, "aster.io.ReadLine failed: "@ + text)
            },
            Ok(None) => {
                &&& written == address_option(target, layout, None)
                &&& *self == before
            },
            Ok(Some(line)) => if valid_utf8(without_terminator(line)) {
                exists|result: Option<u64>|
                    {
                        &&& #[trigger] self.string_outcome(
                            before,
                            temporary,
                            without_terminator(line),
                            result,
                        )
                        &&& written == address_option(
                            target,
                            layout,
                            Some(
                                match result {
                                    Some(address) => address,
                                    None => 0,
                                },
                            ),
                        )
                    }
            } else {
                &&& written == target
                &&& self.only_failed(before, "aster.io.ReadLine received invalid UTF-8 input"@)
            },
        }
    }

    /// Stores the reply of the console as an option.
    pub fn store_line(
        &mut self,
        reply: ReadLineResult,
        temporary: bool,
        destination: &mut Vec<u8>,
        layout: OptionLayout,
    )
        requires
            old(self).wf(),
            read_line_report(true, layout.total_size, layout.payload_offset) is None,
            old(destination)@.len() >= layout.total_size,
        ensures
            final(self).wf(),
            old(self).scoped() ==> final(self).scoped(),
            final(self).line_outcome(
                *old(self),
                line_text(reply),
                temporary,
                old(destination)@,
                final(destination)@,
                layout,
            ),
    {
        let ghost before = *self;
        let total_size: usize = layout.total_size as usize;
        let payload_offset: usize = layout.payload_offset as usize;
        match reply {
            Err(error) => {
                let mut message: String = "aster.io.ReadLine failed: ".to_owned();
                message.append(error.text.as_str());
                self.fail(message);
            },
            Ok(None) => {
                write_option_result(
                    destination,
                    total_size,
                    payload_offset,
                    &None,
                    layout.some_tag,
                    layout.none_tag,
                );
            },
            Ok(Some(line)) => {
                let text: &[u8] = strip_line_terminator(line.as_slice());
                if !is_utf8(text) {
                    self.fail_with("aster.io.ReadLine received invalid UTF-8 input");
                    return ;
                }
                let result: Option<u64> = self.allocate_text(text, temporary);
                proof {
                    lemma_auto_spec_u64_to_from_le_bytes();
                    assert(self.string_outcome(before, temporary, text@, result));
                }
                let address: u64 = match result {
                    Some(address) => address,
                    None => 0,
                };
                write_option_result(
                    destination,
                    total_size,
                    payload_offset,
                    &Some(u64_to_le_bytes(address)),
                    layout.some_tag,
                    layout.none_tag,
                );
            },
        }
    }

    /// What reading a line makes of the context `before` and of the destination:
    /// a report and nothing else where it cannot be read; otherwise what the
    /// console replied is stored.
    pub open spec fn read_line_outcome(
        &self,
        before: Self,
        temporary: bool,
        target: Seq<u8>,
        written: Seq<u8>,
        layout: OptionLayout,
    ) -> bool {
        match read_line_report(true, layout.total_size, layout.payload_offset) {
            Some(text) => written == target && self.only_failed(before, text),
            None => exists|
                after: ExecutionContext,
                reply: Result<Option<Seq<u8>>, Seq<char>>,
            |
                {
                    &&& #[trigger] after.only_asked_console(
                        before,
                        seq![ConsoleCall::ReadLine { reply }],
                    )
                    &&& self.line_outcome(after, reply, temporary, target, written, layout)
                },
        }
    }
}

/// Does the work of the two calls below.
fn read_line_into_option(
    context: Option<&mut ExecutionContext>,
    destination: Option<&mut Vec<u8>>,
    layout: OptionLayout,
    temporary: bool,
)
    requires
        context matches Some(c) ==> c.wf(),
        destination matches Some(d) ==> d@.len() >= layout.total_size,
    ensures
        context is None ==> (destination matches Some(d) ==> final(d)@ == d@),
        context matches Some(c) ==> {
            &&& final(c).wf()
            &&& c.scoped() ==> final(c).scoped()
            &&& destination is None ==> final(c).only_failed(
                *c,
                "aster.io.ReadLine received a null destination"@,
            )
            &&& destination matches Some(d) ==> final(c).read_line_outcome(
                *c,
                temporary,
                d@,
                final(d)@,
                layout,
            )
        },
{
    let context: &mut ExecutionContext = match context {
        None => {
            return ;
        },
        Some(context) => context,
    };
    let destination: &mut Vec<u8> = match destination {
        None => {
            context.fail_with("aster.io.ReadLine received a null destination");
            return ;
        },
        Some(destination) => destination,
    };
    if layout.total_size < 0 || layout.payload_offset < 0 {
        context.fail_with("aster.io.ReadLine received a negative layout size");
        return ;
    }
    let payload_end: usize = match (layout.payload_offset as usize).checked_add(8) {
        None => {
            context.fail_with("aster.io.ReadLine payload offset overflows");
            return ;
        },
        Some(end) => end,
    };
    if payload_end > layout.total_size as usize {
        context.fail_with("aster.io.ReadLine destination is too small for its payload");
        return ;
    }
    let ghost before = *context;
    let reply: ReadLineResult = context.console_read_line();
    let ghost after = *context;
    let ghost said = line_text(reply);
    proof {
        assert(after.only_asked_console(before, seq![ConsoleCall::ReadLine { reply: said }]));
    }
    context.store_line(reply, temporary, destination, layout);
}

/// Reads one line into an option. The end of the input is `None`.
pub fn aster_rt_io_read_line(
    context: Option<&mut ExecutionContext>,
    destination: Option<&mut Vec<u8>>,
    total_size: i32,
    some_tag: i32,
    none_tag: i32,
    payload_offset: i32,
)
    requires
        context matches Some(c) ==> c.wf(),
        destination matches Some(d) ==> d@.len() >= total_size,
    ensures
        context is None ==> (destination matches Some(d) ==> final(d)@ == d@),
        context matches Some(c) ==> {
            &&& final(c).wf()
            &&& c.scoped() ==> final(c).scoped()
            &&& destination is None ==> final(c).only_failed(
                *c,
                "aster.io.ReadLine received a null destination"@,
            )
            &&& destination matches Some(d) ==> final(c).read_line_outcome(
                *c,
                false,
                d@,
                final(d)@,
                (OptionLayout { total_size, some_tag, none_tag, payload_offset }),
            )
        },
{
    read_line_into_option(
        context,
        destination,
        OptionLayout { total_size, some_tag, none_tag, payload_offset },
        false,
    );
}

/// Reads one line into an option. The line lives until its scope is left.
pub fn aster_rt_io_read_line_temporary(
    context: Option<&mut ExecutionContext>,
    destination: Option<&mut Vec<u8>>,
    total_size: i32,
    some_tag: i32,
    none_tag: i32,
    payload_offset: i32,
)
    requires
        context matches Some(c) ==> c.wf(),
        destination matches Some(d) ==> d@.len() >= total_size,
    ensures
        context is None ==> (destination matches Some(d) ==> final(d)@ == d@),
        context matches Some(c) ==> {
            &&& final(c).wf()
            &&& c.scoped() ==> final(c).scoped()
            &&& destination is None ==> final(c).only_failed(
                *c,
                "aster.io.ReadLine received a null destination"@,
            )
            &&& destination matches Some(d) ==> final(c).read_line_outcome(
                *c,
                true,
                d@,
                final(d)@,
                (OptionLayout { total_size, some_tag, none_tag, payload_offset }),
            )
        },
{
    read_line_into_option(
        context,
        destination,
        OptionLayout { total_size, some_tag, none_tag, payload_offset },
        true,
    );
}

/// Severity of a log message.
#[derive(Clone, Copy, Debug, PartialEq, Eq, Structural)]
pub enum LogLevel {
    Log,
    Warning,
    Error,
}

/// The severity that a number stands for.
pub open spec fn log_level_of(value: i32) -> Option<LogLevel> {
    if value == 0 {
        Some(LogLevel::Log)
    } else if value == 1 {
        Some(LogLevel::Warning)
    } else if value == 2 {
        Some(LogLevel::Error)
    } else {
        None
    }
}

impl LogLevel {
    /// The severity that crosses the boundary as a number.
    pub fn from_abi(value: i32) -> (level: Option<Self>)
        ensures
            level == log_level_of(value),
    {
        if value == 0 {
            Some(LogLevel::Log)
        } else if value == 1 {
            Some(LogLevel::Warning)
        } else if value == 2 {
            Some(LogLevel::Error)
        } else {
            None
        }
    }

    pub open spec fn name(self) -> Seq<char> {
        match self {
            LogLevel::Log => "log"@,
            LogLevel::Warning => "warning"@,
            LogLevel::Error => "error"@,
        }
    }

    pub fn label(self) -> (label: &'static str)
        ensures
            label@ == self.name(),
    {
        match self {
            LogLevel::Log => "log",
            LogLevel::Warning => "warning",
            LogLevel::Error => "error",
        }
    }
}

/// What is asked of a console to log a message: one line and a flush, or one line
/// about what is wrong with the message.
pub open spec fn log_plan(level: i32, message: Option<&[u8]>) -> Seq<ConsoleAsk> {
    match (log_level_of(level), text_payload(message)) {
        (None, _) => seq![
            ConsoleAsk::Write {
                to_error: true,
                bytes: encode_utf8(
                    "[error] aster-runtime: invalid log level "@ + signed_decimal(level as int)
                        + "\n"@,
                ),
            },
        ],
        (Some(_), None) => seq![
            ConsoleAsk::Write {
                to_error: true,
                bytes: encode_utf8(
                    "[error] aster-runtime: log message is not a valid ABI string\n"@,
                ),
            },
        ],
        (Some(known), Some(text)) => seq![
            ConsoleAsk::Write {
                to_error: known != LogLevel::Log,
                bytes: encode_utf8("["@ + known.name() + "] "@) + text + seq![10u8],
            },
            ConsoleAsk::Flush { to_error: known != LogLevel::Log },
        ],
    }
}

impl ExecutionContext {
    /// What logging makes of the context `before`: the console is asked, and nothing
    /// else happens.
    pub open spec fn log_outcome(
        &self,
        before: Self,
        level: i32,
        message: Option<&[u8]>,
    ) -> bool {
        exists|calls: Seq<ConsoleCall>|
            #[trigger] follows(calls, log_plan(level, message)) && self.only_asked_console(
                before,
                calls,
            )
    }
}

/// Writes one log message.
pub fn aster_rt_log(context: Option<&mut ExecutionContext>, level: i32, message: Option<&[u8]>)
    requires
        context matches Some(c) ==> c.wf(),
    ensures
        context matches Some(c) ==> {
            &&& final(c).wf()
            &&& c.scoped() ==> final(c).scoped()
            &&& final(c).log_outcome(*c, level, message)
        },
{
    let context: &mut ExecutionContext = match context {
        None => {
            return ;
        },
        Some(context) => context,
    };
    let ghost before = *context;
    let ghost plan = log_plan(level, message);
    let known: LogLevel = match LogLevel::from_abi(level) {
        None => {
            let mut line: String = "[error] aster-runtime: invalid log level ".to_owned();
            push_signed_decimal(&mut line, level as i64);
            line.append("\n");
            let reply: Result<(), HostIoError> = context.console_write(
                true,
                line.as_str().as_bytes(),
            );
            proof {
                let calls = seq![
                    ConsoleCall::Write {
                        to_error: true,
                        bytes: encode_utf8(line@),
                        reply: reply_text(reply),
                    },
                ];
                assert(follows(calls, plan));
            }
            return ;
        },
        Some(known) => known,
    };
    let text: &[u8] = match view_str(message) {
        None => {
            let line: &str = "[error] aster-runtime: log message is not a valid ABI string\n";
            let reply: Result<(), HostIoError> = context.console_write(
                true,
                line.as_bytes(),
            );
            proof {
                let calls = seq![
                    ConsoleCall::Write {
                        to_error: true,
                        bytes: encode_utf8(line@),
                        reply: reply_text(reply),
                    },
                ];
                assert(follows(calls, plan));
            }
            return ;
        },
        Some(text) => text,
    };
    let mut head: String = "[".to_owned();
    head.append(known.label());
    head.append("] ");
    let mut line: Vec<u8> = vstd::slice::slice_to_vec(head.as_str().as_bytes());
    line.extend_from_slice(text);
    line.push(10);
    assert(line@ =~= encode_utf8("["@ + known.name() + "] "@) + text@ + seq![10u8]);
    let to_error: bool = known != LogLevel::Log;
    let reply: Result<(), HostIoError> = context.console_write(to_error, line.as_slice());
    let ghost call = ConsoleCall::Write { to_error, bytes: line@, reply: reply_text(reply) };
    if reply.is_ok() {
        let last: Result<(), HostIoError> = context.console_flush(to_error);
        proof {
            let end = ConsoleCall::Flush { to_error, reply: reply_text(last) };
            let calls = seq![call, end];
            assert(calls =~= seq![call] + seq![end]);
            assert(context.console_calls() =~= before.console_calls() + calls);
            assert(follows(calls, plan));
        }
    } else {
        proof {
            assert(follows(seq![call], plan));
        }
    }
}

/// What a program does between two states of its context. Any call that asks nothing
/// of the console is one of the others.
pub enum ConsoleTurn<'a> {
    Write { value: Option<&'a [u8]>, newline: bool },
    ReadLine { temporary: bool, target: Seq<u8>, written: Seq<u8>, layout: OptionLayout },
    Log { level: i32, message: Option<&'a [u8]> },
    Other,
}

impl<'a> ConsoleTurn<'a> {
    /// The call did what its contract says.
    pub open spec fn made(self, before: ExecutionContext, after: ExecutionContext) -> bool {
        match self {
            ConsoleTurn::Write { value, newline } => after.write_outcome(
                before,
                value,
                newline,
                if newline {
                    "WriteLine"@
                } else {
                    "Write"@
                },
            ),
            ConsoleTurn::ReadLine { temporary, target, written, layout } => after.read_line_outcome(
                before,
                temporary,
                target,
                written,
                layout,
            ),
            ConsoleTurn::Log { level, message } => after.log_outcome(before, level, message),
            ConsoleTurn::Other => after.installed().console == before.installed().console,
        }
    }

    /// Whether the call asks the console for just these things.
    pub open spec fn asks(self, calls: Seq<ConsoleCall>) -> bool {
        match self {
            ConsoleTurn::Write { value, newline } => match text_payload(value) {
                Some(bytes) => follows(calls, write_plan(bytes, newline)),
                None => calls.len() == 0,
            },
            ConsoleTurn::ReadLine { layout, .. } => if read_line_report(
                true,
                layout.total_size,
                layout.payload_offset,
            ) is None {
                calls.len() == 1 && calls[0] is ReadLine
            } else {
                calls.len() == 0
            },
            ConsoleTurn::Log { level, message } => follows(calls, log_plan(level, message)),
            ConsoleTurn::Other => calls.len() == 0,
        }
    }
}

/// What was asked in the first `n` turns, in order.
pub open spec fn asked_in_all(asked: Seq<Seq<ConsoleCall>>, n: int) -> Seq<ConsoleCall>
    decreases n,
{
    if n <= 0 {
        Seq::empty()
    } else {
        asked_in_all(asked, n - 1) + asked[n - 1]
    }
}

/// Whether the console that `state` has installed was asked for `earlier`, and then for
/// just what the first `n` turns ask for.
pub open spec fn reached(
    earlier: Seq<ConsoleCall>,
    turns: Seq<ConsoleTurn>,
    n: int,
    state: ExecutionContext,
) -> bool {
    exists|asked: Seq<Seq<ConsoleCall>>|
        {
            &&& asked.len() == n
            &&& forall|k: int| 0 <= k < n ==> turns[k].asks(#[trigger] asked[k])
            &&& state.console_calls() == earlier + #[trigger] asked_in_all(asked, n)
        }
}

/// Everything that a program asks of the console after one was injected is asked of
/// that one, in the order in which the program asks, until another is injected. So
/// the console that was installed before is asked for nothing more, and neither is
/// that of any other context.
pub proof fn law_calls_reach_the_injected_console<T: ConsoleBackend>(
    console: T,
    states: Seq<ExecutionContext>,
    turns: Seq<ConsoleTurn>,
    n: int,
)
    requires
        states.len() == turns.len() + 1,
        states[0].console_calls() == console.calls(),
        forall|k: int|
            0 <= k < turns.len() ==> (#[trigger] turns[k]).made(states[k], states[k + 1]),
        0 <= n <= turns.len(),
    ensures
        reached(console.calls(), turns, n, states[n]),
    decreases n,
{
    if n == 0 {
        let asked = Seq::<Seq<ConsoleCall>>::empty();
        assert(console.calls() + asked_in_all(asked, 0) =~= console.calls());
    } else {
        law_calls_reach_the_injected_console(console, states, turns, n - 1);
        assert(turns[n - 1].made(states[n - 1], states[n]));
        let asked = choose|asked: Seq<Seq<ConsoleCall>>|
            {
                &&& asked.len() == n - 1
                &&& forall|k: int| 0 <= k < n - 1 ==> turns[k].asks(#[trigger] asked[k])
                &&& states[n - 1].console_calls() == console.calls() + #[trigger] asked_in_all(
                    asked,
                    n - 1,
                )
            };
        let calls = lemma_turn_asks(turns[n - 1], states[n - 1], states[n]);
        let more = asked.push(calls);
        assert forall|k: int| 0 <= k < n implies turns[k].asks(#[trigger] more[k]) by {
            if k < n - 1 {
                assert(turns[k].asks(asked[k]));
            }
        }
        lemma_asked_in_all(asked, more, n - 1);
        assert(states[n].console_calls() =~= console.calls() + asked_in_all(more, n));
    }
}

/// What a turn asks of the console that is installed.
proof fn lemma_turn_asks(
    turn: ConsoleTurn,
    before: ExecutionContext,
    after: ExecutionContext,
) -> (calls: Seq<ConsoleCall>)
    requires
        turn.made(before, after),
    ensures
        turn.asks(calls),
        after.console_calls() == before.console_calls() + calls,
{
    let none = Seq::<ConsoleCall>::empty();
    assert(before.console_calls() + none =~= before.console_calls());
    match turn {
        ConsoleTurn::Write { value, newline } => {
            let operation = if newline {
                "WriteLine"@
            } else {
                "Write"@
            };
            match text_payload(value) {
                None => none,
                Some(bytes) => choose|calls: Seq<ConsoleCall>|
                    #[trigger] follows(calls, write_plan(bytes, newline)) && after.asked_console(
                        before,
                        calls,
                        write_report(calls, operation),
                    ),
            }
        },
        ConsoleTurn::ReadLine { temporary, target, written, layout } => {
            if read_line_report(true, layout.total_size, layout.payload_offset) is None {
                let (middle, reply) = choose|
                    middle: ExecutionContext,
                    reply: Result<Option<Seq<u8>>, Seq<char>>,
                |
                    {
                        &&& #[trigger] middle.only_asked_console(
                            before,
                            seq![ConsoleCall::ReadLine { reply }],
                        )
                        &&& after.line_outcome(middle, reply, temporary, target, written, layout)
                    };
                seq![ConsoleCall::ReadLine { reply }]
            } else {
                none
            }
        },
        ConsoleTurn::Log { level, message } => choose|calls: Seq<ConsoleCall>|
            #[trigger] follows(calls, log_plan(level, message)) && after.only_asked_console(
                before,
                calls,
            ),
        ConsoleTurn::Other => none,
    }
}

/// What was asked earlier does not change when more is asked.
proof fn lemma_asked_in_all(asked: Seq<Seq<ConsoleCall>>, more: Seq<Seq<ConsoleCall>>, n: int)
    requires
        0 <= n <= asked.len(),
        asked.len() <= more.len(),
        forall|k: int| 0 <= k < n ==> #[trigger] more[k] == asked[k],
    ensures
        asked_in_all(more, n) == asked_in_all(asked, n),
    decreases n,
{
    if n > 0 {
        lemma_asked_in_all(asked, more, n - 1);
        assert(more[n - 1] == asked[n - 1]);
    }
}

} // verus!
