//! What writing to a console, reading from it and logging is for.

use vstd::bytes::{lemma_auto_spec_u64_to_from_le_bytes, spec_u64_to_le_bytes};
use vstd::prelude::*;
use vstd::utf8::*;

use crate::console::{
    asked, aster_rt_io_read_line, aster_rt_io_read_line_temporary, aster_rt_io_write,
    aster_rt_io_write_line, aster_rt_log, follows, log_plan, refusal, write_plan, write_report,
    OptionLayout,
};
use crate::context::ExecutionContext;
use crate::io::{
    line_end, transcript_bytes, without_terminator, ConsoleBackend, ConsoleCall, ConsoleWrite,
    MemoryConsoleBackend, ReadLineResult,
};
use crate::io_error::HostIoError;
use crate::meaning::{
    carries, lemma_carries, lemma_makes, makes_bytes, only_looks, refuses,
};
use crate::number_laws::{is_place, lemma_tells, tells};
use crate::scalars::{lemma_encode_concat, lemma_encode_one};

verus! {

/// The console did what it was asked to do.
pub open spec fn is_done(call: ConsoleCall) -> bool {
    match call {
        ConsoleCall::Write { reply, .. } => reply is Ok,
        ConsoleCall::Flush { reply, .. } => reply is Ok,
        ConsoleCall::ReadLine { reply } => reply is Ok,
    }
}

/// The console is asked to write these bytes to one of its streams.
pub open spec fn is_write(call: ConsoleCall, error_stream: bool, bytes: Seq<u8>) -> bool {
    call matches ConsoleCall::Write { to_error, bytes: written, .. } && to_error == error_stream
        && written == bytes
}

/// The console is asked to make visible what was written to one of its streams.
pub open spec fn is_flush(call: ConsoleCall, error_stream: bool) -> bool {
    call matches ConsoleCall::Flush { to_error, .. } && to_error == error_stream
}

/// The console was asked these things, one after the other, up to the first that it did
/// not do. No other device was asked, and no memory changed.
pub open spec fn has_asked_console(
    before: ExecutionContext,
    after: ExecutionContext,
    calls: Seq<ConsoleCall>,
) -> bool {
    &&& calls.len() > 0
    &&& forall|i: int| 0 <= i < calls.len() - 1 ==> is_done(#[trigger] calls[i])
    &&& after.console_calls() == before.console_calls() + calls
    &&& after.file_calls() == before.file_calls()
    &&& after.persistent() == before.persistent()
    &&& after.temporary() == before.temporary()
    &&& after.scopes() == before.scopes()
    &&& after.memory_statistics() == before.memory_statistics()
    &&& after.configuration() == before.configuration()
}

/// Writing hands the console the whole text, a line feed behind it where a line is
/// written, and makes it visible. What the console does not do is reported, and ends it.
pub proof fn law_write(
    line: bool,
    context: Option<&mut ExecutionContext>,
    value: Option<&[u8]>,
    text: Seq<char>,
)
    requires
        context matches Some(c) && c.wf(),
        carries(value, text),
        line ==> call_ensures(aster_rt_io_write_line, (context, value), ()),
        !line ==> call_ensures(aster_rt_io_write, (context, value), ()),
    ensures
        exists|calls: Seq<ConsoleCall>|
            {
                let n = if line {
                    3int
                } else {
                    2
                };
                &&& #[trigger] has_asked_console(*context->0, *final(context->0), calls)
                &&& calls.len() <= n
                &&& is_write(calls[0], false, encode_utf8(text))
                &&& line && calls.len() > 1 ==> is_write(calls[1], false, seq![10u8])
                &&& calls.len() == n ==> is_flush(calls[n - 1], false)
                &&& is_done(calls.last()) ==> {
                    &&& calls.len() == n
                    &&& final(context->0).error_text() == context->0.error_text()
                }
                &&& !is_done(calls.last()) ==> {
                    &&& final(context->0).error_text() is Some
                    &&& context->0.error_text() is Some ==> final(context->0).error_text() == context->0.error_text()
                }
            },
{
    lemma_carries(value, text);
    let before = *context->0;
    let after = *final(context->0);
    let bytes = encode_utf8(text);
    let operation = if line {
        "WriteLine"@
    } else {
        "Write"@
    };
    assert(after.write_outcome(before, value, line, operation));
    let plan = write_plan(bytes, line);
    let calls = choose|calls: Seq<ConsoleCall>|
        #[trigger] follows(calls, plan) && after.asked_console(
            before,
            calls,
            write_report(calls, operation),
        );
    lemma_follows(calls, plan);
    assert(asked(calls[0]) == plan[0]);
    if calls.len() > 1 {
        assert(asked(calls[1]) == plan[1]);
    }
    if calls.len() > 2 {
        assert(asked(calls[2]) == plan[2]);
    }
    assert(has_asked_console(before, after, calls));
}

proof fn lemma_follows(calls: Seq<ConsoleCall>, plan: Seq<crate::console::ConsoleAsk>)
    requires
        follows(calls, plan),
    ensures
        forall|i: int| 0 <= i < calls.len() ==> (refusal(#[trigger] calls[i]) is None <==> is_done(calls[i])),
        forall|i: int| 0 <= i < calls.len() - 1 ==> is_done(#[trigger] calls[i]),
        is_done(calls.last()) <==> refusal(calls.last()) is None,
        calls.len() < plan.len() ==> !is_done(calls.last()),
{
    assert forall|i: int| 0 <= i < calls.len() implies (refusal(#[trigger] calls[i]) is None
        <==> is_done(calls[i])) by {}
    assert forall|i: int| 0 <= i < calls.len() - 1 implies is_done(#[trigger] calls[i]) by {
        assert(refusal(calls[i]) is None);
    }
}

/// What is no text is not written: that is reported, and the console is not asked.
pub proof fn law_write_refuses(
    line: bool,
    context: Option<&mut ExecutionContext>,
)
    requires
        context matches Some(c) && c.wf(),
        line ==> call_ensures(aster_rt_io_write_line, (context, None), ()),
        !line ==> call_ensures(aster_rt_io_write, (context, None), ()),
    ensures
        refuses(*context->0, *final(context->0)),
{
}

/// What stands in front of a message of each severity.
pub open spec fn label_of(level: i32) -> Seq<char> {
    if level == 0 {
        seq!['[', 'l', 'o', 'g', ']', ' ']
    } else if level == 1 {
        seq!['[', 'w', 'a', 'r', 'n', 'i', 'n', 'g', ']', ' ']
    } else {
        seq!['[', 'e', 'r', 'r', 'o', 'r', ']', ' ']
    }
}

/// A message is logged as one line behind its severity and made visible: on the output
/// if it is a plain one, and on the error stream if it is a warning or an error. Nothing
/// that a console does not do is reported.
pub proof fn law_log(
    context: Option<&mut ExecutionContext>,
    level: i32,
    message: Option<&[u8]>,
    text: Seq<char>,
)
    requires
        context matches Some(c) && c.wf(),
        carries(message, text),
        0 <= level <= 2,
        call_ensures(aster_rt_log, (context, level, message), ()),
    ensures
        exists|calls: Seq<ConsoleCall>|
            {
                &&& #[trigger] has_asked_console(*context->0, *final(context->0), calls)
                &&& calls.len() <= 2
                &&& is_write(
                    calls[0],
                    level != 0,
                    encode_utf8(label_of(level) + text + seq!['\n']),
                )
                &&& calls.len() == 2 ==> is_flush(calls[1], level != 0)
                &&& calls.len() == 1 ==> !is_done(calls[0])
                &&& final(context->0).error_text() == context->0.error_text()
            },
{
    lemma_carries(message, text);
    let before = *context->0;
    let after = *final(context->0);
    let plan = log_plan(level, message);
    let calls = choose|calls: Seq<ConsoleCall>|
        #[trigger] follows(calls, plan) && after.only_asked_console(before, calls);
    lemma_follows(calls, plan);
    reveal_strlit("[");
    reveal_strlit("] ");
    reveal_strlit("log");
    reveal_strlit("warning");
    reveal_strlit("error");
    let name = if level == 0 {
        "log"@
    } else if level == 1 {
        "warning"@
    } else {
        "error"@
    };
    assert("["@ + name + "] "@ =~= label_of(level));
    lemma_encode_concat(label_of(level) + text, seq!['\n']);
    lemma_encode_concat(label_of(level), text);
    lemma_encode_one('\n');
    assert((0x0au32 & 0x7f) as u8 == 0x0a) by (bit_vector);
    assert(encode_utf8(seq!['\n']) =~= seq![10u8]);
    assert(asked(calls[0]) == plan[0]);
    if calls.len() > 1 {
        assert(asked(calls[1]) == plan[1]);
    }
    assert(has_asked_console(before, after, calls));
}

/// What is no severity, and what is no message, is told on the error stream instead.
pub proof fn law_log_tells_what_is_wrong(
    context: Option<&mut ExecutionContext>,
    level: i32,
    message: Option<&[u8]>,
)
    requires
        context matches Some(c) && c.wf(),
        !(0 <= level <= 2) || message is None,
        call_ensures(aster_rt_log, (context, level, message), ()),
    ensures
        exists|calls: Seq<ConsoleCall>|
            {
                &&& #[trigger] has_asked_console(*context->0, *final(context->0), calls)
                &&& calls.len() == 1
                &&& calls[0] matches ConsoleCall::Write { to_error: true, .. }
                &&& final(context->0).error_text() == context->0.error_text()
            },
{
    let before = *context->0;
    let after = *final(context->0);
    let plan = log_plan(level, message);
    let calls = choose|calls: Seq<ConsoleCall>|
        #[trigger] follows(calls, plan) && after.only_asked_console(before, calls);
    lemma_follows(calls, plan);
    assert(asked(calls[0]) == plan[0]);
    assert(has_asked_console(before, after, calls));
}

/// `text` is what a line says without its end: a line feed with or without a carriage
/// return in front of it, or a carriage return.
pub open spec fn is_text_of_line(line: Seq<u8>, text: Seq<u8>) -> bool {
    ||| line == text + seq![13u8, 10u8]
    ||| line == text + seq![10u8] && (text.len() > 0 ==> text.last() != 13)
    ||| line == text + seq![13u8]
    ||| line == text && (line.len() > 0 ==> line.last() != 10 && line.last() != 13)
}

pub proof fn lemma_text_of_line(line: Seq<u8>)
    ensures
        is_text_of_line(line, without_terminator(line)),
{
    let text = without_terminator(line);
    if line.len() > 0 && line.last() == 10 {
        let body = line.drop_last();
        assert(line =~= body + seq![10u8]);
        if body.len() > 0 && body.last() == 13 {
            assert(line =~= text + seq![13u8, 10u8]);
        }
    } else if line.len() > 0 && line.last() == 13 {
        assert(line =~= text + seq![13u8]);
    }
}

/// What reading a line owes once the console replied.
pub open spec fn reads_line(
    before: ExecutionContext,
    after: ExecutionContext,
    temporary: bool,
    reply: Result<Option<Seq<u8>>, Seq<char>>,
    blank: Seq<u8>,
    written: Seq<u8>,
    total_size: i32,
    payload_offset: i32,
    some_tag: i32,
    none_tag: i32,
) -> bool {
    match reply {
        Err(_) => refuses(before, after) && written == blank,
        Ok(None) => only_looks(before, after) && tells(
            blank,
            written,
            total_size as int,
            payload_offset as int,
            none_tag,
            Seq::empty(),
        ),
        Ok(Some(line)) => exists|text: Seq<u8>|
            {
                &&& #[trigger] is_text_of_line(line, text)
                &&& !valid_utf8(text) ==> refuses(before, after) && written == blank
                &&& valid_utf8(text) ==> exists|result: Option<u64>|
                    {
                        &&& #[trigger] makes_bytes(before, after, temporary, text, result)
                        &&& tells(
                            blank,
                            written,
                            total_size as int,
                            payload_offset as int,
                            some_tag,
                            spec_u64_to_le_bytes(
                                match result {
                                    Some(address) => address,
                                    None => 0,
                                },
                            ),
                        )
                    }
            },
    }
}

/// Reading a line asks the console for one, and gives what it says without its end, or
/// that the input has ended.
pub proof fn law_read_line(
    temporary: bool,
    context: Option<&mut ExecutionContext>,
    destination: Option<&mut Vec<u8>>,
    total_size: i32,
    some_tag: i32,
    none_tag: i32,
    payload_offset: i32,
)
    requires
        context matches Some(c) && c.wf(),
        destination matches Some(d) && d@.len() >= total_size,
        is_place(total_size, payload_offset, 8),
        ({
            let arguments = (
                context,
                destination,
                total_size,
                some_tag,
                none_tag,
                payload_offset,
            );
            if temporary {
                call_ensures(aster_rt_io_read_line_temporary, arguments, ())
            } else {
                call_ensures(aster_rt_io_read_line, arguments, ())
            }
        }),
    ensures
        exists|middle: ExecutionContext, reply: Result<Option<Seq<u8>>, Seq<char>>|
            {
                &&& #[trigger] has_asked_console(
                    *context->0,
                    middle,
                    seq![ConsoleCall::ReadLine { reply }],
                )
                &&& middle.error_text() == context->0.error_text()
                &&& reads_line(
                    middle,
                    *final(context->0),
                    temporary,
                    reply,
                    destination->0@,
                    final(destination->0)@,
                    total_size,
                    payload_offset,
                    some_tag,
                    none_tag,
                )
            },
{
    lemma_auto_spec_u64_to_from_le_bytes();
    let before = *context->0;
    let after = *final(context->0);
    let blank = destination->0@;
    let written = final(destination->0)@;
    let layout = OptionLayout { total_size, some_tag, none_tag, payload_offset };
    assert(after.read_line_outcome(before, temporary, blank, written, layout));
    let (middle, reply) = choose|
        middle: ExecutionContext,
        reply: Result<Option<Seq<u8>>, Seq<char>>,
    |
        {
            &&& #[trigger] middle.only_asked_console(
                before,
                seq![ConsoleCall::ReadLine { reply }],
            )
            &&& after.line_outcome(middle, reply, temporary, blank, written, layout)
        };
    assert(has_asked_console(before, middle, seq![ConsoleCall::ReadLine { reply }]));
    lemma_tells(blank, total_size, payload_offset, None, some_tag, none_tag);
    if let Ok(Some(line)) = reply {
        lemma_text_of_line(line);
        let text = without_terminator(line);
        if valid_utf8(text) {
            let result = choose|result: Option<u64>|
                {
                    &&& #[trigger] after.string_outcome(middle, temporary, text, result)
                    &&& written == crate::console::address_option(
                        blank,
                        layout,
                        Some(
                            match result {
                                Some(address) => address,
                                None => 0,
                            },
                        ),
                    )
                };
            let address = match result {
                Some(address) => address,
                None => 0,
            };
            lemma_tells(
                blank,
                total_size,
                payload_offset,
                Some(spec_u64_to_le_bytes(address)),
                some_tag,
                none_tag,
            );
            lemma_makes(middle, after, temporary, text, result);
        }
        assert(is_text_of_line(line, text));
    }
}

/// No line is read where there is no place for it: that is reported, the console is not
/// asked, and nothing is written.
pub proof fn law_read_line_refuses(
    temporary: bool,
    context: Option<&mut ExecutionContext>,
    destination: Option<&mut Vec<u8>>,
    total_size: i32,
    some_tag: i32,
    none_tag: i32,
    payload_offset: i32,
)
    requires
        context matches Some(c) && c.wf(),
        destination is None || total_size < 0 || payload_offset < 0 || payload_offset + 8
            > total_size,
        ({
            let arguments = (
                context,
                destination,
                total_size,
                some_tag,
                none_tag,
                payload_offset,
            );
            if temporary {
                call_ensures(aster_rt_io_read_line_temporary, arguments, ())
            } else {
                call_ensures(aster_rt_io_read_line, arguments, ())
            }
        }),
    ensures
        refuses(*context->0, *final(context->0)),
        destination matches Some(d) ==> final(d)@ == d@,
{
}

/// A memory console gives its input line by line: each line up to and with its line
/// feed, and the rest if it has none. At the end there is none.
pub proof fn law_memory_console_gives_lines(
    console: &mut MemoryConsoleBackend,
    result: ReadLineResult,
)
    requires
        call_ensures(
            <MemoryConsoleBackend as ConsoleBackend>::read_line,
            (console,),
            result,
        ),
    ensures
        old(console).pending().len() == 0 <==> result matches Ok(None),
        old(console).pending().len() == 0 ==> final(console).pending().len() == 0,
        old(console).pending().len() > 0 ==> {
            let line = result->Ok_0->0@;
            &&& result matches Ok(Some(_))
            &&& line.len() > 0
            &&& old(console).pending() == line + final(console).pending()
            &&& forall|i: int| 0 <= i < line.len() - 1 ==> #[trigger] line[i] != 10
            &&& line.last() == 10 || final(console).pending().len() == 0
        },
        final(console).transcript() == old(console).transcript(),
{
    let pending = console.pending();
    if pending.len() > 0 {
        lemma_line_end(pending, 0);
        let end = line_end(pending, 0);
        assert(pending =~= pending.take(end) + pending.skip(end));
    }
}

proof fn lemma_line_end(input: Seq<u8>, start: int)
    requires
        0 <= start < input.len(),
    ensures
        ({
            let end = line_end(input, start);
            &&& start < end <= input.len()
            &&& forall|i: int| start <= i < end - 1 ==> #[trigger] input[i] != 10
            &&& input[end - 1] == 10 || end == input.len()
        }),
    decreases input.len() - start,
{
    if input[start] != 10 && start + 1 < input.len() {
        lemma_line_end(input, start + 1);
    } else if input[start] != 10 {
        assert(line_end(input, start + 1) == start + 1);
    }
}

/// What a memory console was given to write, to either stream, its output ends with.
pub proof fn law_memory_console_keeps_output(
    to_error: bool,
    console: &mut MemoryConsoleBackend,
    bytes: &[u8],
    result: Result<(), HostIoError>,
    earlier: Vec<u8>,
    later: Vec<u8>,
)
    requires
        to_error ==> call_ensures(
            <MemoryConsoleBackend as ConsoleBackend>::write_error,
            (console, bytes),
            result,
        ),
        !to_error ==> call_ensures(
            <MemoryConsoleBackend as ConsoleBackend>::write,
            (console, bytes),
            result,
        ),
        call_ensures(MemoryConsoleBackend::output, (console,), earlier),
        call_ensures(MemoryConsoleBackend::output, (final(console),), later),
    ensures
        result is Ok,
        later@ == earlier@ + bytes@,
        final(console).pending() == old(console).pending(),
{
    let after = final(console).transcript();
    assert(after.drop_last() =~= console.transcript());
}

/// A new memory console has written nothing and has all of its input to give.
pub proof fn law_new_memory_console(
    input: Vec<u8>,
    console: MemoryConsoleBackend,
    output: Vec<u8>,
)
    requires
        call_ensures(MemoryConsoleBackend::new, (input,), console),
        call_ensures(MemoryConsoleBackend::output, (&console,), output),
    ensures
        console.pending() == input@,
        output@.len() == 0,
{
}

} // verus!
