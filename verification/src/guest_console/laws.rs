//! What holds of the console.
use crate::guest_console;
use crate::guest_console::{ConsoleState, Stream, MAX_PENDING};
use vstd::prelude::*;

verus! {

proof fn lemma_split_lines_twice(pending: Seq<u8>, a: Seq<u8>, b: Seq<u8>)
    ensures
        ({
            let (l1, r1) = guest_console::split_lines(pending, a);
            let (l2, r2) = guest_console::split_lines(r1, b);
            guest_console::split_lines(pending, a + b) == (l1 + l2, r2)
        }),
    decreases b.len(),
{
    let (l1, r1) = guest_console::split_lines(pending, a);
    if b.len() == 0 {
        assert(a + b =~= a);
        assert(l1 + guest_console::split_lines(r1, b).0 =~= l1);
    } else {
        lemma_split_lines_twice(pending, a, b.drop_last());
        let (l2, r2) = guest_console::split_lines(r1, b.drop_last());
        assert((a + b).drop_last() =~= a + b.drop_last());
        assert((a + b).last() == b.last());
        assert((l1 + l2).push(r2) =~= l1 + l2.push(r2));
    }
}

proof fn lemma_log_lines_twice(stream: Stream, a: Seq<Seq<u8>>, b: Seq<Seq<u8>>)
    ensures
        guest_console::log_lines(stream, a + b) == guest_console::log_lines(stream, a)
            + guest_console::log_lines(stream, b),
    decreases b.len(),
{
    if b.len() == 0 {
        assert(a + b =~= a);
        assert(guest_console::log_lines(stream, a) + guest_console::log_lines(stream, b)
            =~= guest_console::log_lines(stream, a));
    } else {
        lemma_log_lines_twice(stream, a, b.drop_last());
        assert((a + b).drop_last() =~= a + b.drop_last());
        assert(guest_console::log_lines(stream, a + b) =~= guest_console::log_lines(stream, a)
            + guest_console::log_lines(stream, b));
    }
}

/// Output that is split across several calls is logged as if it were written at
/// once, unless the first call leaves a line that is too long.
pub proof fn law_split_output(c: ConsoleState, stream: Stream, a: Seq<u8>, b: Seq<u8>)
    requires
        guest_console::split_lines(c.pending(stream), a).1.len() < MAX_PENDING,
    ensures
        c.written(stream, a).written(stream, b) == c.written(stream, a + b),
{
    let (l1, r1) = guest_console::split_lines(c.pending(stream), a);
    let (l2, r2) = guest_console::split_lines(r1, b);
    lemma_split_lines_twice(c.pending(stream), a, b);
    lemma_log_lines_twice(stream, l1, l2);
    lemma_log_lines_twice(stream, l1, l2.push(r2));
    assert((l1 + l2).push(r2) =~= l1 + l2.push(r2));
    assert(c.written(stream, a).pending(stream) == r1);
    assert(c.written(stream, a).written(stream, b) =~= c.written(stream, a + b));
}

/// The two streams do not get into each other's lines.
pub proof fn law_streams_apart(c: ConsoleState, stream: Stream, other: Stream, bytes: Seq<u8>)
    requires
        other != stream,
    ensures
        c.written(stream, bytes).pending(other) == c.pending(other),
        c.flushed(stream).pending(other) == c.pending(other),
{
}

/// Nothing that was logged is lost or changed.
pub proof fn law_log_grows(c: ConsoleState, stream: Stream, bytes: Seq<u8>)
    ensures
        c.log.is_prefix_of(c.written(stream, bytes).log),
        c.log.is_prefix_of(c.flushed(stream).log),
{
}

/// A partial line holds no newline and is never longer than the limit.
pub proof fn law_pending_is_partial(c: ConsoleState, stream: Stream, bytes: Seq<u8>)
    requires
        c.wf(),
    ensures
        c.written(stream, bytes).wf(),
        c.flushed(stream).wf(),
        c.flushed(stream).pending(stream).len() == 0,
{
    lemma_no_newline(c.pending(stream), bytes);
}

proof fn lemma_no_newline(pending: Seq<u8>, bytes: Seq<u8>)
    requires
        !pending.contains('\n' as u8),
    ensures
        !guest_console::split_lines(pending, bytes).1.contains('\n' as u8),
    decreases bytes.len(),
{
    if bytes.len() > 0 {
        lemma_no_newline(pending, bytes.drop_last());
        let rest = guest_console::split_lines(pending, bytes.drop_last()).1;
        assert forall|i: int|
            0 <= i < guest_console::split_lines(
                pending,
                bytes,
            ).1.len() implies #[trigger] guest_console::split_lines(pending, bytes).1[i]
            != '\n' as u8 by {
            if i < rest.len() {
                assert(rest.contains(rest[i]));
            }
        }
    }
}

proof fn lemma_no_line(pending: Seq<u8>, bytes: Seq<u8>)
    requires
        !bytes.contains('\n' as u8),
    ensures
        guest_console::split_lines(pending, bytes) == (Seq::<Seq<u8>>::empty(), pending + bytes),
    decreases bytes.len(),
{
    if bytes.len() == 0 {
        assert(pending + bytes =~= pending);
    } else {
        let rest = bytes.drop_last();
        assert forall|i: int| 0 <= i < rest.len() implies rest[i] != '\n' as u8 by {
            assert(bytes.contains(bytes[i]));
        }
        assert(bytes.contains(bytes[bytes.len() - 1]));
        lemma_no_line(pending, rest);
        assert((pending + rest).push(bytes.last()) =~= pending + bytes);
    }
}

/// The text that the log gives for a stream in front of each of its lines.
pub open spec fn prefix(stream: Stream) -> Seq<char> {
    match stream {
        Stream::Stdout => "[app stdout] "@,
        Stream::Stderr => "[app stderr] "@,
    }
}

proof fn lemma_prefix(stream: Stream, text: Seq<char>)
    requires
        text.len() > 0,
        text.last() != '\r',
    ensures
        guest_console::log_line(stream, text) == seq![prefix(stream) + text],
{
    reveal_strlit("[app stdout] ");
    reveal_strlit("[app stderr] ");
    reveal_strlit("[app ");
    reveal_strlit("] ");
    reveal_strlit("stdout");
    reveal_strlit("stderr");
    assert("[app "@ + stream.label() + "] "@ + text =~= prefix(stream) + text);
}

proof fn lemma_one_line(stream: Stream, line: Seq<u8>)
    ensures
        guest_console::log_lines(stream, seq![line]) == guest_console::log_line(
            stream,
            guest_console::lossy_text(line),
        ),
{
    let lines = seq![line];
    assert(lines.drop_last() =~= seq![]);
    assert(guest_console::log_lines(stream, lines.drop_last()) =~= seq![]);
    assert(guest_console::log_lines(stream, lines) =~= guest_console::log_line(
        stream,
        guest_console::lossy_text(line),
    ));
}

/// Output without a newline is kept, and nothing is logged, as long as there are fewer
/// than 4096 bytes of it.
pub proof fn law_partial_line_kept(c: ConsoleState, stream: Stream, bytes: Seq<u8>)
    requires
        !bytes.contains('\n' as u8),
        c.pending(stream).len() + bytes.len() < 4096,
    ensures
        c.written(stream, bytes).log == c.log,
        c.written(stream, bytes).pending(stream) == c.pending(stream) + bytes,
{
    lemma_no_line(c.pending(stream), bytes);
    assert(c.written(stream, bytes).log =~= c.log);
}

/// A line is logged once it is complete: what was kept of it and what came now, as text,
/// behind the name of the stream. Nothing of it is kept. The text must not be empty or
/// end in a carriage return.
pub proof fn law_line_logged(c: ConsoleState, stream: Stream, end: Seq<u8>)
    requires
        !end.contains('\n' as u8),
        guest_console::lossy_text(c.pending(stream) + end).len() > 0,
        guest_console::lossy_text(c.pending(stream) + end).last() != '\r',
    ensures
        ({
            let line = c.pending(stream) + end;
            let r = c.written(stream, end.push('\n' as u8));
            &&& r.log == c.log.push(prefix(stream) + guest_console::lossy_text(line))
            &&& r.pending(stream).len() == 0
        }),
{
    let line = c.pending(stream) + end;
    let bytes = end.push('\n' as u8);
    let r = c.written(stream, bytes);
    lemma_no_line(c.pending(stream), end);
    assert(bytes.drop_last() =~= end);
    assert(guest_console::split_lines(c.pending(stream), bytes).0 =~= seq![line]);
    lemma_one_line(stream, line);
    lemma_prefix(stream, guest_console::lossy_text(line));
    assert(r.log =~= c.log.push(prefix(stream) + guest_console::lossy_text(line)));
}

/// A flushed stream has its partial line logged in the same way, and a partial line that
/// reaches 4096 bytes is logged at once.
pub proof fn law_partial_line_logged(c: ConsoleState, stream: Stream, bytes: Seq<u8>)
    requires
        !bytes.contains('\n' as u8),
        c.pending(stream).len() + bytes.len() >= 4096,
        guest_console::lossy_text(c.pending(stream) + bytes).len() > 0,
        guest_console::lossy_text(c.pending(stream) + bytes).last() != '\r',
    ensures
        ({
            let line = c.pending(stream) + bytes;
            let r = c.written(stream, bytes);
            &&& r.log == c.log.push(prefix(stream) + guest_console::lossy_text(line))
            &&& r.pending(stream).len() == 0
        }),
{
    let line = c.pending(stream) + bytes;
    let r = c.written(stream, bytes);
    lemma_no_line(c.pending(stream), bytes);
    assert(Seq::<Seq<u8>>::empty().push(line) =~= seq![line]);
    lemma_one_line(stream, line);
    lemma_prefix(stream, guest_console::lossy_text(line));
    assert(r.log =~= c.log.push(prefix(stream) + guest_console::lossy_text(line)));
}

/// Flushing a stream logs its partial line as a newline would; where there is none,
/// nothing changes.
pub proof fn law_flushed(c: ConsoleState, stream: Stream)
    ensures
        c.pending(stream).len() == 0 ==> c.flushed(stream) == c,
        c.pending(stream).len() > 0 ==> c.flushed(stream) == c.written(
            stream,
            seq!['\n' as u8],
        ),
{
    let nl = seq!['\n' as u8];
    let line = c.pending(stream);
    assert(nl.drop_last() =~= seq![]);
    assert(guest_console::split_lines(line, nl.drop_last()) == (Seq::<Seq<u8>>::empty(), line));
    assert(guest_console::split_lines(line, nl).0 =~= seq![line]);
    if line.len() > 0 {
        assert(c.flushed(stream) =~= c.written(stream, nl));
    }
}

/// Carriage returns at the end of a line are left out, however many there are; a line of
/// nothing else is not logged.
pub proof fn law_returns_left_out(stream: Stream, text: Seq<char>)
    ensures
        guest_console::log_line(stream, text.push('\r')) == guest_console::log_line(stream, text),
        guest_console::log_line(stream, seq![]).len() == 0,
{
    assert(text.push('\r').drop_last() =~= text);
}

} // verus!
