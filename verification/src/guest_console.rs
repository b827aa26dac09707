//! The guest app's own console output (`stdout` and `stderr`).
//!
//! Apps write diagnostics of their own through `printf`, `fwrite`, `puts`,
//! `perror` and `NSLog`. That is exactly the output that says why a game
//! failed, so it goes to the emulator's log, where it is available on every
//! platform. Output is buffered until a newline so that a `printf` split
//! across several calls produces one log line rather than one per fragment.
pub mod laws;

use vstd::prelude::*;
use vstd::utf8::*;

verus! {

broadcast use vstd::string::group_string_axioms;

/// The point at which a line with no newline in sight is flushed anyway, so a
/// guest that never prints `\n` can't make us buffer without bound.
pub const MAX_PENDING: usize = 4096;

/// Which of the guest's standard streams output belongs to.
#[derive(Copy, Clone, PartialEq, Eq, Structural, Debug)]
pub enum Stream {
    Stdout,
    Stderr,
}

impl Stream {
    pub open spec fn label(self) -> Seq<char> {
        match self {
            Stream::Stdout => "stdout"@,
            Stream::Stderr => "stderr"@,
        }
    }

    fn name(self) -> (s: &'static str)
        ensures
            s@ == self.label(),
    {
        match self {
            Stream::Stdout => "stdout",
            Stream::Stderr => "stderr",
        }
    }
}

/// What is known of the console: the pending partial lines and what was
/// logged.
#[verifier::ext_equal]
pub struct ConsoleState {
    pub stdout: Seq<u8>,
    pub stderr: Seq<u8>,
    pub log: Seq<Seq<char>>,
}

/// What [String::from_utf8_lossy] makes of these bytes.
pub uninterp spec fn lossy_text(bytes: Seq<u8>) -> Seq<char>;

/// Calls [String::from_utf8_lossy]. The text is a function of the bytes, and
/// bytes that are valid UTF-8 are the text that they encode. How the other
/// bytes are substituted is left to the name [lossy_text].
#[verifier::external_body]
pub(crate) fn from_utf8_lossy(bytes: &[u8]) -> (s: String)
    ensures
        s@ == lossy_text(bytes@),
        valid_utf8(bytes@) ==> s@ == decode_utf8(bytes@),
{
    String::from_utf8_lossy(bytes).into_owned()
}

/// `text` without any carriage returns at its end.
pub open spec fn trim_returns(text: Seq<char>) -> Seq<char>
    decreases text.len(),
{
    if text.len() > 0 && text.last() == '\r' {
        trim_returns(text.drop_last())
    } else {
        text
    }
}

/// The log line for a line with this text; none for an empty line.
pub open spec fn log_line(stream: Stream, text: Seq<char>) -> Seq<Seq<char>> {
    let line = trim_returns(text);
    if line.len() == 0 {
        seq![]
    } else {
        seq!["[app "@ + stream.label() + "] "@ + line]
    }
}

/// The lines that `bytes` complete, where `pending` is the start of the first
/// one, and the start of the line that is left pending.
pub open spec fn split_lines(pending: Seq<u8>, bytes: Seq<u8>) -> (Seq<Seq<u8>>, Seq<u8>)
    decreases bytes.len(),
{
    if bytes.len() == 0 {
        (seq![], pending)
    } else {
        let (lines, rest) = split_lines(pending, bytes.drop_last());
        if bytes.last() == '\n' as u8 {
            (lines.push(rest), seq![])
        } else {
            (lines, rest.push(bytes.last()))
        }
    }
}

/// The log lines for these lines.
pub open spec fn log_lines(stream: Stream, lines: Seq<Seq<u8>>) -> Seq<Seq<char>>
    decreases lines.len(),
{
    if lines.len() == 0 {
        seq![]
    } else {
        log_lines(stream, lines.drop_last()) + log_line(stream, lossy_text(lines.last()))
    }
}

/// Whether this can be a partial line: it has no newline, and it is not so
/// long that it would have been logged.
pub open spec fn is_partial_line(pending: Seq<u8>) -> bool {
    pending.len() < MAX_PENDING && !pending.contains('\n' as u8)
}

impl ConsoleState {
    pub open spec fn wf(self) -> bool {
        is_partial_line(self.stdout) && is_partial_line(self.stderr)
    }

    /// The partial line of `stream`.
    pub open spec fn pending(self, stream: Stream) -> Seq<u8> {
        match stream {
            Stream::Stdout => self.stdout,
            Stream::Stderr => self.stderr,
        }
    }

    /// The console with another partial line for `stream` and more log lines.
    pub open spec fn with(self, stream: Stream, pending: Seq<u8>, log: Seq<Seq<char>>) -> ConsoleState {
        match stream {
            Stream::Stdout => ConsoleState { stdout: pending, log: self.log + log, ..self },
            Stream::Stderr => ConsoleState { stderr: pending, log: self.log + log, ..self },
        }
    }

    /// The console after `bytes` were written to `stream`: complete lines are
    /// logged, and so is a partial line that has grown too long.
    pub open spec fn written(self, stream: Stream, bytes: Seq<u8>) -> ConsoleState {
        let (lines, rest) = split_lines(self.pending(stream), bytes);
        if rest.len() >= MAX_PENDING {
            self.with(stream, seq![], log_lines(stream, lines.push(rest)))
        } else {
            self.with(stream, rest, log_lines(stream, lines))
        }
    }

    /// The console after `stream` was flushed: its partial line is logged.
    pub open spec fn flushed(self, stream: Stream) -> ConsoleState {
        let line = self.pending(stream);
        if line.len() == 0 {
            self
        } else {
            self.with(stream, seq![], log_lines(stream, seq![line]))
        }
    }
}

/// The console: pending partial lines, and the lines that were logged.
pub struct Console {
    stdout: Vec<u8>,
    stderr: Vec<u8>,
    log: Vec<String>,
}

impl View for Console {
    type V = ConsoleState;

    closed spec fn view(&self) -> ConsoleState {
        ConsoleState {
            stdout: self.stdout@,
            stderr: self.stderr@,
            log: self.log@.map_values(|s: String| s@),
        }
    }
}

impl Console {
    pub fn new() -> (console: Console)
        ensures
            console@ == (ConsoleState { stdout: seq![], stderr: seq![], log: seq![] }),
            console@.wf(),
    {
        let console = Console { stdout: Vec::new(), stderr: Vec::new(), log: Vec::new() };
        proof {
            assert(console@ =~= (ConsoleState { stdout: seq![], stderr: seq![], log: seq![] }));
        }
        console
    }

    /// The lines that were logged.
    pub fn log(&self) -> (log: &Vec<String>)
        ensures
            log@.map_values(|s: String| s@) == self@.log,
    {
        &self.log
    }

    /// Takes the partial line of `stream`, leaving an empty one.
    fn take(&mut self, stream: Stream) -> (line: Vec<u8>)
        ensures
            line@ == old(self)@.pending(stream),
            final(self)@ == old(self)@.with(stream, seq![], seq![]),
    {
        let mut line: Vec<u8> = Vec::new();
        match stream {
            Stream::Stdout => std::mem::swap(&mut line, &mut self.stdout),
            Stream::Stderr => std::mem::swap(&mut line, &mut self.stderr),
        }
        proof {
            assert(self@ =~= old(self)@.with(stream, seq![], seq![]));
        }
        line
    }

    /// Makes `line`, which is empty otherwise, the partial line of `stream`.
    fn keep(&mut self, stream: Stream, line: Vec<u8>)
        ensures
            final(self)@ == old(self)@.with(stream, line@, seq![]),
    {
        match stream {
            Stream::Stdout => self.stdout = line,
            Stream::Stderr => self.stderr = line,
        }
        proof {
            assert(self@ =~= old(self)@.with(stream, line@, seq![]));
        }
    }

    /// Logs a line.
    fn emit(&mut self, stream: Stream, line: &Vec<u8>)
        ensures
            final(self)@ == (ConsoleState {
                log: old(self)@.log + log_line(stream, lossy_text(line@)),
                ..old(self)@
            }),
    {
        // Guest output is not necessarily UTF-8 (or even text), so substitute
        // rather than discarding it.
        let text: String = from_utf8_lossy(line.as_slice());
        let whole: &str = text.as_str();
        let mut n: usize = whole.unicode_len();
        let ghost chars = whole@;
        proof {
            assert(chars.take(n as int) =~= chars);
        }
        while n > 0 && whole.get_char(n - 1) == '\r'
            invariant
                n <= chars.len(),
                chars == whole@,
                trim_returns(chars.take(n as int)) == trim_returns(chars),
            decreases n,
        {
            proof {
                assert(chars.take(n as int).drop_last() =~= chars.take(n - 1));
            }
            n -= 1;
        }
        proof {
            assert(trim_returns(chars) == chars.take(n as int));
        }
        if n == 0 {
            proof {
                assert(self@ =~= (ConsoleState {
                    log: old(self)@.log + log_line(stream, lossy_text(line@)),
                    ..old(self)@
                }));
            }
            return;
        }
        let mut entry: String = "[app ".to_owned();
        entry.append(stream.name());
        entry.append("] ");
        entry.append(whole.substring_char(0, n));
        proof {
            assert(chars.subrange(0, n as int) =~= chars.take(n as int));
        }
        self.log.push(entry);
        proof {
            assert(self@.log =~= old(self)@.log + log_line(stream, lossy_text(line@)));
        }
    }
}

/// The guest's `stdout` or `stderr`.
#[derive(Copy, Clone, PartialEq, Eq, Structural, Debug)]
pub struct GuestConsole(pub Stream);

impl GuestConsole {
    /// Writes all of `buf` and returns its length.
    pub fn write(&self, console: &mut Console, buf: &[u8]) -> (n: usize)
        requires
            old(console)@.wf(),
        ensures
            n == buf@.len(),
            final(console)@ == old(console)@.written(self.0, buf@),
            final(console)@.wf(),
    {
        write(console, self.0, buf);
        buf.len()
    }

    /// Logs any buffered partial line.
    pub fn flush(&self, console: &mut Console)
        requires
            old(console)@.wf(),
        ensures
            final(console)@ == old(console)@.flushed(self.0),
            final(console)@.wf(),
    {
        flush(console, self.0)
    }
}

/// The guest's `stdout`.
pub fn stdout() -> (c: GuestConsole)
    ensures
        c == GuestConsole(Stream::Stdout),
{
    GuestConsole(Stream::Stdout)
}

/// The guest's `stderr`.
pub fn stderr() -> (c: GuestConsole)
    ensures
        c == GuestConsole(Stream::Stderr),
{
    GuestConsole(Stream::Stderr)
}

/// Records output the guest wrote to one of its standard streams, logging each
/// complete line.
pub fn write(console: &mut Console, stream: Stream, bytes: &[u8])
    requires
        old(console)@.wf(),
    ensures
        final(console)@ == old(console)@.written(stream, bytes@),
        final(console)@.wf(),
{
    let mut line: Vec<u8> = console.take(stream);
    let ghost before = line@;
    let n: usize = bytes.len();
    let mut i: usize = 0;
    proof {
        assert(console@ =~= old(console)@.with(stream, seq![], log_lines(stream, seq![])));
        assert(bytes@.take(0) =~= seq![]);
    }
    while i < n
        invariant
            i <= n,
            n == bytes@.len(),
            before == old(console)@.pending(stream),
            line@ == split_lines(before, bytes@.take(i as int)).1,
            console@ == old(console)@.with(
                stream,
                seq![],
                log_lines(stream, split_lines(before, bytes@.take(i as int)).0),
            ),
            !line@.contains('\n' as u8),
        decreases n - i,
    {
        let ghost lines = split_lines(before, bytes@.take(i as int)).0;
        let ghost rest = line@;
        proof {
            assert(bytes@.take(i + 1).drop_last() =~= bytes@.take(i as int));
        }
        if bytes[i] == '\n' as u8 {
            console.emit(stream, &line);
            line = Vec::new();
            proof {
                assert(lines.push(rest).drop_last() =~= lines);
                assert(console@ =~= old(console)@.with(
                    stream,
                    seq![],
                    log_lines(stream, lines.push(rest)),
                ));
            }
        } else {
            line.push(bytes[i]);
            proof {
                assert forall|j: int| 0 <= j < line@.len() implies line@[j] != '\n' as u8 by {
                    if j < rest.len() {
                        assert(rest.contains(rest[j]));
                    }
                }
            }
        }
        i += 1;
    }
    proof {
        assert(bytes@.take(n as int) =~= bytes@);
    }
    if line.len() >= MAX_PENDING {
        let ghost lines = split_lines(before, bytes@).0;
        console.emit(stream, &line);
        proof {
            assert(lines.push(line@).drop_last() =~= lines);
            assert(console@ =~= old(console)@.written(stream, bytes@));
        }
    } else {
        console.keep(stream, line);
        proof {
            assert(console@ =~= old(console)@.written(stream, bytes@));
        }
    }
}

/// Logs any buffered partial line, e.g. a progress message or prompt printed
/// without a trailing newline, so that it isn't lost.
pub fn flush(console: &mut Console, stream: Stream)
    requires
        old(console)@.wf(),
    ensures
        final(console)@ == old(console)@.flushed(stream),
        final(console)@.wf(),
{
    let line: Vec<u8> = console.take(stream);
    if line.len() > 0 {
        console.emit(stream, &line);
    }
    proof {
        reveal_with_fuel(log_lines, 2);
        assert(seq![line@].drop_last() =~= seq![]);
        assert(console@ =~= old(console)@.flushed(stream));
    }
}

} // verus!
