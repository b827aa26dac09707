//! The guest's console.
use touchhle::guest_console::{self, flush, stderr, stdout, Console, Stream, MAX_PENDING};

#[test]
fn lines_are_logged() {
    let mut console = Console::new();
    guest_console::write(&mut console, Stream::Stdout, b"one\ntwo\nthr");
    assert_eq!(console.log(), &vec!["[app stdout] one", "[app stdout] two"]);
    guest_console::write(&mut console, Stream::Stdout, b"ee\n");
    assert_eq!(console.log().len(), 3);
    assert_eq!(console.log()[2], "[app stdout] three");
}

#[test]
fn split_output_is_one_line() {
    let mut whole = Console::new();
    guest_console::write(&mut whole, Stream::Stderr, b"score: 12\nnext");
    let mut split = Console::new();
    guest_console::write(&mut split, Stream::Stderr, b"sco");
    guest_console::write(&mut split, Stream::Stderr, b"re: 1");
    guest_console::write(&mut split, Stream::Stderr, b"2\nnext");
    assert_eq!(whole.log(), split.log());
    flush(&mut whole, Stream::Stderr);
    flush(&mut split, Stream::Stderr);
    assert_eq!(whole.log(), &vec!["[app stderr] score: 12", "[app stderr] next"]);
    assert_eq!(whole.log(), split.log());
}

#[test]
fn streams_do_not_mix() {
    let mut console = Console::new();
    assert_eq!(stdout().write(&mut console, b"out"), 3);
    assert_eq!(stderr().write(&mut console, b"err\n"), 4);
    assert_eq!(console.log(), &vec!["[app stderr] err"]);
    stderr().flush(&mut console);
    assert_eq!(console.log().len(), 1);
    stdout().flush(&mut console);
    assert_eq!(console.log(), &vec!["[app stderr] err", "[app stdout] out"]);
}

#[test]
fn empty_lines_and_returns_are_dropped() {
    let mut console = Console::new();
    guest_console::write(&mut console, Stream::Stdout, b"\n\r\n\r\r\na\rb\r\r\n");
    assert_eq!(console.log(), &vec!["[app stdout] a\rb"]);
    flush(&mut console, Stream::Stdout);
    assert_eq!(console.log().len(), 1);
}

#[test]
fn long_lines_are_flushed() {
    let mut console = Console::new();
    guest_console::write(&mut console, Stream::Stdout, &vec![b'x'; MAX_PENDING - 1]);
    assert_eq!(console.log().len(), 0);
    guest_console::write(&mut console, Stream::Stdout, b"x");
    assert_eq!(console.log().len(), 1);
    assert_eq!(console.log()[0], "[app stdout] ".to_owned() + &"x".repeat(MAX_PENDING));
    guest_console::write(&mut console, Stream::Stdout, b"y\n");
    assert_eq!(console.log()[1], "[app stdout] y");
}

#[test]
fn output_that_is_not_text_is_substituted() {
    let mut console = Console::new();
    guest_console::write(&mut console, Stream::Stdout, b"a\xFFb\n");
    assert_eq!(console.log(), &vec!["[app stdout] a\u{FFFD}b"]);
    guest_console::write(&mut console, Stream::Stdout, "h\u{e9}\n".as_bytes());
    assert_eq!(console.log()[1], "[app stdout] h\u{e9}");
}
