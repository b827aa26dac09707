//! The `printf` family.
use touchhle::abi::{DotDotDot, VaList};
use touchhle::environment::{Environment, FrameworkState, LibcState};
use touchhle::frameworks::{avfoundation::av_audio_player, opengles, uikit::ui_touch};
use touchhle::guest_console::Console;
use touchhle::libc::errno::{self, get_errno, set_errno, ENOENT};
use touchhle::libc::stdio::directive::Format;
use touchhle::libc::stdio::printf::{self, Flow, Outcome, Reply, Request};
use touchhle::mem::{Mem, HEAP_END};
use touchhle::objc::classes::ObjC;

const ARGS: u32 = 0x8000;
const DEST: u32 = 0x6000;
const FORMAT: u32 = 0x7000;
const LOCALE: u32 = 0x5000;

fn environment() -> Environment {
    let mut env = Environment {
        mem: Mem::new(0x10000),
        objc: ObjC::new(Vec::new()),
        libc_state: LibcState { errno: errno::State::default(), ctype_locale: LOCALE },
        framework_state: FrameworkState {
            ui_touch: ui_touch::State::default(),
            opengles: opengles::State::default(),
            av_audio_player: av_audio_player::State::default(),
        },
        console: Console::new(),
        current_thread: 0,
    };
    env.mem.write_cstr(LOCALE, &b"C".to_vec());
    env
}

fn set(env: &mut Environment, format: &str, args: &[u32]) -> DotDotDot {
    env.mem.write_cstr(FORMAT, &format.as_bytes().to_vec());
    env.mem.write_words(ARGS, &args.to_vec());
    DotDotDot { pos: ARGS }
}

fn returned(outcome: Outcome) -> i32 {
    match outcome {
        Outcome::Returned { value } => value,
        _ => panic!("it has not returned"),
    }
}

/// What `sprintf` makes of a format and arguments.
fn formatted(format: &str, args: &[u32]) -> String {
    let mut env = environment();
    let args = set(&mut env, format, args);
    let value = returned(printf::sprintf(&mut env, DEST, FORMAT, args));
    let text = env.mem.cstr_at(DEST);
    assert_eq!(value as usize, text.len());
    String::from_utf8(text).unwrap()
}

fn unsupported(format: &str, args: &[u32]) -> bool {
    let mut env = environment();
    let args = set(&mut env, format, args);
    matches!(printf::sprintf(&mut env, DEST, FORMAT, args), Outcome::Unsupported)
}

/// As [formatted], with the host's answers.
fn answered(format: &str, number: f64, replies: Vec<(Request, Reply)>) -> String {
    let mut env = environment();
    let bits = number.to_bits();
    let args = set(&mut env, format, &[bits as u32, (bits >> 32) as u32]);
    let mut outcome = printf::sprintf(&mut env, DEST, FORMAT, args);
    for (request, reply) in replies {
        outcome = match outcome {
            Outcome::Waiting { job } => {
                assert_eq!(job.request(), Some(request));
                job.resume(&mut env, reply)
            }
            _ => panic!("it does not wait"),
        };
    }
    returned(outcome);
    String::from_utf8(env.mem.cstr_at(DEST)).unwrap()
}

fn text(s: &str) -> Reply {
    Reply::Text { text: s.as_bytes().to_vec() }
}

#[test]
fn text_without_conversions_stays_as_it_is() {
    assert_eq!(formatted("hello, world", &[]), "hello, world");
    assert_eq!(formatted("", &[]), "");
    assert_eq!(formatted("100%% sure", &[]), "100% sure");
}

#[test]
fn signed_integers() {
    assert_eq!(formatted("%d", &[42]), "42");
    assert_eq!(formatted("%d", &[(-42i32) as u32]), "-42");
    assert_eq!(formatted("%i", &[0]), "0");
    assert_eq!(formatted("%d", &[0x8000_0000]), "-2147483648");
    assert_eq!(formatted("%5d|", &[42]), "   42|");
    assert_eq!(formatted("%-5d|", &[42]), "42   |");
    assert_eq!(formatted("%05d", &[42]), "00042");
    assert_eq!(formatted("%+d %+d", &[7, (-7i32) as u32]), "+7 -7");
    assert_eq!(formatted("%+05d", &[42]), "+0042");
    assert_eq!(formatted("%+05d", &[(-42i32) as u32]), "-0042");
    assert_eq!(formatted("%.4d", &[42]), "0042");
    assert_eq!(formatted("%7.4d", &[42]), "   0042");
    assert_eq!(formatted("%*d", &[4, 42]), "  42");
    assert_eq!(formatted("%D", &[(-1i32) as u32]), "-1");
}

#[test]
fn lengths_of_integers() {
    assert_eq!(formatted("%hhd", &[0x1FF]), "-1");
    assert_eq!(formatted("%hhu", &[0x1FF]), "255");
    assert_eq!(formatted("%hd", &[0x1FFFF]), "-1");
    assert_eq!(formatted("%hu", &[0x1FFFF]), "65535");
    assert_eq!(formatted("%ld", &[7]), "7");
    assert_eq!(formatted("%lld", &[0xFFFF_FFFE, 0xFFFF_FFFF]), "-2");
    assert_eq!(formatted("%llu", &[0, 1]), "4294967296");
    assert_eq!(formatted("%qd %d", &[1, 0, 5]), "1 5");
    assert_eq!(formatted("%jd", &[3, 0]), "3");
    assert_eq!(formatted("%zd %td", &[3, 4]), "3 4");
}

#[test]
fn unsigned_integers() {
    assert_eq!(formatted("%u", &[0xFFFF_FFFF]), "4294967295");
    assert_eq!(formatted("%6u|%-6u|", &[42, 42]), "    42|42    |");
    assert_eq!(formatted("%06u", &[42]), "000042");
    assert_eq!(formatted("%.3u", &[7]), "007");
    assert_eq!(formatted("%U", &[7]), "7");
    assert_eq!(formatted("%o", &[8]), "10");
    assert_eq!(formatted("%#o", &[8]), "010");
    assert_eq!(formatted("%#o", &[0]), "0");
    assert_eq!(formatted("%05o", &[8]), "00010");
    assert_eq!(formatted("%O", &[8]), "10");
    assert_eq!(formatted("%x %X", &[0xBEEF, 0xBEEF]), "beef BEEF");
    assert_eq!(formatted("%#x %#X", &[0xBEEF, 0xBEEF]), "0xbeef 0XBEEF");
    assert_eq!(formatted("%#010x", &[0xBEEF]), "0x0000beef");
    assert_eq!(formatted("%8x|%-8x|", &[0xBEEF, 0xBEEF]), "    beef|beef    |");
    assert_eq!(formatted("%.0x", &[0]), "");
    assert_eq!(formatted("%.6x", &[0xBEEF]), "00beef");
    assert_eq!(formatted("%p", &[0x1000]), "0x1000");
    assert_eq!(formatted("%10p|", &[0x1000]), "    0x1000|");
}

#[test]
fn characters_and_strings() {
    let mut env = environment();
    env.mem.write_cstr(0x9000, &"gr\u{fc}n".as_bytes().to_vec());
    let mut case = |format: &str, args: &[u32]| {
        let args = set(&mut env, format, args);
        returned(printf::sprintf(&mut env, DEST, FORMAT, args));
        String::from_utf8_lossy(&env.mem.cstr_at(DEST)).into_owned()
    };
    assert_eq!(case("%c%c", &[0x41, 0x142]), "AB");
    assert_eq!(case("%lc", &[0x20AC]), "\u{20AC}");
    assert_eq!(case("%lc", &[0xD800]), "?");
    assert_eq!(case("%C", &[0x120AC]), "\u{20AC}");
    assert_eq!(case("%s!", &[0x9000]), "gr\u{fc}n!");
    assert_eq!(case("%s", &[0]), "(null)");
    assert_eq!(case("%.2s", &[0x9000]), "gr");
    // A width counts characters, not bytes.
    assert_eq!(case("%6s|%-6s|", &[0x9000, 0x9000]), "  gr\u{fc}n|gr\u{fc}n  |");
    assert_eq!(case("%2s", &[0x9000]), "gr\u{fc}n");
}

#[test]
fn wide_strings() {
    let mut env = environment();
    env.mem.write_words(0x9000, &vec![0x41, 0x20AC, 0]);
    let args = set(&mut env, "<%S>", &[0x9000]);
    assert_eq!(returned(printf::sprintf(&mut env, DEST, FORMAT, args)), 6);
    assert_eq!(env.mem.cstr_at(DEST), "<A\u{20AC}>".as_bytes().to_vec());
    let args = set(&mut env, "%S", &[0]);
    returned(printf::sprintf(&mut env, DEST, FORMAT, args));
    assert_eq!(env.mem.cstr_at(DEST), b"(null)".to_vec());
    // Only the C locale is supported, and only characters.
    env.mem.write_words(0x9000, &vec![0xD800, 0]);
    let args = set(&mut env, "%S", &[0x9000]);
    assert!(matches!(printf::sprintf(&mut env, DEST, FORMAT, args), Outcome::Unsupported));
    env.mem.write_cstr(LOCALE, &b"ru_RU".to_vec());
    env.mem.write_words(0x9000, &vec![0x41, 0]);
    let args = set(&mut env, "%S", &[0x9000]);
    assert!(matches!(printf::sprintf(&mut env, DEST, FORMAT, args), Outcome::Unsupported));
}

#[test]
fn the_number_of_bytes_so_far() {
    let mut env = environment();
    let args = set(&mut env, "abc%ndef%n", &[0x9000, 0]);
    assert_eq!(returned(printf::sprintf(&mut env, DEST, FORMAT, args)), 6);
    assert_eq!(env.mem.read_u32(0x9000), 3);
}

#[test]
fn unknown_specifiers_are_skipped() {
    assert_eq!(formatted("%!x", &[]), "!x");
    assert_eq!(formatted("%5y", &[]), "y");
    // Objects are for `NSLog` only.
    assert_eq!(formatted("[%@]", &[5]), "[]");
}

#[test]
fn what_is_not_supported() {
    assert!(unsupported("%5c", &[0x41]));
    assert!(unsupported("%05C", &[0x41]));
    assert!(unsupported("%08p", &[0x1000]));
    assert!(unsupported("%.3c", &[0x41]));
    assert!(unsupported("%*d", &[(-4i32) as u32, 1]));
    let mut env = environment();
    env.mem.write_cstr(0x9000, &b"\xFF".to_vec());
    let args = set(&mut env, "%4s", &[0x9000]);
    assert!(matches!(printf::sprintf(&mut env, DEST, FORMAT, args), Outcome::Unsupported));
}

#[test]
fn floats_in_decimal_notation() {
    let bits = 1.5f64.to_bits();
    let fixed = |precision| Request::Fixed { bits, precision };
    assert_eq!(answered("%f", 1.5, vec![(fixed(6), text("1.500000"))]), "1.500000");
    assert_eq!(answered("%.1f", 1.5, vec![(fixed(1), text("1.5"))]), "1.5");
    assert_eq!(answered("%6.1f|", 1.5, vec![(fixed(1), text("1.5"))]), "   1.5|");
    assert_eq!(answered("%06.1f", 1.5, vec![(fixed(1), text("1.5"))]), "0001.5");
    assert_eq!(answered("%-6.1f|", 1.5, vec![(fixed(1), text("1.5"))]), "1.5   |");
    assert_eq!(answered("%+.1f", 1.5, vec![(fixed(1), text("1.5"))]), "+1.5");
    assert_eq!(answered("%+6.1f", 1.5, vec![(fixed(1), text("1.5"))]), "  +1.5");
    let infinite = f64::INFINITY.to_bits();
    let request = Request::Fixed { bits: infinite, precision: 6 };
    assert_eq!(answered("%F", f64::INFINITY, vec![(request, text("inf"))]), "INF");
}

#[test]
fn floats_in_scientific_notation() {
    let bits = (-1500.0f64).to_bits();
    let scientific = |precision| Request::Scientific { bits, precision };
    assert_eq!(
        answered("%e", -1500.0, vec![(scientific(6), text("1.500000e+03"))]),
        "-1.500000e+03"
    );
    assert_eq!(answered("%.1E", -1500.0, vec![(scientific(1), text("1.5e+03"))]), "-1.5E+03");
    assert_eq!(answered("%010.1e", -1500.0, vec![(scientific(1), text("1.5e+03"))]), "-001.5e+03");
    assert_eq!(answered("%10.1e|", -1500.0, vec![(scientific(1), text("1.5e+03"))]), "  -1.5e+03|");
    let request = Request::LowerExp { bits };
    assert_eq!(answered("%a", -1500.0, vec![(request, text("-1.5e3"))]), "-1.5p3");
    assert_eq!(answered("%A", -1500.0, vec![(request, text("-1.5e3"))]), "-1.5P3");
}

#[test]
fn floats_in_either_notation() {
    let bits = 1.5f64.to_bits();
    let exponent = |exponent| (Request::Exponent { bits }, Reply::Exponent { exponent });
    assert_eq!(
        answered(
            "%g",
            1.5,
            vec![exponent(0), (Request::Fixed { bits, precision: 5 }, text("1.50000"))]
        ),
        "1.5"
    );
    assert_eq!(
        answered(
            "%.2g",
            1.5,
            vec![exponent(7), (Request::Scientific { bits, precision: 1 }, text("1.5e+07"))]
        ),
        "1.5e+07"
    );
    assert_eq!(
        answered(
            "%G",
            1.5,
            vec![exponent(-5), (Request::Scientific { bits, precision: 5 }, text("1.50000e-05"))]
        ),
        "1.50000E-05"
    );
    assert_eq!(
        answered(
            "%6g",
            1.5,
            vec![exponent(0), (Request::Fixed { bits, precision: 5 }, text("1.50000"))]
        ),
        "   1.5"
    );
    // The exponent of zero is zero.
    let zero = Request::Fixed { bits: 0, precision: 5 };
    assert_eq!(answered("%g", 0.0, vec![(zero, text("0.00000"))]), "0");
}

#[test]
fn buffers_are_not_overrun() {
    let mut env = environment();
    env.mem.write_bytes(DEST, &vec![b'#'; 16]);
    let args = set(&mut env, "hello", &[]);
    assert_eq!(returned(printf::snprintf(&mut env, DEST, 4, FORMAT, args)), 5);
    assert_eq!(env.mem.bytes_at(DEST, 6), b"hel\0##".to_vec());
    assert_eq!(returned(printf::snprintf(&mut env, DEST, 6, FORMAT, args)), 5);
    assert_eq!(env.mem.bytes_at(DEST, 8), b"hello\0##".to_vec());
    assert_eq!(returned(printf::snprintf(&mut env, DEST, 1, FORMAT, args)), 5);
    assert_eq!(env.mem.bytes_at(DEST, 2), b"\0e".to_vec());
    assert_eq!(returned(printf::vsnprintf(&mut env, DEST, 0, FORMAT, VaList { pos: ARGS })), 5);
    assert_eq!(env.mem.bytes_at(DEST, 2), b"\0e".to_vec());
}

#[test]
fn hardened_forms() {
    let mut env = environment();
    let args = set(&mut env, "hello", &[]);
    let list = VaList { pos: ARGS };
    assert_eq!(returned(printf::__snprintf_chk(&mut env, DEST, 100, 0, 3, FORMAT, args)), 5);
    assert_eq!(env.mem.cstr_at(DEST), b"he".to_vec());
    assert_eq!(returned(printf::__snprintf_chk(&mut env, DEST, 4, 0, 0, FORMAT, args)), 5);
    assert_eq!(env.mem.cstr_at(DEST), b"hel".to_vec());
    assert_eq!(returned(printf::__vsnprintf_chk(&mut env, DEST, 2, 0, 0, FORMAT, list)), 5);
    assert_eq!(env.mem.cstr_at(DEST), b"h".to_vec());
    assert_eq!(returned(printf::__vsprintf_chk(&mut env, DEST, 3, 0, 0, FORMAT, list)), 5);
    assert_eq!(env.mem.cstr_at(DEST), b"he".to_vec());
    assert_eq!(returned(printf::__sprintf_chk(&mut env, DEST, 0, 0, FORMAT, args)), 0);
    assert_eq!(env.mem.cstr_at(DEST), b"he".to_vec());
    assert_eq!(returned(printf::__sprintf_chk(&mut env, DEST, 0, 9, FORMAT, args)), 5);
    assert_eq!(env.mem.cstr_at(DEST), b"hello".to_vec());
}

#[test]
fn forms_with_a_locale() {
    let mut env = environment();
    let args = set(&mut env, "%d", &[7]);
    let list = VaList { pos: ARGS };
    assert_eq!(returned(printf::sprintf_l(&mut env, DEST, 0, FORMAT, args)), 1);
    assert_eq!(env.mem.cstr_at(DEST), b"7".to_vec());
    assert_eq!(returned(printf::snprintf_l(&mut env, DEST, 1, 0, FORMAT, args)), 1);
    assert_eq!(env.mem.cstr_at(DEST), b"".to_vec());
    assert_eq!(returned(printf::vsprintf_l(&mut env, DEST, 0, FORMAT, list)), 1);
    assert_eq!(env.mem.cstr_at(DEST), b"7".to_vec());
    assert_eq!(returned(printf::vsnprintf_l(&mut env, DEST, 1, 0, FORMAT, list)), 1);
    assert_eq!(env.mem.cstr_at(DEST), b"".to_vec());
    assert_eq!(returned(printf::vsprintf(&mut env, DEST, FORMAT, list)), 1);
    assert_eq!(env.mem.cstr_at(DEST), b"7".to_vec());
}

#[test]
fn new_blocks() {
    let mut env = environment();
    set(&mut env, "n=%d", &[7]);
    let heap = env.mem.next_block();
    assert_eq!(returned(printf::vasprintf(&mut env, 0x9000, FORMAT, VaList { pos: ARGS })), 3);
    assert_eq!(env.mem.read_u32(0x9000), heap);
    assert_eq!(env.mem.cstr_at(heap), b"n=7".to_vec());
    // No memory is left.
    env.mem = Mem::new(HEAP_END);
    set(&mut env, "n=%d", &[7]);
    let outcome = printf::vasprintf(&mut env, 0x9000, FORMAT, VaList { pos: ARGS });
    assert!(matches!(outcome, Outcome::Unsupported));
}

#[test]
fn standard_streams() {
    let mut env = environment();
    let args = set(&mut env, "n=%d\n", &[7]);
    assert_eq!(returned(printf::printf(&mut env, FORMAT, args)), 4);
    assert_eq!(returned(printf::vprintf(&mut env, FORMAT, VaList { pos: ARGS })), 4);
    assert_eq!(env.console.log(), &vec!["[app stdout] n=7", "[app stdout] n=7"]);
    // The descriptor is what a FILE starts with.
    env.mem.write_u32(0x9000, printf::STDERR_FILENO);
    assert_eq!(returned(printf::fprintf(&mut env, 0x9000, FORMAT, args)), 4);
    assert_eq!(env.console.log()[2], "[app stderr] n=7");
    env.mem.write_u32(0x9000, printf::STDOUT_FILENO);
    assert_eq!(returned(printf::vfprintf(&mut env, 0x9000, FORMAT, VaList { pos: ARGS })), 4);
    assert_eq!(env.console.log()[3], "[app stdout] n=7");
    env.mem.write_u32(0x9000, printf::STDIN_FILENO);
    assert_eq!(returned(printf::fprintf(&mut env, 0x9000, FORMAT, args)), 4);
    assert_eq!(env.console.log().len(), 4);
    env.mem.write_u32(0x9000, 5);
    match printf::fprintf(&mut env, 0x9000, FORMAT, args) {
        Outcome::Write { stream, bytes, value } => {
            assert_eq!((stream, bytes, value), (0x9000, b"n=7\n".to_vec(), 4));
        }
        _ => panic!("it does not write"),
    }
}

#[test]
fn wide_buffers() {
    let mut env = environment();
    env.mem.write_words(FORMAT, &"n=%d".chars().map(|c| c as u32).chain([0]).collect());
    env.mem.write_words(ARGS, &vec![7]);
    let args = DotDotDot { pos: ARGS };
    assert_eq!(returned(printf::swprintf(&mut env, DEST, 4, FORMAT, args)), 3);
    assert_eq!(env.mem.wcstr_at(DEST), vec!['n' as u32, '=' as u32, '7' as u32]);
    // No room for the terminator.
    assert_eq!(returned(printf::vswprintf(&mut env, DEST, 3, FORMAT, VaList { pos: ARGS })), -1);
    assert_eq!(returned(printf::swprintf(&mut env, DEST, 0, FORMAT, args)), -1);
    assert_eq!(returned(printf::wprintf(&mut env, FORMAT, args)), 3);
    assert_eq!(returned(printf::vwprintf(&mut env, FORMAT, VaList { pos: ARGS })), 3);
    touchhle::guest_console::flush(&mut env.console, touchhle::guest_console::Stream::Stdout);
    assert_eq!(env.console.log(), &vec!["[app stdout] n=7n=7"]);
    env.mem.write_cstr(LOCALE, &b"de".to_vec());
    assert!(matches!(printf::wprintf(&mut env, FORMAT, args), Outcome::Unsupported));
}

#[test]
fn log_messages() {
    let mut env = environment();
    env.mem.write_words(ARGS, &vec![0x4000, 0x4004, 3]);
    let args = DotDotDot { pos: ARGS };
    let mut outcome = printf::NSLog(&mut env, Some(b"%@ and %@: %d".to_vec()), args);
    for (object, reply) in [(0x4000, text("apple")), (0x4004, Reply::Nil)] {
        outcome = match outcome {
            Outcome::Waiting { job } => {
                assert_eq!(job.request(), Some(Request::Description { object }));
                job.resume(&mut env, reply)
            }
            _ => panic!("it does not wait"),
        };
    }
    match outcome {
        Outcome::Log { message } => assert_eq!(message, "NSLog: apple and (null): 3"),
        _ => panic!("it does not log"),
    }
    match printf::NSLogv(&mut env, None, VaList { pos: ARGS }) {
        Outcome::Log { message } => assert_eq!(message, "NSLog: (null format)"),
        _ => panic!("it does not log"),
    }
    // What is not UTF-8 is substituted.
    match printf::NSLogv(&mut env, Some(b"a\xFFb".to_vec()), VaList { pos: ARGS }) {
        Outcome::Log { message } => assert_eq!(message, "NSLog: a\u{FFFD}b"),
        _ => panic!("it does not log"),
    }
}

#[test]
fn errno_is_cleared() {
    let mut env = environment();
    set_errno(&mut env, ENOENT);
    let args = set(&mut env, "x", &[]);
    returned(printf::sprintf(&mut env, DEST, FORMAT, args));
    assert_eq!(get_errno(&mut env), 0);
}

#[test]
fn formatting_alone() {
    let mut env = environment();
    env.mem.write_words(ARGS, &vec![7]);
    let format = Format::Bytes { bytes: b"<%d>".to_vec() };
    let r = printf::printf_inner::<false>(&mut env, format, VaList { pos: ARGS });
    assert_eq!(r.flow, Flow::Done);
    assert_eq!(r.out, b"<7>".to_vec());
    assert_eq!(r.args.pos, ARGS + 4);
}

#[test]
fn joined_formats_give_joined_texts() {
    let first = "%d: %5s|%%";
    let second = " %x%u.";
    let joined = format!("{}{}", first, second);
    let mut env = environment();
    env.mem.write_cstr(0x9000, &b"abc".to_vec());
    let args = set(&mut env, &joined, &[7, 0x9000, 255, 9]);
    returned(printf::sprintf(&mut env, DEST, FORMAT, args));
    let whole = env.mem.cstr_at(DEST);
    let args = set(&mut env, first, &[7, 0x9000]);
    returned(printf::sprintf(&mut env, DEST, FORMAT, args));
    let mut parts = env.mem.cstr_at(DEST);
    let args = set(&mut env, second, &[255, 9]);
    returned(printf::sprintf(&mut env, DEST, FORMAT, args));
    parts.extend(env.mem.cstr_at(DEST));
    assert_eq!(whole, parts);
    assert_eq!(whole, b"7:   abc|% ff9.".to_vec());
}
