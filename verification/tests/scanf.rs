//! The `scanf` family.
use touchhle::abi::{DotDotDot, VaList};
use touchhle::environment::{Environment, FrameworkState, LibcState};
use touchhle::frameworks::{avfoundation::av_audio_player, opengles, uikit::ui_touch};
use touchhle::guest_console::Console;
use touchhle::libc::errno;
use touchhle::libc::stdio::directive::Format;
use touchhle::libc::stdio::printf;
use touchhle::libc::stdio::scanf::{
    fscanf, isspace, isspace_inner, sscanf, sscanf_common_generic, swscanf, vsscanf, ParsedFloat,
    ScanOutcome, Subject, EOF,
};
use touchhle::mem::Mem;
use touchhle::objc::classes::ObjC;

const ARGS: u32 = 0x8000;
const SOURCE: u32 = 0x6000;
const FORMAT: u32 = 0x7000;
const A: u32 = 0x9000;
const B: u32 = 0x9100;
const C: u32 = 0x9200;

fn environment() -> Environment {
    let mut env = Environment {
        mem: Mem::new(0x10000),
        objc: ObjC::new(Vec::new()),
        libc_state: LibcState { errno: errno::State::default(), ctype_locale: 0x5000 },
        framework_state: FrameworkState {
            ui_touch: ui_touch::State::default(),
            opengles: opengles::State::default(),
            av_audio_player: av_audio_player::State::default(),
        },
        console: Console::new(),
        current_thread: 0,
    };
    env.mem.write_cstr(0x5000, &b"C".to_vec());
    env.mem.write_words(ARGS, &vec![A, B, C]);
    env
}

fn returned(outcome: ScanOutcome) -> i32 {
    match outcome {
        ScanOutcome::Returned { value, .. } => value,
        _ => panic!("it has not returned"),
    }
}

/// Scans a string, with the arguments at [A], [B] and [C].
fn scan(env: &mut Environment, source: &str, format: &str) -> i32 {
    env.mem.write_cstr(SOURCE, &source.as_bytes().to_vec());
    env.mem.write_cstr(FORMAT, &format.as_bytes().to_vec());
    returned(sscanf(env, SOURCE, FORMAT, DotDotDot { pos: ARGS }))
}

#[test]
fn decimal_integers() {
    let mut env = environment();
    assert_eq!(scan(&mut env, " 12  -7 +5", "%d%d%d"), 3);
    assert_eq!(env.mem.read_u32(A), 12);
    assert_eq!(env.mem.read_u32(B), (-7i32) as u32);
    assert_eq!(env.mem.read_u32(C), 5);
    assert_eq!(scan(&mut env, "12,34", "%d,%d"), 2);
    assert_eq!(env.mem.read_u32(B), 34);
    assert_eq!(scan(&mut env, "12;34", "%d,%d"), 1);
    assert_eq!(scan(&mut env, "x", "%d"), 0);
    assert_eq!(scan(&mut env, "1234", "%2d%d"), 2);
    assert_eq!(env.mem.read_u32(A), 12);
    assert_eq!(env.mem.read_u32(B), 34);
}

#[test]
fn numbers_out_of_range_are_the_largest_ones() {
    let mut env = environment();
    assert_eq!(scan(&mut env, "99999999999 -99999999999", "%d%d"), 2);
    assert_eq!(env.mem.read_u32(A), i32::MAX as u32);
    assert_eq!(env.mem.read_u32(B), (-i32::MAX) as u32);
    assert_eq!(scan(&mut env, "99999999999", "%u"), 1);
    assert_eq!(env.mem.read_u32(A), u32::MAX);
    assert_eq!(scan(&mut env, "300", "%hhd"), 1);
    assert_eq!(env.mem.read_u8(A), 127);
}

#[test]
fn lengths_of_scanned_integers() {
    let mut env = environment();
    env.mem.write_u64(A, u64::MAX);
    assert_eq!(scan(&mut env, "-2", "%hhd"), 1);
    assert_eq!(env.mem.read_u32(A), 0xFFFF_FFFE);
    env.mem.write_u64(A, 0);
    assert_eq!(scan(&mut env, "-2", "%hd"), 1);
    assert_eq!(env.mem.read_u32(A), 0xFFFE);
    assert_eq!(scan(&mut env, "-2", "%lld"), 1);
    assert_eq!(env.mem.read_u64(A), (-2i64) as u64);
    assert_eq!(scan(&mut env, "7", "%ld"), 1);
    assert_eq!(env.mem.read_u32(A), 7);
}

#[test]
fn integers_with_a_base() {
    let mut env = environment();
    assert_eq!(scan(&mut env, "0x1F 017 9", "%i%i%i"), 3);
    assert_eq!(env.mem.read_u32(A), 31);
    assert_eq!(env.mem.read_u32(B), 15);
    assert_eq!(env.mem.read_u32(C), 9);
    assert_eq!(scan(&mut env, "ff 0XfE", "%x%X"), 2);
    assert_eq!(env.mem.read_u32(A), 255);
    assert_eq!(env.mem.read_u32(B), 254);
    assert_eq!(scan(&mut env, "0x1000", "%p"), 1);
    assert_eq!(env.mem.read_u32(A), 0x1000);
}

#[test]
fn words_and_characters() {
    let mut env = environment();
    assert_eq!(scan(&mut env, "  hello world", "%s%s"), 2);
    assert_eq!(env.mem.cstr_at(A), b"hello".to_vec());
    assert_eq!(env.mem.cstr_at(B), b"world".to_vec());
    assert_eq!(scan(&mut env, "hello", "%3s%s"), 2);
    assert_eq!(env.mem.cstr_at(A), b"hel".to_vec());
    assert_eq!(env.mem.cstr_at(B), b"lo".to_vec());
    assert_eq!(scan(&mut env, "xy", "%c%c"), 2);
    assert_eq!(env.mem.read_u8(A), b'x');
    assert_eq!(env.mem.read_u8(B), b'y');
    // White space is not skipped before a character.
    assert_eq!(scan(&mut env, " y", "%c"), 1);
    assert_eq!(env.mem.read_u8(A), b' ');
}

#[test]
fn sets_of_characters() {
    let mut env = environment();
    assert_eq!(scan(&mut env, "abc123", "%[a-z]%d"), 2);
    assert_eq!(env.mem.cstr_at(A), b"abc".to_vec());
    assert_eq!(env.mem.read_u32(B), 123);
    assert_eq!(scan(&mut env, "key=value", "%[^=]=%s"), 2);
    assert_eq!(env.mem.cstr_at(A), b"key".to_vec());
    assert_eq!(env.mem.cstr_at(B), b"value".to_vec());
    assert_eq!(scan(&mut env, "]-x", "%[]-]%s"), 2);
    assert_eq!(env.mem.cstr_at(A), b"]-".to_vec());
    assert_eq!(scan(&mut env, "aaaa", "%2[a]%s"), 2);
    assert_eq!(env.mem.cstr_at(A), b"aa".to_vec());
}

#[test]
fn suppressed_assignments() {
    let mut env = environment();
    assert_eq!(scan(&mut env, "1 2 three four", "%*d%d%*s%s"), 2);
    assert_eq!(env.mem.read_u32(A), 2);
    assert_eq!(env.mem.cstr_at(B), b"four".to_vec());
}

#[test]
fn the_number_of_characters_so_far() {
    let mut env = environment();
    assert_eq!(scan(&mut env, "12 34", "%d %n"), 1);
    assert_eq!(env.mem.read_u32(B), 3);
    assert_eq!(scan(&mut env, "50%", "%d%%%n"), 1);
    assert_eq!(env.mem.read_u32(B), 3);
}

#[test]
fn scanned_floats() {
    let mut env = environment();
    env.mem.write_cstr(SOURCE, &b" -1.5e3 2.5x".to_vec());
    env.mem.write_cstr(FORMAT, &b"%f%lf".to_vec());
    let mut outcome = vsscanf(&mut env, SOURCE, FORMAT, VaList { pos: ARGS });
    for (want, number) in [("-1.5e3", -1500.0f64), ("2.5", 2.5)] {
        outcome = match outcome {
            ScanOutcome::Waiting { job } => {
                assert_eq!(job.text, want.as_bytes().to_vec());
                let reply = ParsedFloat::Number {
                    double: number.to_bits(),
                    single: (number as f32).to_bits(),
                };
                job.resume(&mut env, reply)
            }
            _ => panic!("it does not wait"),
        };
    }
    assert_eq!(returned(outcome), 2);
    assert_eq!(f32::from_bits(env.mem.read_u32(A)), -1500.0);
    assert_eq!(f64::from_bits(env.mem.read_u64(B)), 2.5);
    // What is no number ends it.
    env.mem.write_cstr(SOURCE, &b"abc".to_vec());
    match sscanf(&mut env, SOURCE, FORMAT, DotDotDot { pos: ARGS }) {
        ScanOutcome::Waiting { job } => {
            assert_eq!(job.text, b"".to_vec());
            assert_eq!(returned(job.resume(&mut env, ParsedFloat::Invalid)), 0);
        }
        _ => panic!("it does not wait"),
    }
}

#[test]
fn files() {
    let mut env = environment();
    env.mem.write_cstr(FORMAT, &b"%d %s".to_vec());
    let args = DotDotDot { pos: ARGS };
    match fscanf(&mut env, b"12 ab cd".to_vec(), FORMAT, args) {
        ScanOutcome::Returned { value, taken } => {
            assert_eq!(value, 2);
            assert_eq!(taken, 5);
        }
        _ => panic!("it has not returned"),
    }
    assert_eq!(env.mem.read_u32(A), 12);
    assert_eq!(env.mem.cstr_at(B), b"ab".to_vec());
    match fscanf(&mut env, Vec::new(), FORMAT, args) {
        ScanOutcome::Returned { value, taken } => assert_eq!((value, taken), (EOF, 0)),
        _ => panic!("it has not returned"),
    }
}

#[test]
fn wide_sources() {
    let mut env = environment();
    let wide = |s: &str| s.chars().map(|c| c as u32).chain([0]).collect::<Vec<u32>>();
    env.mem.write_words(SOURCE, &wide("12 ab"));
    env.mem.write_words(FORMAT, &wide("%d %s"));
    let args = DotDotDot { pos: ARGS };
    assert_eq!(returned(swscanf(&mut env, SOURCE, FORMAT, args)), 2);
    assert_eq!(env.mem.read_u32(A), 12);
    assert_eq!(env.mem.cstr_at(B), b"ab".to_vec());
    env.mem.write_cstr(0x5000, &b"de".to_vec());
    assert!(matches!(swscanf(&mut env, SOURCE, FORMAT, args), ScanOutcome::Unsupported));
}

#[test]
fn printed_integers_scan_back() {
    for i in [0, 1, -1, 9, 10, -10, 12345, i32::MAX, -i32::MAX] {
        let mut env = environment();
        env.mem.write_cstr(FORMAT, &b"%d".to_vec());
        env.mem.write_u32(0xA000, i as u32);
        printf::sprintf(&mut env, SOURCE, FORMAT, DotDotDot { pos: 0xA000 });
        assert_eq!(returned(sscanf(&mut env, SOURCE, FORMAT, DotDotDot { pos: ARGS })), 1);
        assert_eq!(env.mem.read_u32(A), i as u32);
    }
}

#[test]
fn strings_on_the_host() {
    let mut env = environment();
    let subject = Subject::Text { bytes: b"8 9".to_vec() };
    let format = Format::Bytes { bytes: b"%d %d".to_vec() };
    assert_eq!(
        returned(sscanf_common_generic(&mut env, subject, format, VaList { pos: ARGS })),
        2
    );
    assert_eq!(env.mem.read_u32(B), 9);
}

#[test]
fn widths_that_do_not_fit() {
    let mut env = environment();
    env.mem.write_cstr(SOURCE, &b"1".to_vec());
    env.mem.write_cstr(FORMAT, &b"%99999999999d".to_vec());
    let outcome = sscanf(&mut env, SOURCE, FORMAT, DotDotDot { pos: ARGS });
    assert!(matches!(outcome, ScanOutcome::Unsupported));
}

#[test]
fn white_space() {
    let mut env = environment();
    for c in [b' ', b'\t', b'\n', 0x0B, 0x0C, b'\r'] {
        assert!(isspace_inner(c));
    }
    assert!(!isspace_inner(0));
    assert!(!isspace_inner(b'a'));
    env.mem.write_u8(SOURCE, b'\n');
    assert!(isspace(&env, SOURCE));
    assert!(!isspace(&env, SOURCE + 1));
}
