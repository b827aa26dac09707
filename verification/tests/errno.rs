//! `errno` and error messages.
use touchhle::environment::{Environment, FrameworkState, LibcState};
use touchhle::frameworks::{avfoundation::av_audio_player, opengles, uikit::ui_touch};
use touchhle::guest_console::Console;
use touchhle::libc::errno::{
    self, get_errno, perror, set_errno, strerror, EACCES, EBADF, ELAST, ENOENT, EPERM, EQFULL,
};
use touchhle::mem::Mem;
use touchhle::objc::classes::ObjC;

fn environment() -> Environment {
    Environment {
        mem: Mem::new(0x10000),
        objc: ObjC::new(Vec::new()),
        libc_state: LibcState { errno: errno::State::default(), ctype_locale: 0 },
        framework_state: FrameworkState {
            ui_touch: ui_touch::State::default(),
            opengles: opengles::State::default(),
            av_audio_player: av_audio_player::State::default(),
        },
        console: Console::new(),
        current_thread: 0,
    }
}

#[test]
fn errno_reads_back() {
    let mut env = environment();
    assert_eq!(get_errno(&mut env), 0);
    set_errno(&mut env, ENOENT);
    assert_eq!(get_errno(&mut env), ENOENT);
    set_errno(&mut env, -5);
    assert_eq!(get_errno(&mut env), -5);
}

#[test]
fn errno_is_where_the_guest_finds_it() {
    let mut env = environment();
    let ptr = errno::__error(&mut env);
    set_errno(&mut env, EACCES);
    assert_eq!(errno::__error(&mut env), ptr);
    assert_eq!(env.mem.read_u32(ptr), EACCES as u32);
    env.mem.write_u32(ptr, EBADF as u32);
    assert_eq!(get_errno(&mut env), EBADF);
}

#[test]
fn errno_is_per_thread() {
    let mut env = environment();
    set_errno(&mut env, ENOENT);
    let first = errno::__error(&mut env);
    env.current_thread = 1;
    assert_eq!(get_errno(&mut env), 0);
    set_errno(&mut env, EPERM);
    assert_ne!(errno::__error(&mut env), first);
    env.current_thread = 0;
    assert_eq!(get_errno(&mut env), ENOENT);
    env.libc_state.errno.set_errno_for_thread(&mut env.mem, 1, EACCES);
    assert_eq!(get_errno(&mut env), ENOENT);
    env.current_thread = 1;
    assert_eq!(get_errno(&mut env), EACCES);
}

#[test]
fn messages_read_back() {
    let mut env = environment();
    let cases = [
        (0, "Undefined error: 0"),
        (EPERM, "Operation not permitted"),
        (ENOENT, "No such file or directory"),
        (EACCES, "Permission denied"),
        (EBADF, "Bad file descriptor"),
        (EQFULL, "Interface output queue is full"),
        (ELAST + 1, "Unknown error"),
        (-1, "Unknown error"),
    ];
    for (number, message) in cases {
        let ptr = strerror(&mut env, number);
        assert_eq!(env.mem.cstr_at(ptr), message.as_bytes().to_vec());
    }
}

#[test]
fn messages_stay_where_they_are() {
    let mut env = environment();
    let a = strerror(&mut env, ENOENT);
    let b = strerror(&mut env, EPERM);
    let heap = env.mem.next_block();
    assert_ne!(a, b);
    assert_eq!(strerror(&mut env, ENOENT), a);
    assert_eq!(strerror(&mut env, EPERM), b);
    assert_eq!(env.mem.next_block(), heap);
}

#[test]
fn perror_writes_to_stderr() {
    let mut env = environment();
    set_errno(&mut env, ENOENT);
    env.mem.write_cstr(0x3000, &b"open".to_vec());
    perror(&mut env, 0x3000);
    perror(&mut env, 0);
    assert_eq!(
        env.console.log(),
        &vec!["[app stderr] open: No such file or directory", "[app stderr] No such file or directory"]
    );
    // What is not text is left out.
    env.mem.write_cstr(0x3000, &b"\xFF".to_vec());
    perror(&mut env, 0x3000);
    assert_eq!(env.console.log()[2], "[app stderr] No such file or directory");
}

#[test]
fn unknown_errors() {
    let mut env = environment();
    for err_num in -2..110 {
        let ptr = strerror(&mut env, err_num);
        let text = env.mem.cstr_at(ptr);
        assert!(!text.is_empty());
        assert_eq!(text == b"Unknown error".to_vec(), err_num < 0 || err_num > 106);
    }
    let ptr = strerror(&mut env, 35);
    let heap = env.mem.next_block();
    assert_eq!(env.mem.cstr_at(ptr), b"Resource temporarily unavailable".to_vec());
    assert_eq!(strerror(&mut env, 35), ptr);
    assert_eq!(env.mem.next_block(), heap);
}
