//! What holds of `errno` and of error messages.
use crate::abi;
use crate::environment::layout;
use crate::environment::layout::Owner;
use crate::environment::{EnvState, ThreadId};
use crate::libc::errno;
use crate::mem;
use vstd::prelude::*;
use vstd::utf8::*;

verus! {

/// Whether a text is made of ASCII characters other than NUL.
pub open spec fn is_plain(text: Seq<char>) -> bool {
    forall|i: int| 0 <= i < text.len() ==> '\0' < #[trigger] text[i] <= '\u{7f}'
}

/// Whether a text is plain and is not the one for unknown errors.
pub open spec fn is_known_message(text: Seq<char>) -> bool {
    is_plain(text) && text.len() > 2 && text[2] != 'k'
}

proof fn lemma_plain_1()
    ensures
        is_known_message("Undefined error: 0"@),
        is_known_message("Operation not permitted"@),
        is_known_message("No such file or directory"@),
        is_known_message("No such process"@),
        is_known_message("Interrupted system call"@),
        is_known_message("Input/output error"@),
        is_known_message("No such device or address"@),
        is_known_message("Argument list too long"@),
        is_known_message("Exec format error"@),
        is_known_message("Bad file descriptor"@),
        is_known_message("No child processes"@),
        is_known_message("Resource deadlock avoided"@),
        is_known_message("Cannot allocate memory"@),
        is_known_message("Permission denied"@),
        is_known_message("Bad address"@),
        is_known_message("Block device required"@),
        is_known_message("Resource busy"@),
        is_known_message("File exists"@),
{
    reveal_strlit("Undefined error: 0");
    reveal_strlit("Operation not permitted");
    reveal_strlit("No such file or directory");
    reveal_strlit("No such process");
    reveal_strlit("Interrupted system call");
    reveal_strlit("Input/output error");
    reveal_strlit("No such device or address");
    reveal_strlit("Argument list too long");
    reveal_strlit("Exec format error");
    reveal_strlit("Bad file descriptor");
    reveal_strlit("No child processes");
    reveal_strlit("Resource deadlock avoided");
    reveal_strlit("Cannot allocate memory");
    reveal_strlit("Permission denied");
    reveal_strlit("Bad address");
    reveal_strlit("Block device required");
    reveal_strlit("Resource busy");
    reveal_strlit("File exists");
}

proof fn lemma_plain_2()
    ensures
        is_known_message("Cross-device link"@),
        is_known_message("Operation not supported by device"@),
        is_known_message("Not a directory"@),
        is_known_message("Is a directory"@),
        is_known_message("Invalid argument"@),
        is_known_message("Too many open files in system"@),
        is_known_message("Too many open files"@),
        is_known_message("Inappropriate ioctl for device"@),
        is_known_message("Text file busy"@),
        is_known_message("File too large"@),
        is_known_message("No space left on device"@),
        is_known_message("Illegal seek"@),
        is_known_message("Read-only file system"@),
        is_known_message("Too many links"@),
        is_known_message("Broken pipe"@),
        is_known_message("Numerical argument out of domain"@),
        is_known_message("Result too large"@),
        is_known_message("Resource temporarily unavailable"@),
{
    reveal_strlit("Cross-device link");
    reveal_strlit("Operation not supported by device");
    reveal_strlit("Not a directory");
    reveal_strlit("Is a directory");
    reveal_strlit("Invalid argument");
    reveal_strlit("Too many open files in system");
    reveal_strlit("Too many open files");
    reveal_strlit("Inappropriate ioctl for device");
    reveal_strlit("Text file busy");
    reveal_strlit("File too large");
    reveal_strlit("No space left on device");
    reveal_strlit("Illegal seek");
    reveal_strlit("Read-only file system");
    reveal_strlit("Too many links");
    reveal_strlit("Broken pipe");
    reveal_strlit("Numerical argument out of domain");
    reveal_strlit("Result too large");
    reveal_strlit("Resource temporarily unavailable");
}

proof fn lemma_plain_3()
    ensures
        is_known_message("Operation now in progress"@),
        is_known_message("Operation already in progress"@),
        is_known_message("Socket operation on non-socket"@),
        is_known_message("Destination address required"@),
        is_known_message("Message too long"@),
        is_known_message("Protocol wrong type for socket"@),
        is_known_message("Protocol not available"@),
        is_known_message("Protocol not supported"@),
        is_known_message("Socket type not supported"@),
        is_known_message("Operation not supported"@),
        is_known_message("Protocol family not supported"@),
        is_known_message("Address family not supported by protocol family"@),
        is_known_message("Address already in use"@),
        is_known_message("Can't assign requested address"@),
        is_known_message("Network is down"@),
        is_known_message("Network is unreachable"@),
        is_known_message("Network dropped connection on reset"@),
        is_known_message("Software caused connection abort"@),
{
    reveal_strlit("Operation now in progress");
    reveal_strlit("Operation already in progress");
    reveal_strlit("Socket operation on non-socket");
    reveal_strlit("Destination address required");
    reveal_strlit("Message too long");
    reveal_strlit("Protocol wrong type for socket");
    reveal_strlit("Protocol not available");
    reveal_strlit("Protocol not supported");
    reveal_strlit("Socket type not supported");
    reveal_strlit("Operation not supported");
    reveal_strlit("Protocol family not supported");
    reveal_strlit("Address family not supported by protocol family");
    reveal_strlit("Address already in use");
    reveal_strlit("Can't assign requested address");
    reveal_strlit("Network is down");
    reveal_strlit("Network is unreachable");
    reveal_strlit("Network dropped connection on reset");
    reveal_strlit("Software caused connection abort");
}

proof fn lemma_plain_4()
    ensures
        is_known_message("Connection reset by peer"@),
        is_known_message("No buffer space available"@),
        is_known_message("Socket is already connected"@),
        is_known_message("Socket is not connected"@),
        is_known_message("Can't send after socket shutdown"@),
        is_known_message("Too many references: can't splice"@),
        is_known_message("Operation timed out"@),
        is_known_message("Connection refused"@),
        is_known_message("Too many levels of symbolic links"@),
        is_known_message("File name too long"@),
        is_known_message("Host is down"@),
        is_known_message("No route to host"@),
        is_known_message("Directory not empty"@),
        is_known_message("Too many processes"@),
        is_known_message("Too many users"@),
        is_known_message("Disc quota exceeded"@),
        is_known_message("Stale NFS file handle"@),
        is_known_message("Too many levels of remote in path"@),
{
    reveal_strlit("Connection reset by peer");
    reveal_strlit("No buffer space available");
    reveal_strlit("Socket is already connected");
    reveal_strlit("Socket is not connected");
    reveal_strlit("Can't send after socket shutdown");
    reveal_strlit("Too many references: can't splice");
    reveal_strlit("Operation timed out");
    reveal_strlit("Connection refused");
    reveal_strlit("Too many levels of symbolic links");
    reveal_strlit("File name too long");
    reveal_strlit("Host is down");
    reveal_strlit("No route to host");
    reveal_strlit("Directory not empty");
    reveal_strlit("Too many processes");
    reveal_strlit("Too many users");
    reveal_strlit("Disc quota exceeded");
    reveal_strlit("Stale NFS file handle");
    reveal_strlit("Too many levels of remote in path");
}

proof fn lemma_plain_5()
    ensures
        is_known_message("RPC struct is bad"@),
        is_known_message("RPC version wrong"@),
        is_known_message("RPC program not available"@),
        is_known_message("Program version wrong"@),
        is_known_message("Bad procedure for program"@),
        is_known_message("No locks available"@),
        is_known_message("Function not implemented"@),
        is_known_message("Inappropriate file type or format"@),
        is_known_message("Authentication error"@),
        is_known_message("Need authenticator"@),
        is_known_message("Device power is off"@),
        is_known_message("Device error"@),
        is_known_message("Value too large to be stored in data type"@),
        is_known_message("Bad executable (or shared library)"@),
        is_known_message("Bad CPU type in executable"@),
        is_known_message("Shared library version mismatch"@),
        is_known_message("Malformed Mach-o file"@),
        is_known_message("Operation canceled"@),
{
    reveal_strlit("RPC struct is bad");
    reveal_strlit("RPC version wrong");
    reveal_strlit("RPC program not available");
    reveal_strlit("Program version wrong");
    reveal_strlit("Bad procedure for program");
    reveal_strlit("No locks available");
    reveal_strlit("Function not implemented");
    reveal_strlit("Inappropriate file type or format");
    reveal_strlit("Authentication error");
    reveal_strlit("Need authenticator");
    reveal_strlit("Device power is off");
    reveal_strlit("Device error");
    reveal_strlit("Value too large to be stored in data type");
    reveal_strlit("Bad executable (or shared library)");
    reveal_strlit("Bad CPU type in executable");
    reveal_strlit("Shared library version mismatch");
    reveal_strlit("Malformed Mach-o file");
    reveal_strlit("Operation canceled");
}

proof fn lemma_plain_6()
    ensures
        is_known_message("Identifier removed"@),
        is_known_message("No message of desired type"@),
        is_known_message("Illegal byte sequence"@),
        is_known_message("Attribute not found"@),
        is_known_message("Bad message"@),
        is_known_message("EMULTIHOP (Reserved)"@),
        is_known_message("No message available on STREAM"@),
        is_known_message("ENOLINK (Reserved)"@),
        is_known_message("No STREAM resources"@),
        is_known_message("Not a STREAM"@),
        is_known_message("Protocol error"@),
        is_known_message("STREAM ioctl timeout"@),
        is_known_message("Operation not supported on socket"@),
        is_known_message("Policy not found"@),
        is_known_message("State not recoverable"@),
        is_known_message("Previous owner died"@),
        is_known_message("Interface output queue is full"@),
        is_plain("Unknown error"@),
{
    reveal_strlit("Identifier removed");
    reveal_strlit("No message of desired type");
    reveal_strlit("Illegal byte sequence");
    reveal_strlit("Attribute not found");
    reveal_strlit("Bad message");
    reveal_strlit("EMULTIHOP (Reserved)");
    reveal_strlit("No message available on STREAM");
    reveal_strlit("ENOLINK (Reserved)");
    reveal_strlit("No STREAM resources");
    reveal_strlit("Not a STREAM");
    reveal_strlit("Protocol error");
    reveal_strlit("STREAM ioctl timeout");
    reveal_strlit("Operation not supported on socket");
    reveal_strlit("Policy not found");
    reveal_strlit("State not recoverable");
    reveal_strlit("Previous owner died");
    reveal_strlit("Interface output queue is full");
    reveal_strlit("Unknown error");
}

proof fn lemma_messages()
    ensures
        is_plain("Unknown error"@),
        forall|n: i32| 0 <= n <= 106 ==> is_known_message(#[trigger] errno::error_message(n)),
        forall|n: i32|
            n < 0 || n > 106 ==> #[trigger] errno::error_message(n) == "Unknown error"@,
{
    lemma_plain_1();
    lemma_plain_2();
    lemma_plain_3();
    lemma_plain_4();
    lemma_plain_5();
    lemma_plain_6();
}

/// Every error message is made of ASCII characters other than NUL.
pub proof fn law_messages_are_plain(err_num: i32)
    ensures
        is_plain(errno::error_message(err_num)),
{
    lemma_messages();
    assert(0 <= err_num <= 106 ==> is_known_message(errno::error_message(err_num)));
}

/// The `errno` of a thread, which is zero until it is set.
pub open spec fn thread_errno(env: EnvState, t: ThreadId) -> int {
    if env.errno.errnos.contains_key(t) {
        abi::signed(env.mem.peek_u32(env.errno.errnos[t]) as int, 0x1_0000_0000)
    } else {
        0
    }
}

/// The `errno` of a thread keeps its address.
pub proof fn law_errno_has_its_place(env: EnvState, val: i32)
    requires
        env.sound(),
        env.errno_ready(),
    ensures
        env.errno_ptr() != 0,
        env.with_errno().errno_ptr() == env.errno_ptr(),
        env.errno_set(val).errno_ptr() == env.errno_ptr(),
        env.with_errno().sound(),
        env.errno_set(val).sound(),
{
    layout::law_sound_errno(env);
    layout::law_sound_errno_set(env, val);
    lemma_errno_block(env.with_errno(), env.current_thread);
}

proof fn lemma_errno_block(env: EnvState, t: ThreadId)
    requires
        env.sound(),
        env.errno.errnos.contains_key(t),
    ensures
        layout::in_use(env.mem, (env.errno.errnos[t], 4nat)),
{
    let o = Owner::Errno { thread: t };
    assert(env.block(o) == Some((env.errno.errnos[t], 4nat)));
}

/// `errno` reads as what it was last set to, as often as it is read, and as zero
/// before.
pub proof fn law_errno_reads_back(env: EnvState, val: i32)
    requires
        env.sound(),
        env.errno_ready(),
    ensures
        env.errno_value() == thread_errno(env, env.current_thread),
        env.with_errno().errno_value() == env.errno_value(),
        env.errno_set(val).errno_value() == val,
        env.errno_set(val).mem.peek_u32(env.errno_ptr()) == abi::bits32(val as int),
        !env.errno.errnos.contains_key(env.current_thread) ==> env.errno_value() == 0,
{
    law_errno_has_its_place(env, val);
    let bits = abi::bits32(val as int);
    let ptr = env.errno_ptr();
    lemma_errno_block(env.with_errno(), env.current_thread);
    mem::lemma_peek_poke_u32(env.with_errno().mem, ptr, bits);
    mem::lemma_peek_poke_u32(env.mem.grow(4), env.mem.heap, 0);
    assert(env.errno_set(val).with_errno().mem == env.errno_set(val).mem);
}

proof fn lemma_errno_apart(env: EnvState, t: ThreadId, u: ThreadId)
    requires
        env.sound(),
        t != u,
        env.errno.errnos.contains_key(t),
        env.errno.errnos.contains_key(u),
    ensures
        layout::apart((env.errno.errnos[t], 4nat), (env.errno.errnos[u], 4nat)),
{
    let a = Owner::Errno { thread: t };
    let b = Owner::Errno { thread: u };
    assert(env.block(a) is Some);
    assert(env.block(b) is Some);
}

/// Setting or reading `errno` changes nothing for other threads, and error
/// messages change it for none.
pub proof fn law_errno_per_thread(env: EnvState, val: i32, t: ThreadId, err_num: i32)
    requires
        env.sound(),
        env.errno_ready(),
    ensures
        thread_errno(env.with_errno(), t) == thread_errno(env, t),
        thread_errno(env.errno_set(val), t) == if t == env.current_thread {
            val as int
        } else {
            thread_errno(env, t)
        },
        env.errno.message_ready(env.mem, err_num) ==> thread_errno(
            env.with_error_message(err_num),
            t,
        ) == thread_errno(env, t),
{
    let w = env.with_errno();
    let ptr = env.errno_ptr();
    law_errno_has_its_place(env, val);
    law_errno_reads_back(env, val);
    lemma_errno_block(w, env.current_thread);
    if env.errno.errnos.contains_key(t) {
        let there = env.errno.errnos[t];
        lemma_errno_block(env, t);
        assert(w.errno.errnos[t] == there);
        if !env.errno.errnos.contains_key(env.current_thread) {
            layout::lemma_new_word(env.mem, 0);
            layout::lemma_word_same(env.mem, w.mem, there);
        }
        if t != env.current_thread {
            lemma_errno_apart(w, env.current_thread, t);
            mem::lemma_peek_poke_u32_apart(w.mem, ptr, there, abi::bits32(val as int));
        }
        if env.errno.message_ready(env.mem, err_num) && !env.errno.strings.contains_key(err_num) {
            layout::lemma_new_text(env.mem, layout::message_bytes(err_num));
            layout::lemma_word_same(env.mem, env.with_error_message(err_num).mem, there);
        }
    } else if t == env.current_thread {
        mem::lemma_peek_poke_u32(env.mem.grow(4), env.mem.heap, 0);
    }
}

/// The message for an error number is at the same address every time, whatever
/// others are asked for, and asking again takes no memory.
pub proof fn law_message_address(env: EnvState, err_num: i32, other: i32)
    ensures
        ({
            let e = env.with_error_message(err_num);
            &&& e.errno.message_ptr(e.mem, err_num) == env.errno.message_ptr(env.mem, err_num)
            &&& e.with_error_message(err_num) == e
            &&& env.errno.strings.contains_key(other) ==> e.errno.message_ptr(e.mem, other)
                == env.errno.message_ptr(env.mem, other)
        }),
{
    let e = env.with_error_message(err_num);
    assert(e.with_error_message(err_num).errno.strings =~= e.errno.strings);
}

/// A message is not empty, and it is the one for unknown errors exactly outside
/// the range of known error numbers.
pub proof fn law_unknown_error(err_num: i32)
    ensures
        errno::error_message(err_num).len() > 0,
        errno::error_message(err_num) == "Unknown error"@ <==> err_num < 0 || err_num > 106,
        encode_utf8(errno::error_message(err_num)).len() > 0,
        encode_utf8(errno::error_message(err_num)) == encode_utf8("Unknown error"@) <==> err_num
            < 0 || err_num > 106,
{
    lemma_messages();
    reveal_strlit("Unknown error");
    let chars = errno::error_message(err_num);
    let unknown = "Unknown error"@;
    assert(is_ascii_chars(chars));
    assert(is_ascii_chars(unknown));
    is_ascii_chars_encode_utf8(chars);
    is_ascii_chars_encode_utf8(unknown);
    if 0 <= err_num <= 106 {
        assert(is_known_message(chars));
        assert(chars[2] as u8 == encode_utf8(chars)[2]);
        assert(unknown[2] as u8 == encode_utf8(unknown)[2]);
    }
}

/// What a guest finds at the address that it gets for an error number is the
/// message, the first time and every time.
pub proof fn law_message_reads_back(env: EnvState, err_num: i32)
    requires
        env.sound(),
        env.errno.message_ready(env.mem, err_num),
    ensures
        env.errno.message_ptr(env.mem, err_num) != 0,
        env.with_error_message(err_num).sound(),
        env.with_error_message(err_num).mem.cstr(env.errno.message_ptr(env.mem, err_num))
            == encode_utf8(errno::error_message(err_num)),
{
    let chars = errno::error_message(err_num);
    let text = encode_utf8(chars);
    law_messages_are_plain(err_num);
    assert(is_ascii_chars(chars));
    is_ascii_chars_encode_utf8(chars);
    assert forall|i: int| 0 <= i < text.len() implies #[trigger] text[i] != 0 by {
        assert(chars[i] as u8 == text[i]);
    }
    layout::law_sound_message(env, err_num);
    let e = env.with_error_message(err_num);
    let o = Owner::Message { err_num };
    let ptr = env.errno.message_ptr(env.mem, err_num);
    assert(e.block(o) == Some((ptr, text.len() + 1)));
    assert(layout::in_use(e.mem, e.block(o).unwrap()) && e.intact(o));
    layout::lemma_held_text(e.mem, ptr, text);
}

/// `perror` writes the message for the current `errno` in a line of its own, behind the
/// string and a colon, where there is one that is text.
pub proof fn law_perror(env: EnvState, s: u32)
    requires
        env.sound(),
        env.errno_ready(),
        env.with_errno().errno.message_ready(
            env.with_errno().mem,
            thread_errno(env, env.current_thread) as i32,
        ),
    ensures
        ({
            let err_num = thread_errno(env, env.current_thread) as i32;
            let message = encode_utf8(errno::error_message(err_num));
            let given = env.with_errno().with_error_message(err_num).mem.cstr(s);
            &&& s == 0 || !valid_utf8(given) ==> env.perror_text(s) == message.push('\n' as u8)
            &&& s != 0 && valid_utf8(given) ==> env.perror_text(s) == given.push(':' as u8).push(
                ' ' as u8,
            ) + message.push('\n' as u8)
        }),
{
    let err_num = thread_errno(env, env.current_thread) as i32;
    law_errno_has_its_place(env, 0);
    law_errno_reads_back(env, 0);
    law_message_reads_back(env.with_errno(), err_num);
    let given = env.with_errno().with_error_message(err_num).mem.cstr(s);
    let message = encode_utf8(errno::error_message(err_num));
    if s != 0 && valid_utf8(given) {
        assert(env.perror_text(s) =~= given.push(':' as u8).push(' ' as u8) + message.push(
            '\n' as u8,
        ));
    }
}

} // verus!
