//! `errno.h`
pub mod laws;
pub mod messages;

use crate::abi;
use crate::environment::{EnvState, Environment, ThreadId};
use crate::guest_console;
use crate::guest_console::Stream;
use crate::libc::stdio::text;
use crate::mem;
use crate::mem::{Mem, MemState};
use std::collections::HashMap;
use vstd::prelude::*;
use vstd::utf8::*;

verus! {

broadcast use {vstd::std_specs::hash::group_hash_axioms, vstd::string::group_string_axioms};

// Standard errno constants (iOS/macOS BSD)
pub const EPERM: i32 = 1;

pub const ENOENT: i32 = 2;

pub const ESRCH: i32 = 3;

pub const EINTR: i32 = 4;

pub const EIO: i32 = 5;

pub const ENXIO: i32 = 6;

pub const E2BIG: i32 = 7;

pub const ENOEXEC: i32 = 8;

pub const EBADF: i32 = 9;

pub const ECHILD: i32 = 10;

pub const EDEADLK: i32 = 11;

pub const ENOMEM: i32 = 12;

pub const EACCES: i32 = 13;

pub const EFAULT: i32 = 14;

pub const ENOTBLK: i32 = 15;

pub const EBUSY: i32 = 16;

pub const EEXIST: i32 = 17;

pub const EXDEV: i32 = 18;

pub const ENODEV: i32 = 19;

pub const ENOTDIR: i32 = 20;

pub const EISDIR: i32 = 21;

pub const EINVAL: i32 = 22;

pub const ENFILE: i32 = 23;

pub const EMFILE: i32 = 24;

pub const ENOTTY: i32 = 25;

pub const ETXTBSY: i32 = 26;

pub const EFBIG: i32 = 27;

pub const ENOSPC: i32 = 28;

pub const ESPIPE: i32 = 29;

pub const EROFS: i32 = 30;

pub const EMLINK: i32 = 31;

pub const EPIPE: i32 = 32;

pub const EDOM: i32 = 33;

pub const ERANGE: i32 = 34;

pub const EAGAIN: i32 = 35;

pub const EINPROGRESS: i32 = 36;

pub const EALREADY: i32 = 37;

pub const ENOTSOCK: i32 = 38;

pub const EDESTADDRREQ: i32 = 39;

pub const EMSGSIZE: i32 = 40;

pub const EPROTOTYPE: i32 = 41;

pub const ENOPROTOOPT: i32 = 42;

pub const EPROTONOSUPPORT: i32 = 43;

pub const ESOCKTNOSUPPORT: i32 = 44;

pub const ENOTSUP: i32 = 45;

pub const EPFNOSUPPORT: i32 = 46;

pub const EAFNOSUPPORT: i32 = 47;

pub const EADDRINUSE: i32 = 48;

pub const EADDRNOTAVAIL: i32 = 49;

pub const ENETDOWN: i32 = 50;

pub const ENETUNREACH: i32 = 51;

pub const ENETRESET: i32 = 52;

pub const ECONNABORTED: i32 = 53;

pub const ECONNRESET: i32 = 54;

pub const ENOBUFS: i32 = 55;

pub const EISCONN: i32 = 56;

pub const ENOTCONN: i32 = 57;

pub const ESHUTDOWN: i32 = 58;

pub const ETOOMANYREFS: i32 = 59;

pub const ETIMEDOUT: i32 = 60;

pub const ECONNREFUSED: i32 = 61;

pub const ELOOP: i32 = 62;

pub const ENAMETOOLONG: i32 = 63;

pub const EHOSTDOWN: i32 = 64;

pub const EHOSTUNREACH: i32 = 65;

pub const ENOTEMPTY: i32 = 66;

pub const EPROCLIM: i32 = 67;

pub const EUSERS: i32 = 68;

pub const EDQUOT: i32 = 69;

pub const ESTALE: i32 = 70;

pub const EREMOTE: i32 = 71;

pub const EBADRPC: i32 = 72;

pub const ERPCMISMATCH: i32 = 73;

pub const EPROGUNAVAIL: i32 = 74;

pub const EPROGMISMATCH: i32 = 75;

pub const EPROCUNAVAIL: i32 = 76;

pub const ENOLCK: i32 = 77;

pub const ENOSYS: i32 = 78;

pub const EFTYPE: i32 = 79;

pub const EAUTH: i32 = 80;

pub const ENEEDAUTH: i32 = 81;

pub const EPWROFF: i32 = 82;

pub const EDEVERR: i32 = 83;

pub const EOVERFLOW: i32 = 84;

pub const EBADEXEC: i32 = 85;

pub const EBADARCH: i32 = 86;

pub const ESHLIBVERS: i32 = 87;

pub const EBADMACHO: i32 = 88;

pub const ECANCELED: i32 = 89;

pub const EIDRM: i32 = 90;

pub const ENOMSG: i32 = 91;

pub const EILSEQ: i32 = 92;

pub const ENOATTR: i32 = 93;

pub const EBADMSG: i32 = 94;

pub const EMULTIHOP: i32 = 95;

pub const ENODATA: i32 = 96;

pub const ENOLINK: i32 = 97;

pub const ENOSR: i32 = 98;

pub const ENOSTR: i32 = 99;

pub const EPROTO: i32 = 100;

pub const ETIME: i32 = 101;

pub const EOPNOTSUPP: i32 = 102;

pub const ENOPOLICY: i32 = 103;

pub const ENOTRECOVERABLE: i32 = 104;

pub const EOWNERDEAD: i32 = 105;

pub const EQFULL: i32 = 106;

pub const ELAST: i32 = 106;

/// The message for an error number.
pub open spec fn error_message(err_num: i32) -> Seq<char> {
    match err_num {
        0 => "Undefined error: 0"@,
        EPERM => "Operation not permitted"@,
        ENOENT => "No such file or directory"@,
        ESRCH => "No such process"@,
        EINTR => "Interrupted system call"@,
        EIO => "Input/output error"@,
        ENXIO => "No such device or address"@,
        E2BIG => "Argument list too long"@,
        ENOEXEC => "Exec format error"@,
        EBADF => "Bad file descriptor"@,
        ECHILD => "No child processes"@,
        EDEADLK => "Resource deadlock avoided"@,
        ENOMEM => "Cannot allocate memory"@,
        EACCES => "Permission denied"@,
        EFAULT => "Bad address"@,
        ENOTBLK => "Block device required"@,
        EBUSY => "Resource busy"@,
        EEXIST => "File exists"@,
        EXDEV => "Cross-device link"@,
        ENODEV => "Operation not supported by device"@,
        ENOTDIR => "Not a directory"@,
        EISDIR => "Is a directory"@,
        EINVAL => "Invalid argument"@,
        ENFILE => "Too many open files in system"@,
        EMFILE => "Too many open files"@,
        ENOTTY => "Inappropriate ioctl for device"@,
        ETXTBSY => "Text file busy"@,
        EFBIG => "File too large"@,
        ENOSPC => "No space left on device"@,
        ESPIPE => "Illegal seek"@,
        EROFS => "Read-only file system"@,
        EMLINK => "Too many links"@,
        EPIPE => "Broken pipe"@,
        EDOM => "Numerical argument out of domain"@,
        ERANGE => "Result too large"@,
        EAGAIN => "Resource temporarily unavailable"@,
        EINPROGRESS => "Operation now in progress"@,
        EALREADY => "Operation already in progress"@,
        ENOTSOCK => "Socket operation on non-socket"@,
        EDESTADDRREQ => "Destination address required"@,
        EMSGSIZE => "Message too long"@,
        EPROTOTYPE => "Protocol wrong type for socket"@,
        ENOPROTOOPT => "Protocol not available"@,
        EPROTONOSUPPORT => "Protocol not supported"@,
        ESOCKTNOSUPPORT => "Socket type not supported"@,
        ENOTSUP => "Operation not supported"@,
        EPFNOSUPPORT => "Protocol family not supported"@,
        EAFNOSUPPORT => "Address family not supported by protocol family"@,
        EADDRINUSE => "Address already in use"@,
        EADDRNOTAVAIL => "Can't assign requested address"@,
        ENETDOWN => "Network is down"@,
        ENETUNREACH => "Network is unreachable"@,
        ENETRESET => "Network dropped connection on reset"@,
        ECONNABORTED => "Software caused connection abort"@,
        ECONNRESET => "Connection reset by peer"@,
        ENOBUFS => "No buffer space available"@,
        EISCONN => "Socket is already connected"@,
        ENOTCONN => "Socket is not connected"@,
        ESHUTDOWN => "Can't send after socket shutdown"@,
        ETOOMANYREFS => "Too many references: can't splice"@,
        ETIMEDOUT => "Operation timed out"@,
        ECONNREFUSED => "Connection refused"@,
        ELOOP => "Too many levels of symbolic links"@,
        ENAMETOOLONG => "File name too long"@,
        EHOSTDOWN => "Host is down"@,
        EHOSTUNREACH => "No route to host"@,
        ENOTEMPTY => "Directory not empty"@,
        EPROCLIM => "Too many processes"@,
        EUSERS => "Too many users"@,
        EDQUOT => "Disc quota exceeded"@,
        ESTALE => "Stale NFS file handle"@,
        EREMOTE => "Too many levels of remote in path"@,
        EBADRPC => "RPC struct is bad"@,
        ERPCMISMATCH => "RPC version wrong"@,
        EPROGUNAVAIL => "RPC program not available"@,
        EPROGMISMATCH => "Program version wrong"@,
        EPROCUNAVAIL => "Bad procedure for program"@,
        ENOLCK => "No locks available"@,
        ENOSYS => "Function not implemented"@,
        EFTYPE => "Inappropriate file type or format"@,
        EAUTH => "Authentication error"@,
        ENEEDAUTH => "Need authenticator"@,
        EPWROFF => "Device power is off"@,
        EDEVERR => "Device error"@,
        EOVERFLOW => "Value too large to be stored in data type"@,
        EBADEXEC => "Bad executable (or shared library)"@,
        EBADARCH => "Bad CPU type in executable"@,
        ESHLIBVERS => "Shared library version mismatch"@,
        EBADMACHO => "Malformed Mach-o file"@,
        ECANCELED => "Operation canceled"@,
        EIDRM => "Identifier removed"@,
        ENOMSG => "No message of desired type"@,
        EILSEQ => "Illegal byte sequence"@,
        ENOATTR => "Attribute not found"@,
        EBADMSG => "Bad message"@,
        EMULTIHOP => "EMULTIHOP (Reserved)"@,
        ENODATA => "No message available on STREAM"@,
        ENOLINK => "ENOLINK (Reserved)"@,
        ENOSR => "No STREAM resources"@,
        ENOSTR => "Not a STREAM"@,
        EPROTO => "Protocol error"@,
        ETIME => "STREAM ioctl timeout"@,
        EOPNOTSUPP => "Operation not supported on socket"@,
        ENOPOLICY => "Policy not found"@,
        ENOTRECOVERABLE => "State not recoverable"@,
        EOWNERDEAD => "Previous owner died"@,
        EQFULL => "Interface output queue is full"@,
        _ => "Unknown error"@,
    }
}

/// The message for an error number.
fn message(err_num: i32) -> (s: &'static str)
    ensures
        s@ == error_message(err_num),
{
    match err_num {
        0 => "Undefined error: 0",
        EPERM => "Operation not permitted",
        ENOENT => "No such file or directory",
        ESRCH => "No such process",
        EINTR => "Interrupted system call",
        EIO => "Input/output error",
        ENXIO => "No such device or address",
        E2BIG => "Argument list too long",
        ENOEXEC => "Exec format error",
        EBADF => "Bad file descriptor",
        ECHILD => "No child processes",
        EDEADLK => "Resource deadlock avoided",
        ENOMEM => "Cannot allocate memory",
        EACCES => "Permission denied",
        EFAULT => "Bad address",
        ENOTBLK => "Block device required",
        EBUSY => "Resource busy",
        EEXIST => "File exists",
        EXDEV => "Cross-device link",
        ENODEV => "Operation not supported by device",
        ENOTDIR => "Not a directory",
        EISDIR => "Is a directory",
        EINVAL => "Invalid argument",
        ENFILE => "Too many open files in system",
        EMFILE => "Too many open files",
        ENOTTY => "Inappropriate ioctl for device",
        ETXTBSY => "Text file busy",
        EFBIG => "File too large",
        ENOSPC => "No space left on device",
        ESPIPE => "Illegal seek",
        EROFS => "Read-only file system",
        EMLINK => "Too many links",
        EPIPE => "Broken pipe",
        EDOM => "Numerical argument out of domain",
        ERANGE => "Result too large",
        EAGAIN => "Resource temporarily unavailable",
        EINPROGRESS => "Operation now in progress",
        EALREADY => "Operation already in progress",
        ENOTSOCK => "Socket operation on non-socket",
        EDESTADDRREQ => "Destination address required",
        EMSGSIZE => "Message too long",
        EPROTOTYPE => "Protocol wrong type for socket",
        ENOPROTOOPT => "Protocol not available",
        EPROTONOSUPPORT => "Protocol not supported",
        ESOCKTNOSUPPORT => "Socket type not supported",
        ENOTSUP => "Operation not supported",
        EPFNOSUPPORT => "Protocol family not supported",
        EAFNOSUPPORT => "Address family not supported by protocol family",
        EADDRINUSE => "Address already in use",
        EADDRNOTAVAIL => "Can't assign requested address",
        ENETDOWN => "Network is down",
        ENETUNREACH => "Network is unreachable",
        ENETRESET => "Network dropped connection on reset",
        ECONNABORTED => "Software caused connection abort",
        ECONNRESET => "Connection reset by peer",
        ENOBUFS => "No buffer space available",
        EISCONN => "Socket is already connected",
        ENOTCONN => "Socket is not connected",
        ESHUTDOWN => "Can't send after socket shutdown",
        ETOOMANYREFS => "Too many references: can't splice",
        ETIMEDOUT => "Operation timed out",
        ECONNREFUSED => "Connection refused",
        ELOOP => "Too many levels of symbolic links",
        ENAMETOOLONG => "File name too long",
        EHOSTDOWN => "Host is down",
        EHOSTUNREACH => "No route to host",
        ENOTEMPTY => "Directory not empty",
        EPROCLIM => "Too many processes",
        EUSERS => "Too many users",
        EDQUOT => "Disc quota exceeded",
        ESTALE => "Stale NFS file handle",
        EREMOTE => "Too many levels of remote in path",
        EBADRPC => "RPC struct is bad",
        ERPCMISMATCH => "RPC version wrong",
        EPROGUNAVAIL => "RPC program not available",
        EPROGMISMATCH => "Program version wrong",
        EPROCUNAVAIL => "Bad procedure for program",
        ENOLCK => "No locks available",
        ENOSYS => "Function not implemented",
        EFTYPE => "Inappropriate file type or format",
        EAUTH => "Authentication error",
        ENEEDAUTH => "Need authenticator",
        EPWROFF => "Device power is off",
        EDEVERR => "Device error",
        EOVERFLOW => "Value too large to be stored in data type",
        EBADEXEC => "Bad executable (or shared library)",
        EBADARCH => "Bad CPU type in executable",
        ESHLIBVERS => "Shared library version mismatch",
        EBADMACHO => "Malformed Mach-o file",
        ECANCELED => "Operation canceled",
        EIDRM => "Identifier removed",
        ENOMSG => "No message of desired type",
        EILSEQ => "Illegal byte sequence",
        ENOATTR => "Attribute not found",
        EBADMSG => "Bad message",
        EMULTIHOP => "EMULTIHOP (Reserved)",
        ENODATA => "No message available on STREAM",
        ENOLINK => "ENOLINK (Reserved)",
        ENOSR => "No STREAM resources",
        ENOSTR => "Not a STREAM",
        EPROTO => "Protocol error",
        ETIME => "STREAM ioctl timeout",
        EOPNOTSUPP => "Operation not supported on socket",
        ENOPOLICY => "Policy not found",
        ENOTRECOVERABLE => "State not recoverable",
        EOWNERDEAD => "Previous owner died",
        EQFULL => "Interface output queue is full",
        _ => "Unknown error",
    }
}

/// Where each thread's `errno` is, and where messages were stored.
#[verifier::ext_equal]
pub struct ErrnoState {
    pub errnos: Map<ThreadId, u32>,
    pub strings: Map<i32, u32>,
}

pub struct State {
    errnos: HashMap<ThreadId, u32>,
    strings_cache: HashMap<i32, u32>,
}

impl View for State {
    type V = ErrnoState;

    closed spec fn view(&self) -> ErrnoState {
        ErrnoState { errnos: self.errnos@, strings: self.strings_cache@ }
    }
}

impl Default for State {
    fn default() -> (state: State)
        ensures
            state@ == (ErrnoState { errnos: Map::empty(), strings: Map::empty() }),
    {
        State { errnos: HashMap::new(), strings_cache: HashMap::new() }
    }
}

impl ErrnoState {
    /// Whether `thread` has an `errno`, or memory for one is left.
    pub open spec fn ready(self, m: MemState, thread: ThreadId) -> bool {
        self.errnos.contains_key(thread) || m.room() >= 16
    }

    /// The address of the `errno` of `thread`. A new one comes from the heap.
    pub open spec fn ptr(self, m: MemState, thread: ThreadId) -> u32 {
        if self.errnos.contains_key(thread) {
            self.errnos[thread]
        } else {
            m.heap
        }
    }

    /// The state in which `thread` has an `errno`.
    pub open spec fn with_ptr(self, m: MemState, thread: ThreadId) -> ErrnoState {
        ErrnoState { errnos: self.errnos.insert(thread, self.ptr(m, thread)), ..self }
    }

    /// The memory in which `thread` has an `errno`. A new one is zero.
    pub open spec fn with_ptr_mem(self, m: MemState, thread: ThreadId) -> MemState {
        if self.errnos.contains_key(thread) {
            m
        } else {
            m.grow(4).poke_u32(m.heap, 0)
        }
    }

    /// Whether the message for `err_num` is stored, or memory for it is left.
    pub open spec fn message_ready(self, m: MemState, err_num: i32) -> bool {
        self.strings.contains_key(err_num) || m.room() >= 32 + encode_utf8(
            error_message(err_num),
        ).len()
    }

    /// The address of the message for `err_num`.
    pub open spec fn message_ptr(self, m: MemState, err_num: i32) -> u32 {
        if self.strings.contains_key(err_num) {
            self.strings[err_num]
        } else {
            m.heap
        }
    }

    /// The state in which the message for `err_num` is stored.
    pub open spec fn with_message(self, m: MemState, err_num: i32) -> ErrnoState {
        ErrnoState { strings: self.strings.insert(err_num, self.message_ptr(m, err_num)), ..self }
    }

    /// The memory in which the message for `err_num` is stored.
    pub open spec fn with_message_mem(self, m: MemState, err_num: i32) -> MemState {
        let text = encode_utf8(error_message(err_num));
        if self.strings.contains_key(err_num) {
            m
        } else {
            m.grow((text.len() + 1) as u32).poke_cstr(m.heap, text)
        }
    }
}

impl State {
    /// The address of the `errno` of `thread`.
    fn errno_ptr_for_thread(&mut self, mem: &mut Mem, thread: ThreadId) -> (ptr: u32)
        requires
            old(self)@.ready(old(mem)@, thread),
        ensures
            ptr == old(self)@.ptr(old(mem)@, thread),
            final(self)@ == old(self)@.with_ptr(old(mem)@, thread),
            final(mem)@ == old(self)@.with_ptr_mem(old(mem)@, thread),
    {
        match self.errnos.get(&thread) {
            Some(ptr) => {
                proof {
                    assert(self@ =~= self@.with_ptr(mem@, thread));
                }
                *ptr
            },
            None => {
                let ptr: u32 = mem.alloc_and_write_u32(0);
                self.errnos.insert(thread, ptr);
                ptr
            },
        }
    }

    /// Sets the `errno` of `thread`.
    pub fn set_errno_for_thread(&mut self, mem: &mut Mem, thread: ThreadId, val: i32)
        requires
            old(self)@.ready(old(mem)@, thread),
        ensures
            final(self)@ == old(self)@.with_ptr(old(mem)@, thread),
            final(mem)@ == old(self)@.with_ptr_mem(old(mem)@, thread).poke_u32(
                old(self)@.ptr(old(mem)@, thread),
                abi::bits32(val as int),
            ),
    {
        let ptr: u32 = self.errno_ptr_for_thread(mem, thread);
        mem.write_u32(ptr, abi::from_i32(val));
    }
}

impl EnvState {
    /// Whether the current thread has an `errno`, or memory for one is left.
    pub open spec fn errno_ready(self) -> bool {
        self.errno.ready(self.mem, self.current_thread)
    }

    /// The address of the current thread's `errno`.
    pub open spec fn errno_ptr(self) -> u32 {
        self.errno.ptr(self.mem, self.current_thread)
    }

    /// The environment in which the current thread has an `errno`.
    pub open spec fn with_errno(self) -> EnvState {
        EnvState {
            errno: self.errno.with_ptr(self.mem, self.current_thread),
            mem: self.errno.with_ptr_mem(self.mem, self.current_thread),
            ..self
        }
    }

    /// The value of the current thread's `errno`.
    pub open spec fn errno_value(self) -> int {
        abi::signed(self.with_errno().mem.peek_u32(self.errno_ptr()) as int, 0x1_0000_0000)
    }

    /// The environment after the current thread's `errno` was set.
    pub open spec fn errno_set(self, val: i32) -> EnvState {
        let env = self.with_errno();
        EnvState { mem: env.mem.poke_u32(self.errno_ptr(), abi::bits32(val as int)), ..env }
    }

    /// The environment in which the message for `err_num` is stored.
    pub open spec fn with_error_message(self, err_num: i32) -> EnvState {
        EnvState {
            errno: self.errno.with_message(self.mem, err_num),
            mem: self.errno.with_message_mem(self.mem, err_num),
            ..self
        }
    }

    /// What `perror` writes.
    pub open spec fn perror_text(self, s: u32) -> Seq<u8> {
        let err_num = self.errno_value() as i32;
        let env = self.with_errno().with_error_message(err_num);
        let line = env.mem.cstr(
            self.with_errno().errno.message_ptr(self.with_errno().mem, err_num),
        ).push('\n' as u8);
        if s != 0 && valid_utf8(env.mem.cstr(s)) {
            env.mem.cstr(s) + seq![':' as u8, ' ' as u8] + line
        } else {
            line
        }
    }
}

/// Sets the current thread's `errno`.
pub fn set_errno(env: &mut Environment, val: i32)
    requires
        old(env)@.errno_ready(),
    ensures
        final(env)@ == old(env)@.errno_set(val),
{
    env.libc_state.errno.set_errno_for_thread(&mut env.mem, env.current_thread, val);
}

/// The current thread's `errno`, as the C `errno` macro reads it.
pub fn get_errno(env: &mut Environment) -> (val: i32)
    requires
        old(env)@.errno_ready(),
    ensures
        val == old(env)@.errno_value(),
        final(env)@ == old(env)@.with_errno(),
{
    let ptr: u32 = env.libc_state.errno.errno_ptr_for_thread(&mut env.mem, env.current_thread);
    abi::to_i32(env.mem.read_u32(ptr))
}

/// The address of the current thread's `errno`.
pub fn __error(env: &mut Environment) -> (ptr: u32)
    requires
        old(env)@.errno_ready(),
    ensures
        ptr == old(env)@.errno_ptr(),
        final(env)@ == old(env)@.with_errno(),
{
    env.libc_state.errno.errno_ptr_for_thread(&mut env.mem, env.current_thread)
}

/// Writes a message about the current thread's `errno` to `stderr`, behind
/// the string `s` and a colon if there is one that is text.
pub fn perror(env: &mut Environment, s: u32)
    requires
        old(env)@.wf(),
        old(env)@.errno_ready(),
        old(env)@.with_errno().errno.message_ready(
            old(env)@.with_errno().mem,
            old(env)@.errno_value() as i32,
        ),
    ensures
        ({
            let next = old(env)@.with_errno().with_error_message(old(env)@.errno_value() as i32);
            final(env)@ == (EnvState {
                console: next.console.written(Stream::Stderr, old(env)@.perror_text(s)),
                ..next
            })
        }),
        final(env)@.wf(),
{
    let ptr: u32 = __error(env);
    let err_num: i32 = abi::to_i32(env.mem.read_u32(ptr));
    let str_error: u32 = strerror(env, err_num);
    let mut line: Vec<u8> = env.mem.cstr_at(str_error);
    line.push('\n' as u8);
    let mut msg: Vec<u8> = Vec::new();
    if s != 0 {
        let prefix: Vec<u8> = env.mem.cstr_at(s);
        if text::char_count(&prefix).is_some() {
            msg.extend_from_slice(prefix.as_slice());
            msg.push(':' as u8);
            msg.push(' ' as u8);
        }
    }
    msg.extend_from_slice(line.as_slice());
    proof {
        assert(msg@ =~= old(env)@.perror_text(s));
    }
    guest_console::write(&mut env.console, Stream::Stderr, msg.as_slice());
}

/// The address of the message for `err_num`. It is the same one every time.
pub fn strerror(env: &mut Environment, err_num: i32) -> (ptr: u32)
    requires
        old(env)@.errno.message_ready(old(env)@.mem, err_num),
    ensures
        ptr == old(env)@.errno.message_ptr(old(env)@.mem, err_num),
        final(env)@ == old(env)@.with_error_message(err_num),
{
    match env.libc_state.errno.strings_cache.get(&err_num) {
        Some(ptr) => {
            proof {
                assert(env@.errno =~= env@.errno.with_message(env@.mem, err_num));
            }
            *ptr
        },
        None => {
            let text: Vec<u8> = vstd::slice::slice_to_vec(message(err_num).as_bytes());
            let ptr: u32 = env.mem.alloc_and_write_cstr(&text);
            env.libc_state.errno.strings_cache.insert(err_num, ptr);
            ptr
        },
    }
}

/// Setting `errno` twice is setting it the second time.
pub proof fn lemma_errno_set_again(env: EnvState, a: i32, b: i32)
    ensures
        env.errno_set(a).errno_set(b) == env.errno_set(b),
{
    let m = env.with_errno().mem;
    mem::lemma_poke_u32_again(m, env.errno_ptr(), abi::bits32(a as int), abi::bits32(b as int));
    assert(env.errno_set(a).errno_set(b).errno.errnos =~= env.errno_set(b).errno.errnos);
}

} // verus!
