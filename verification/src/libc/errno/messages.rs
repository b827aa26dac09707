//! The error messages in the order of the error numbers.
use crate::libc::errno;
use vstd::prelude::*;

verus! {

/// The messages for ten error numbers in a row, from ten times `k` on.
pub open spec fn row(k: int) -> Seq<Seq<char>> {
    if k == 0 {
        seq![
            "Undefined error: 0"@,
            "Operation not permitted"@,
            "No such file or directory"@,
            "No such process"@,
            "Interrupted system call"@,
            "Input/output error"@,
            "No such device or address"@,
            "Argument list too long"@,
            "Exec format error"@,
            "Bad file descriptor"@,
        ]
    } else if k == 1 {
        seq![
            "No child processes"@,
            "Resource deadlock avoided"@,
            "Cannot allocate memory"@,
            "Permission denied"@,
            "Bad address"@,
            "Block device required"@,
            "Resource busy"@,
            "File exists"@,
            "Cross-device link"@,
            "Operation not supported by device"@,
        ]
    } else if k == 2 {
        seq![
            "Not a directory"@,
            "Is a directory"@,
            "Invalid argument"@,
            "Too many open files in system"@,
            "Too many open files"@,
            "Inappropriate ioctl for device"@,
            "Text file busy"@,
            "File too large"@,
            "No space left on device"@,
            "Illegal seek"@,
        ]
    } else if k == 3 {
        seq![
            "Read-only file system"@,
            "Too many links"@,
            "Broken pipe"@,
            "Numerical argument out of domain"@,
            "Result too large"@,
            "Resource temporarily unavailable"@,
            "Operation now in progress"@,
            "Operation already in progress"@,
            "Socket operation on non-socket"@,
            "Destination address required"@,
        ]
    } else if k == 4 {
        seq![
            "Message too long"@,
            "Protocol wrong type for socket"@,
            "Protocol not available"@,
            "Protocol not supported"@,
            "Socket type not supported"@,
            "Operation not supported"@,
            "Protocol family not supported"@,
            "Address family not supported by protocol family"@,
            "Address already in use"@,
            "Can't assign requested address"@,
        ]
    } else if k == 5 {
        seq![
            "Network is down"@,
            "Network is unreachable"@,
            "Network dropped connection on reset"@,
            "Software caused connection abort"@,
            "Connection reset by peer"@,
            "No buffer space available"@,
            "Socket is already connected"@,
            "Socket is not connected"@,
            "Can't send after socket shutdown"@,
            "Too many references: can't splice"@,
        ]
    } else if k == 6 {
        seq![
            "Operation timed out"@,
            "Connection refused"@,
            "Too many levels of symbolic links"@,
            "File name too long"@,
            "Host is down"@,
            "No route to host"@,
            "Directory not empty"@,
            "Too many processes"@,
            "Too many users"@,
            "Disc quota exceeded"@,
        ]
    } else if k == 7 {
        seq![
            "Stale NFS file handle"@,
            "Too many levels of remote in path"@,
            "RPC struct is bad"@,
            "RPC version wrong"@,
            "RPC program not available"@,
            "Program version wrong"@,
            "Bad procedure for program"@,
            "No locks available"@,
            "Function not implemented"@,
            "Inappropriate file type or format"@,
        ]
    } else if k == 8 {
        seq![
            "Authentication error"@,
            "Need authenticator"@,
            "Device power is off"@,
            "Device error"@,
            "Value too large to be stored in data type"@,
            "Bad executable (or shared library)"@,
            "Bad CPU type in executable"@,
            "Shared library version mismatch"@,
            "Malformed Mach-o file"@,
            "Operation canceled"@,
        ]
    } else if k == 9 {
        seq![
            "Identifier removed"@,
            "No message of desired type"@,
            "Illegal byte sequence"@,
            "Attribute not found"@,
            "Bad message"@,
            "EMULTIHOP (Reserved)"@,
            "No message available on STREAM"@,
            "ENOLINK (Reserved)"@,
            "No STREAM resources"@,
            "Not a STREAM"@,
        ]
    } else {
        seq![
            "Protocol error"@,
            "STREAM ioctl timeout"@,
            "Operation not supported on socket"@,
            "Policy not found"@,
            "State not recoverable"@,
            "Previous owner died"@,
            "Interface output queue is full"@,
        ]
    }
}

proof fn lemma_row_0(n: i32)
    requires
        0 <= n < 10,
    ensures
        errno::error_message(n) == row(0)[n - 0],
{
}

proof fn lemma_row_1(n: i32)
    requires
        10 <= n < 20,
    ensures
        errno::error_message(n) == row(1)[n - 10],
{
}

proof fn lemma_row_2(n: i32)
    requires
        20 <= n < 30,
    ensures
        errno::error_message(n) == row(2)[n - 20],
{
}

proof fn lemma_row_3(n: i32)
    requires
        30 <= n < 40,
    ensures
        errno::error_message(n) == row(3)[n - 30],
{
}

proof fn lemma_row_4(n: i32)
    requires
        40 <= n < 50,
    ensures
        errno::error_message(n) == row(4)[n - 40],
{
}

proof fn lemma_row_5(n: i32)
    requires
        50 <= n < 60,
    ensures
        errno::error_message(n) == row(5)[n - 50],
{
}

proof fn lemma_row_6(n: i32)
    requires
        60 <= n < 70,
    ensures
        errno::error_message(n) == row(6)[n - 60],
{
}

proof fn lemma_row_7(n: i32)
    requires
        70 <= n < 80,
    ensures
        errno::error_message(n) == row(7)[n - 70],
{
}

proof fn lemma_row_8(n: i32)
    requires
        80 <= n < 90,
    ensures
        errno::error_message(n) == row(8)[n - 80],
{
}

proof fn lemma_row_9(n: i32)
    requires
        90 <= n < 100,
    ensures
        errno::error_message(n) == row(9)[n - 90],
{
}

proof fn lemma_row_10(n: i32)
    requires
        100 <= n < 107,
    ensures
        errno::error_message(n) == row(10)[n - 100],
{
}

/// Each error number from 0 to 106 has the message that is listed for it.
pub proof fn law_message_listed(err_num: i32)
    requires
        0 <= err_num <= 106,
    ensures
        errno::error_message(err_num) == row(err_num as int / 10)[err_num as int % 10],
{
    if err_num < 10 {
        lemma_row_0(err_num);
    } else if err_num < 20 {
        lemma_row_1(err_num);
    } else if err_num < 30 {
        lemma_row_2(err_num);
    } else if err_num < 40 {
        lemma_row_3(err_num);
    } else if err_num < 50 {
        lemma_row_4(err_num);
    } else if err_num < 60 {
        lemma_row_5(err_num);
    } else if err_num < 70 {
        lemma_row_6(err_num);
    } else if err_num < 80 {
        lemma_row_7(err_num);
    } else if err_num < 90 {
        lemma_row_8(err_num);
    } else if err_num < 100 {
        lemma_row_9(err_num);
    } else {
        lemma_row_10(err_num);
    }
}

} // verus!
