//! System-call dispatch: which request a system call makes, after checking
//! its arguments, and the values the calls return.
use vstd::prelude::*;

verus! {

pub const SYS_READ: u64 = 0;
pub const SYS_WRITE: u64 = 1;
pub const SYS_YIELD: u64 = 24;
pub const SYS_GETPID: u64 = 39;
pub const SYS_EXIT: u64 = 60;
pub const SYS_GETUID: u64 = 102;
pub const SYS_YIELD_ALT: u64 = 158;
pub const SYS_FS_LIST: u64 = 200;
pub const SYS_GET_PROCESS_INFO: u64 = 201;
pub const SYS_GET_MEM_INFO: u64 = 202;
pub const SYS_GET_CPU_INFO: u64 = 203;
pub const SYS_CLEAR_SCREEN: u64 = 204;
pub const SYS_GET_TIME: u64 = 205;
pub const SYS_GET_UPTIME: u64 = 206;
pub const SYS_PRINT: u64 = 210;
pub const SYS_PRINT_COLORED: u64 = 211;
pub const SYS_READ_CHAR: u64 = 212;
pub const SYS_GET_CURSOR: u64 = 213;
pub const SYS_SET_CURSOR: u64 = 214;
pub const SYS_CLEAR_LINE: u64 = 215;
/// What a refused or unknown call returns.
pub const SYSCALL_ERROR: u64 = 0xFFFF_FFFF_FFFF_FFFF;
/// Longest text `SYS_PRINT_COLORED` accepts.
pub const MAX_PRINT_LEN: u64 = 256;

/// A system call with its arguments checked.
#[derive(Clone, Copy, PartialEq, Eq, Structural)]
pub enum Syscall {
    /// Write `len` bytes at user address `buf` to the screen; returns `len`.
    Write { buf: u64, len: u64 },
    /// Read one byte from the keyboard to user address `buf`; returns 1, or
    /// 0 when no key is waiting.
    Read { buf: u64 },
    /// End the process with the code.
    Exit { code: u64 },
    GetPid,
    GetUid,
    /// Yield the processor; returns 0.
    Yield,
    /// List the files; returns their number.
    FsList,
    /// Print the process table; returns the number of processes.
    GetProcessInfo,
    /// Print the memory statistics; returns `mem_info_value`.
    GetMemInfo,
    /// Print the processor information; returns the number of processors.
    GetCpuInfo,
    /// Clear the screen; returns 0.
    ClearScreen,
    /// Returns the timer ticks.
    GetTime,
    /// Print the uptime; returns it in seconds.
    GetUptime,
    /// Print `len` bytes at `ptr` when they are UTF-8; returns 0.
    Print { ptr: u64, len: u64 },
    /// Print `len` bytes at `ptr` in `color` when they are UTF-8; returns 0.
    PrintColored { ptr: u64, len: u64, color: u32 },
    /// Returns the next key's code, or 0.
    ReadChar,
    /// Returns the cursor position, `cursor_value`.
    GetCursor,
    /// Move the cursor; returns 0.
    SetCursor { x: u64, y: u64 },
    /// Clear the cursor's line; returns 0.
    ClearLine,
    /// Do nothing and return the value.
    Return { value: u64 },
}

/// The numbers of the system calls there are.
pub open spec fn known_syscall(num: u64) -> bool {
    num == SYS_WRITE || num == SYS_READ || num == SYS_EXIT || num == SYS_GETPID || num == SYS_GETUID
        || num == SYS_YIELD || num == SYS_YIELD_ALT || num == SYS_FS_LIST || num == SYS_GET_PROCESS_INFO
        || num == SYS_GET_MEM_INFO || num == SYS_GET_CPU_INFO || num == SYS_CLEAR_SCREEN || num == SYS_GET_TIME
        || num == SYS_GET_UPTIME || num == SYS_PRINT || num == SYS_PRINT_COLORED || num == SYS_READ_CHAR
        || num == SYS_GET_CURSOR || num == SYS_SET_CURSOR || num == SYS_CLEAR_LINE
}

/// Decodes a system call: the number selects the call, and calls with
/// invalid arguments become a plain return of their error value.
pub fn decode_syscall(num: u64, arg1: u64, arg2: u64, arg3: u64) -> (s: Syscall)
    ensures
        num == SYS_WRITE ==> s == if arg1 == 1 && arg3 > 0 && arg2 != 0 { Syscall::Write { buf: arg2, len: arg3 } }
            else { Syscall::Return { value: SYSCALL_ERROR } },
        num == SYS_READ ==> s == if arg1 == 0 && arg2 != 0 { Syscall::Read { buf: arg2 } }
            else { Syscall::Return { value: SYSCALL_ERROR } },
        num == SYS_EXIT ==> s == (Syscall::Exit { code: arg1 }),
        num == SYS_GETPID ==> s == Syscall::GetPid,
        num == SYS_GETUID ==> s == Syscall::GetUid,
        num == SYS_YIELD || num == SYS_YIELD_ALT ==> s == Syscall::Yield,
        num == SYS_FS_LIST ==> s == Syscall::FsList,
        num == SYS_GET_PROCESS_INFO ==> s == Syscall::GetProcessInfo,
        num == SYS_GET_MEM_INFO ==> s == Syscall::GetMemInfo,
        num == SYS_GET_CPU_INFO ==> s == Syscall::GetCpuInfo,
        num == SYS_CLEAR_SCREEN ==> s == Syscall::ClearScreen,
        num == SYS_GET_TIME ==> s == Syscall::GetTime,
        num == SYS_GET_UPTIME ==> s == Syscall::GetUptime,
        num == SYS_PRINT ==> s == if arg2 < 4096 && arg1 != 0 { Syscall::Print { ptr: arg1, len: arg2 } }
            else { Syscall::Return { value: 0 } },
        num == SYS_PRINT_COLORED ==> s == if arg2 <= MAX_PRINT_LEN && arg1 != 0 {
            Syscall::PrintColored { ptr: arg1, len: arg2, color: arg3 as u32 } } else { Syscall::Return { value: SYSCALL_ERROR } },
        num == SYS_READ_CHAR ==> s == Syscall::ReadChar,
        num == SYS_GET_CURSOR ==> s == Syscall::GetCursor,
        num == SYS_SET_CURSOR ==> s == (Syscall::SetCursor { x: arg1, y: arg2 }),
        num == SYS_CLEAR_LINE ==> s == Syscall::ClearLine,
        !known_syscall(num) ==> s == (Syscall::Return { value: SYSCALL_ERROR }),
{
    if num == SYS_WRITE {
        if arg1 == 1 && arg3 > 0 && arg2 != 0 { Syscall::Write { buf: arg2, len: arg3 } } else { Syscall::Return { value: SYSCALL_ERROR } }
    } else if num == SYS_READ {
        if arg1 == 0 && arg2 != 0 { Syscall::Read { buf: arg2 } } else { Syscall::Return { value: SYSCALL_ERROR } }
    } else if num == SYS_EXIT {
        Syscall::Exit { code: arg1 }
    } else if num == SYS_GETPID {
        Syscall::GetPid
    } else if num == SYS_GETUID {
        Syscall::GetUid
    } else if num == SYS_YIELD || num == SYS_YIELD_ALT {
        Syscall::Yield
    } else if num == SYS_FS_LIST {
        Syscall::FsList
    } else if num == SYS_GET_PROCESS_INFO {
        Syscall::GetProcessInfo
    } else if num == SYS_GET_MEM_INFO {
        Syscall::GetMemInfo
    } else if num == SYS_GET_CPU_INFO {
        Syscall::GetCpuInfo
    } else if num == SYS_CLEAR_SCREEN {
        Syscall::ClearScreen
    } else if num == SYS_GET_TIME {
        Syscall::GetTime
    } else if num == SYS_GET_UPTIME {
        Syscall::GetUptime
    } else if num == SYS_PRINT {
        if arg2 < 4096 && arg1 != 0 { Syscall::Print { ptr: arg1, len: arg2 } } else { Syscall::Return { value: 0 } }
    } else if num == SYS_PRINT_COLORED {
        if arg2 > MAX_PRINT_LEN || arg1 == 0 {
            Syscall::Return { value: SYSCALL_ERROR }
        } else {
            Syscall::PrintColored { ptr: arg1, len: arg2, color: arg3 as u32 }
        }
    } else if num == SYS_READ_CHAR {
        Syscall::ReadChar
    } else if num == SYS_GET_CURSOR {
        Syscall::GetCursor
    } else if num == SYS_SET_CURSOR {
        Syscall::SetCursor { x: arg1, y: arg2 }
    } else if num == SYS_CLEAR_LINE {
        Syscall::ClearLine
    } else {
        Syscall::Return { value: SYSCALL_ERROR }
    }
}

/// Memory statistics in one value: total frames shifted into the high 32
/// bits, or-ed with the free frames.
pub fn mem_info_value(total: u64, free: u64) -> (v: u64)
    ensures
        v == (total << 32u64) | free,
{
    (total << 32) | free
}

/// Megabytes held by `frames` 4 KiB frames.
pub fn frames_to_mb(frames: u64) -> (mb: u64)
    requires
        frames * 4 <= u64::MAX,
    ensures
        mb == frames * 4 / 1024,
{
    frames * 4 / 1024
}

/// The cursor position in one value: column in the high 32 bits, row in
/// the low 32.
pub fn cursor_value(x: u64, y: u64) -> (v: u64)
    ensures
        v == (x << 32u64) | y,
{
    (x << 32) | y
}

/// Whole seconds of uptime at 100 timer ticks a second.
pub fn uptime_seconds(ticks: u64) -> (s: u64)
    ensures
        s == ticks / 100,
{
    ticks / 100
}

} // verus!
