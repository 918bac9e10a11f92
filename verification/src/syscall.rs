//! The SYSCALL interface: the STAR selector layout and the decoding of a
//! system call's number and arguments.
use vstd::prelude::*;
use vstd::utf8::{decode_utf8, valid_utf8};
use crate::boot::utf8_text;

verus! {

/// The STAR value for the given selectors: the kernel code selector in bits
/// 32..48 (SYSCALL's CS and SS base) and, in bits 48..64, the user selector
/// base that SYSRET adds 16 to (the user code selector with its RPL cleared,
/// minus 16).
pub open spec fn star_spec(kernel_code_sel: u16, user_code_sel: u16) -> int {
    kernel_code_sel * 0x1_0000_0000 + ((user_code_sel - user_code_sel % 4) - 16) * 0x1_0000_0000_0000
}

/// Computes the STAR value (see `star_spec`).
pub fn star_value(kernel_code_sel: u16, user_code_sel: u16) -> (r: u64)
    requires
        user_code_sel - user_code_sel % 4 >= 16,
    ensures
        r == star_spec(kernel_code_sel, user_code_sel),
{
    assert(user_code_sel & 0xFFFC == user_code_sel - user_code_sel % 4) by (bit_vector);
    let star_high: u16 = (user_code_sel & 0xFFFC) - 16;
    let k = kernel_code_sel as u64;
    let h = star_high as u64;
    assert((k << 32) | (h << 48) == k * 0x1_0000_0000 + h * 0x1_0000_0000_0000) by (bit_vector)
        requires
            k < 0x10000,
            h < 0x10000,
    ;
    (k << 32) | (h << 48)
}

/// The EFER value with the system-call extensions enabled.
pub fn enable_syscall_extensions(efer: u64) -> (r: u64)
    ensures
        r == efer | 1,
{
    efer | 1
}

/// A decoded system call.
#[derive(Clone, Copy, Debug, PartialEq, Eq)]
pub enum SyscallRequest {
    /// 1: print the UTF-8 text at `ptr` (`len` bytes) in `color`.
    Print { ptr: u64, len: usize, color: u32 },
    /// 2: create a black `size` x `size` canvas at (`x`, `y`).
    CreateCanvas { x: usize, y: usize, size: usize },
    /// 3: put the canvas at `canvas` on screen (nothing when null).
    BlitCanvas { canvas: u64 },
    /// 4: read NVMe logical block `lba`.
    ReadSector { lba: u64 },
    /// 5: network request with the UTF-8 payload at `ptr` (`len` bytes).
    SendPacket { ptr: u64, len: usize },
    /// Any other number.
    Unknown,
}

/// The request a system call number and its arguments make.
pub open spec fn syscall_request(num: u64, arg1: u64, arg2: u64, arg3: u64) -> SyscallRequest {
    if num == 1 {
        SyscallRequest::Print { ptr: arg1, len: arg2 as usize, color: arg3 as u32 }
    } else if num == 2 {
        SyscallRequest::CreateCanvas { x: arg1 as usize, y: arg2 as usize, size: arg3 as usize }
    } else if num == 3 {
        SyscallRequest::BlitCanvas { canvas: arg1 }
    } else if num == 4 {
        SyscallRequest::ReadSector { lba: arg1 }
    } else if num == 5 {
        SyscallRequest::SendPacket { ptr: arg1, len: arg2 as usize }
    } else {
        SyscallRequest::Unknown
    }
}

/// Decodes a system call (see `syscall_request`).
pub fn decode_syscall(num: u64, arg1: u64, arg2: u64, arg3: u64) -> (r: SyscallRequest)
    ensures
        r == syscall_request(num, arg1, arg2, arg3),
{
    match num {
        1 => SyscallRequest::Print { ptr: arg1, len: arg2 as usize, color: arg3 as u32 },
        2 => SyscallRequest::CreateCanvas { x: arg1 as usize, y: arg2 as usize, size: arg3 as usize },
        3 => SyscallRequest::BlitCanvas { canvas: arg1 },
        4 => SyscallRequest::ReadSector { lba: arg1 },
        5 => SyscallRequest::SendPacket { ptr: arg1, len: arg2 as usize },
        _ => SyscallRequest::Unknown,
    }
}


/// The text `bytes` hold when they are valid UTF-8 (the payload of a print
/// or network request, a drive's model and serial), else `None`.
pub fn text_of(bytes: &[u8]) -> (r: Option<&str>)
    ensures
        r is Some <==> valid_utf8(bytes@),
        match r {
            Some(t) => t@ == decode_utf8(bytes@),
            None => true,
        },
{
    utf8_text(bytes)
}

/// The line printed when a print request's bytes are not UTF-8.
pub const PRINT_ERROR: &'static str = "\n> SYS: SYSCALL STRING UTF8 ERROR!\n";

/// Colour of the error line.
pub const ERROR_COLOR: u32 = 0xEF4444;

/// What a print request shows and in which colour: its bytes as text in the
/// requested colour when they are valid UTF-8, else the error line in red.
pub fn print_text<'a>(bytes: &'a [u8], color: u32) -> (r: (&'a str, u32))
    ensures
        valid_utf8(bytes@) ==> r.0@ == decode_utf8(bytes@) && r.1 == color,
        !valid_utf8(bytes@) ==> r.0@ == PRINT_ERROR@ && r.1 == ERROR_COLOR,
{
    match utf8_text(bytes) {
        Some(t) => (t, color),
        None => (PRINT_ERROR, ERROR_COLOR),
    }
}

} // verus!
