//! Interrupt routing decisions: the keyboard's scancode map and the APIC
//! programming values.
use vstd::prelude::*;

verus! {

/// Interrupt vector of the timer.
pub const TIMER_INT: u8 = 32;

/// Interrupt vector of the keyboard.
pub const KEYBOARD_INT: u8 = 33;

/// Interrupt vector of the software system-call gate.
pub const SYSCALL_INT: u8 = 0x80;

/// What a key press does.
#[derive(Clone, Copy, Debug, PartialEq, Eq)]
pub enum KeyAction {
    /// Echo this character to the terminal.
    Echo(char),
    /// Enter: raise the system-call interrupt.
    Enter,
    /// Nothing.
    Ignore,
}

/// The action for a set-1 make code: letters Q..P, A..L, Z..M and space echo,
/// Enter fires the system call, everything else is ignored.
pub open spec fn key_action(scancode: u8) -> KeyAction {
    match scancode {
        0x10 => KeyAction::Echo('Q'),
        0x11 => KeyAction::Echo('W'),
        0x12 => KeyAction::Echo('E'),
        0x13 => KeyAction::Echo('R'),
        0x14 => KeyAction::Echo('T'),
        0x15 => KeyAction::Echo('Y'),
        0x16 => KeyAction::Echo('U'),
        0x17 => KeyAction::Echo('I'),
        0x18 => KeyAction::Echo('O'),
        0x19 => KeyAction::Echo('P'),
        0x1E => KeyAction::Echo('A'),
        0x1F => KeyAction::Echo('S'),
        0x20 => KeyAction::Echo('D'),
        0x21 => KeyAction::Echo('F'),
        0x22 => KeyAction::Echo('G'),
        0x23 => KeyAction::Echo('H'),
        0x24 => KeyAction::Echo('J'),
        0x25 => KeyAction::Echo('K'),
        0x26 => KeyAction::Echo('L'),
        0x2C => KeyAction::Echo('Z'),
        0x2D => KeyAction::Echo('X'),
        0x2E => KeyAction::Echo('C'),
        0x2F => KeyAction::Echo('V'),
        0x30 => KeyAction::Echo('B'),
        0x31 => KeyAction::Echo('N'),
        0x32 => KeyAction::Echo('M'),
        0x39 => KeyAction::Echo(' '),
        0x1C => KeyAction::Enter,
        _ => KeyAction::Ignore,
    }
}

/// The action for a scancode (see `key_action`).
pub fn scancode_action(scancode: u8) -> (r: KeyAction)
    ensures
        r == key_action(scancode),
{
    match scancode {
        0x10 => KeyAction::Echo('Q'),
        0x11 => KeyAction::Echo('W'),
        0x12 => KeyAction::Echo('E'),
        0x13 => KeyAction::Echo('R'),
        0x14 => KeyAction::Echo('T'),
        0x15 => KeyAction::Echo('Y'),
        0x16 => KeyAction::Echo('U'),
        0x17 => KeyAction::Echo('I'),
        0x18 => KeyAction::Echo('O'),
        0x19 => KeyAction::Echo('P'),
        0x1E => KeyAction::Echo('A'),
        0x1F => KeyAction::Echo('S'),
        0x20 => KeyAction::Echo('D'),
        0x21 => KeyAction::Echo('F'),
        0x22 => KeyAction::Echo('G'),
        0x23 => KeyAction::Echo('H'),
        0x24 => KeyAction::Echo('J'),
        0x25 => KeyAction::Echo('K'),
        0x26 => KeyAction::Echo('L'),
        0x2C => KeyAction::Echo('Z'),
        0x2D => KeyAction::Echo('X'),
        0x2E => KeyAction::Echo('C'),
        0x2F => KeyAction::Echo('V'),
        0x30 => KeyAction::Echo('B'),
        0x31 => KeyAction::Echo('N'),
        0x32 => KeyAction::Echo('M'),
        0x39 => KeyAction::Echo(' '),
        0x1C => KeyAction::Enter,
        _ => KeyAction::Ignore,
    }
}

/// Whether the APICs are programmed: both base addresses must be known.
pub fn apic_routing_enabled(lapic: u64, ioapic: u64) -> (r: bool)
    ensures
        r == (lapic != 0 && ioapic != 0),
{
    lapic != 0 && ioapic != 0
}

/// The spurious-interrupt vector register value: APIC software-enabled with
/// vector 0xFF.
pub fn spurious_vector(siv: u32) -> (r: u32)
    ensures
        r == siv | 0x1FF,
{
    siv | 0x1FF
}

/// The I/O APIC (register select, value) pairs that route IRQ 1, the keyboard,
/// to vector 33 on the bootstrap processor: redirection entry 1, low then high
/// dword.
pub fn keyboard_redirection() -> (r: [(u32, u32); 2])
    ensures
        r@ == seq![(0x12u32, 33u32), (0x13u32, 0u32)],
{
    let r = [(0x12u32, KEYBOARD_INT as u32), (0x13u32, 0u32)];
    assert(r@ =~= seq![(0x12u32, 33u32), (0x13u32, 0u32)]);
    r
}

/// The address of the local APIC's end-of-interrupt register, or `None` when
/// there is no local APIC.
pub fn end_of_interrupt_address(lapic_base: u64) -> (r: Option<u64>)
    requires
        lapic_base + 0xB0 <= u64::MAX,
    ensures
        r == if lapic_base != 0 { Some((lapic_base + 0xB0) as u64) } else { None },
{
    if lapic_base != 0 {
        Some(lapic_base + 0xB0)
    } else {
        None
    }
}


/// The letter keys echo the letters printed on them on a US QWERTY keyboard:
/// the set-1 make codes of each letter row are consecutive, from 0x10 for
/// QWERTYUIOP, from 0x1E for ASDFGHJKL and from 0x2C for ZXCVBNM.
pub proof fn lemma_letter_keys_follow_qwerty(i: int)
    ensures
        0 <= i < 10 ==> key_action((0x10 + i) as u8) == KeyAction::Echo("QWERTYUIOP"@[i]),
        0 <= i < 9 ==> key_action((0x1E + i) as u8) == KeyAction::Echo("ASDFGHJKL"@[i]),
        0 <= i < 7 ==> key_action((0x2C + i) as u8) == KeyAction::Echo("ZXCVBNM"@[i]),
{
    reveal_strlit("QWERTYUIOP");
    reveal_strlit("ASDFGHJKL");
    reveal_strlit("ZXCVBNM");
}

/// Besides the letter rows, only the space bar (0x39, echoing a space) and
/// Enter (0x1C) do anything; every other scancode is ignored.
pub proof fn lemma_other_keys(scancode: u8)
    ensures
        scancode == 0x39 ==> key_action(scancode) == KeyAction::Echo(' '),
        scancode == 0x1C ==> key_action(scancode) == KeyAction::Enter,
        !(0x10 <= scancode <= 0x19 || 0x1E <= scancode <= 0x26 || 0x2C <= scancode <= 0x32
            || scancode == 0x39 || scancode == 0x1C) ==> key_action(scancode) == KeyAction::Ignore,
{
}

} // verus!
