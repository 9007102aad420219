use vstd::prelude::*;
use super::bytes::{add8, add16, byte_offset, high_byte, low_byte, mul8, mul16, offset_address, short_high, short_low, signed8, signed16, sub8, sub16, wrap_u8, wrap_u16};
use super::device::{NullDevice, VmDevice};
use super::memory::{MAXIMUM_ROM_SIZE, Memory, MemoryState, PROGRAM_START, RAM_SIZE, EXPANSION_BANKS_COUNT, seq_load};
use super::operands::Operands;
use super::stack::{Stack, StackState};

verus! {

/// Errors raised when setting up the VM.
#[derive(Debug, PartialEq, Eq, Structural)]
pub enum VmError {
    RomTooLarge { size: usize, maximum_capacity: usize },
}

/// Whether the VM may continue after a step.
#[derive(Debug, PartialEq, Eq, Structural)]
pub enum VmState {
    Running,
    Halted,
}

/// The abstract state of the machine: both stacks and the memory.
pub struct MachineState {
    pub ws: StackState,
    pub rs: StackState,
    pub memory: MemoryState,
}

/// 1 for true, 0 for false.
pub open spec fn flag(condition: bool) -> u8 {
    if condition {
        1
    } else {
        0
    }
}

/// The SFT result on a byte: shift right by the low nibble, then left by the high nibble.
pub open spec fn shift_byte(value: u8, shift: u8) -> u8 {
    let right = shift & 0x0f;
    let left = shift >> 4u8;
    let shifted: u8 = if right < 8 { value >> right } else { 0 };
    if left < 8 {
        shifted << left
    } else {
        0
    }
}

/// The SFT2 result on a short.
pub open spec fn shift_short(value: u16, shift: u8) -> u16 {
    let right = (shift & 0x0f) as u16;
    let left = (shift >> 4u8) as u16;
    let shifted: u16 = if right < 16 { value >> right } else { 0 };
    if left < 16 {
        shifted << left
    } else {
        0
    }
}

/// The opcode with its return and keep flags cleared, except for the
/// immediate opcodes (low five bits zero), which keep all their bits.
pub open spec fn normalized(opcode: u8) -> u8 {
    if opcode & 0x1f != 0 {
        opcode & 0x3f
    } else {
        opcode
    }
}

pub open spec fn is_return_mode(opcode: u8) -> bool {
    opcode & 0x40 != 0
}

pub open spec fn is_keep_mode(opcode: u8) -> bool {
    opcode & 0x80 != 0
}

/// The effect of a byte-sized regular instruction (`n` in 0x01..=0x1f) on
/// the source stack, the other stack and the memory. `memory` already has
/// its program counter past the opcode; `in1` is what the device returns.
#[verifier::opaque]
pub open spec fn byte_effect(
    n: u8,
    keep: bool,
    src: StackState,
    dst: StackState,
    memory: MemoryState,
    in1: u8,
) -> (StackState, StackState, MemoryState) {
    let o = Operands::of(src);
    let a = o.a;
    let b = o.b;
    let c = o.c;
    if n == 0x01 {
        (src.consume(1, keep).push8(wrap_u8(a + 1)), dst, memory)
    } else if n == 0x02 {
        (src.consume(1, keep), dst, memory)
    } else if n == 0x03 {
        (src.consume(2, keep).push8(a), dst, memory)
    } else if n == 0x04 {
        (src.consume(2, keep).push8(a).push8(b), dst, memory)
    } else if n == 0x05 {
        (src.consume(3, keep).push8(b).push8(a).push8(c), dst, memory)
    } else if n == 0x06 {
        (src.consume(1, keep).push8(a).push8(a), dst, memory)
    } else if n == 0x07 {
        (src.consume(2, keep).push8(b).push8(a).push8(b), dst, memory)
    } else if n == 0x08 {
        (src.consume(2, keep).push8(flag(b == a)), dst, memory)
    } else if n == 0x09 {
        (src.consume(2, keep).push8(flag(b != a)), dst, memory)
    } else if n == 0x0a {
        (src.consume(2, keep).push8(flag(b > a)), dst, memory)
    } else if n == 0x0b {
        (src.consume(2, keep).push8(flag(b < a)), dst, memory)
    } else if n == 0x0c {
        (src.consume(1, keep), dst, memory.with_pc(memory.pc_plus(signed8(a))))
    } else if n == 0x0d {
        (src.consume(2, keep), dst, if b != 0 { memory.with_pc(memory.pc_plus(signed8(a))) } else { memory })
    } else if n == 0x0e {
        (src.consume(1, keep), dst.push16(memory.pc), memory.with_pc(memory.pc_plus(signed8(a))))
    } else if n == 0x0f {
        (src.consume(1, keep), dst.push8(a), memory)
    } else if n == 0x10 {
        (src.consume(1, keep).push8(memory.read8(a as u16)), dst, memory)
    } else if n == 0x11 {
        (src.consume(2, keep), dst, memory.write8(a as u16, b))
    } else if n == 0x12 {
        (src.consume(1, keep).push8(memory.read8(memory.pc_plus(signed8(a)))), dst, memory)
    } else if n == 0x13 {
        (src.consume(2, keep), dst, memory.write8(memory.pc_plus(signed8(a)), b))
    } else if n == 0x14 {
        (src.consume(2, keep).push8(memory.read8(o.a2)), dst, memory)
    } else if n == 0x15 {
        (src.consume(3, keep), dst, memory.write8(o.a2, c))
    } else if n == 0x16 {
        (src.consume(1, keep).push8(in1), dst, memory)
    } else if n == 0x17 {
        (src.consume(2, keep), dst, memory)
    } else if n == 0x18 {
        (src.consume(2, keep).push8(wrap_u8(b + a)), dst, memory)
    } else if n == 0x19 {
        (src.consume(2, keep).push8(wrap_u8(b - a)), dst, memory)
    } else if n == 0x1a {
        (src.consume(2, keep).push8(wrap_u8(b * a)), dst, memory)
    } else if n == 0x1b {
        (src.consume(2, keep).push8(if a != 0 { (b / a) as u8 } else { 0 }), dst, memory)
    } else if n == 0x1c {
        (src.consume(2, keep).push8(b & a), dst, memory)
    } else if n == 0x1d {
        (src.consume(2, keep).push8(b | a), dst, memory)
    } else if n == 0x1e {
        (src.consume(2, keep).push8(b ^ a), dst, memory)
    } else if n == 0x1f {
        (src.consume(2, keep).push8(shift_byte(b, a)), dst, memory)
    } else {
        (src, dst, memory)
    }
}

/// The effect of a short-sized regular instruction (`n` in 0x21..=0x3f).
/// `in1` and `in2` are what the device returns for the two ports read.
#[verifier::opaque]
pub open spec fn short_effect(
    n: u8,
    keep: bool,
    src: StackState,
    dst: StackState,
    memory: MemoryState,
    in1: u8,
    in2: u8,
) -> (StackState, StackState, MemoryState) {
    let o = Operands::of(src);
    let a = o.a;
    let c = o.c;
    let a2 = o.a2;
    let b2 = o.b2;
    let c2 = o.c2;
    let sab = o.short_after_byte;
    if n == 0x21 {
        (src.consume(2, keep).push16(wrap_u16(a2 + 1)), dst, memory)
    } else if n == 0x22 {
        (src.consume(2, keep), dst, memory)
    } else if n == 0x23 {
        (src.consume(4, keep).push16(a2), dst, memory)
    } else if n == 0x24 {
        (src.consume(4, keep).push16(a2).push16(b2), dst, memory)
    } else if n == 0x25 {
        (src.consume(6, keep).push16(b2).push16(a2).push16(c2), dst, memory)
    } else if n == 0x26 {
        (src.consume(2, keep).push16(a2).push16(a2), dst, memory)
    } else if n == 0x27 {
        (src.consume(4, keep).push16(b2).push16(a2).push16(b2), dst, memory)
    } else if n == 0x28 {
        (src.consume(4, keep).push8(flag(b2 == a2)), dst, memory)
    } else if n == 0x29 {
        (src.consume(4, keep).push8(flag(b2 != a2)), dst, memory)
    } else if n == 0x2a {
        (src.consume(4, keep).push8(flag(b2 > a2)), dst, memory)
    } else if n == 0x2b {
        (src.consume(4, keep).push8(flag(b2 < a2)), dst, memory)
    } else if n == 0x2c {
        (src.consume(2, keep), dst, memory.with_pc(a2))
    } else if n == 0x2d {
        (src.consume(3, keep), dst, if c != 0 { memory.with_pc(a2) } else { memory })
    } else if n == 0x2e {
        (src.consume(2, keep), dst.push16(memory.pc), memory.with_pc(a2))
    } else if n == 0x2f {
        (src.consume(2, keep), dst.push16(a2), memory)
    } else if n == 0x30 {
        (src.consume(1, keep).push8(memory.read8(a as u16)).push8(memory.read8(wrap_u8(a + 1) as u16)), dst, memory)
    } else if n == 0x31 {
        (src.consume(3, keep), dst, memory.write8(a as u16, high_byte(sab)).write8(wrap_u8(a + 1) as u16, low_byte(sab)))
    } else if n == 0x32 {
        (src.consume(1, keep).push16(memory.read16(memory.pc_plus(signed8(a)))), dst, memory)
    } else if n == 0x33 {
        (src.consume(3, keep), dst, memory.write16(memory.pc_plus(signed8(a)), sab))
    } else if n == 0x34 {
        (src.consume(2, keep).push16(memory.read16(a2)), dst, memory)
    } else if n == 0x35 {
        (src.consume(4, keep), dst, memory.write16(a2, b2))
    } else if n == 0x36 {
        (src.consume(1, keep).push8(in1).push8(in2), dst, memory)
    } else if n == 0x37 {
        (src.consume(3, keep), dst, memory)
    } else if n == 0x38 {
        (src.consume(4, keep).push16(wrap_u16(b2 + a2)), dst, memory)
    } else if n == 0x39 {
        (src.consume(4, keep).push16(wrap_u16(b2 - a2)), dst, memory)
    } else if n == 0x3a {
        (src.consume(4, keep).push16(wrap_u16(b2 * a2)), dst, memory)
    } else if n == 0x3b {
        (src.consume(4, keep).push16(if a2 != 0 { (b2 / a2) as u16 } else { 0 }), dst, memory)
    } else if n == 0x3c {
        (src.consume(4, keep).push16(b2 & a2), dst, memory)
    } else if n == 0x3d {
        (src.consume(4, keep).push16(b2 | a2), dst, memory)
    } else if n == 0x3e {
        (src.consume(4, keep).push16(b2 ^ a2), dst, memory)
    } else if n == 0x3f {
        (src.consume(3, keep).push16(shift_short(sab, a)), dst, memory)
    } else {
        (src, dst, memory)
    }
}

/// The state after an immediate instruction (the opcode's low five bits
/// are zero): BRK, JCI, JMI, JSI and the four literal forms.
#[verifier::opaque]
pub open spec fn immediate_next(s: MachineState, opcode: u8) -> MachineState {
    let m1 = s.memory.with_pc(s.memory.pc_plus(1));
    let m2 = m1.with_pc(m1.pc_plus(2));
    let offset = signed16(m1.read16(m1.pc));
    if opcode == 0x20 {
        MachineState {
            ws: s.ws.drop_bytes(1),
            rs: s.rs,
            memory: if s.ws.byte_at(0) != 0 { m2.with_pc(m2.pc_plus(offset)) } else { m2 },
        }
    } else if opcode == 0x40 {
        MachineState { memory: m2.with_pc(m2.pc_plus(offset)), ..s }
    } else if opcode == 0x60 {
        MachineState { rs: s.rs.push16(m2.pc), memory: m2.with_pc(m2.pc_plus(offset)), ..s }
    } else if opcode == 0x80 {
        MachineState { ws: s.ws.push8(m1.read8(m1.pc)), memory: m1.with_pc(m1.pc_plus(1)), ..s }
    } else if opcode == 0xa0 {
        MachineState { ws: s.ws.push16(m1.read16(m1.pc)), memory: m2, ..s }
    } else if opcode == 0xc0 {
        MachineState { rs: s.rs.push8(m1.read8(m1.pc)), memory: m1.with_pc(m1.pc_plus(1)), ..s }
    } else if opcode == 0xe0 {
        MachineState { rs: s.rs.push16(m1.read16(m1.pc)), memory: m2, ..s }
    } else {
        MachineState { memory: m1, ..s }
    }
}

/// The state after a regular instruction (the opcode's low five bits are
/// not all zero); `in1` and `in2` are the bytes the device returns.
#[verifier::opaque]
pub open spec fn regular_next(s: MachineState, opcode: u8, in1: u8, in2: u8) -> MachineState {
    let m1 = s.memory.with_pc(s.memory.pc_plus(1));
    let n = opcode & 0x3f;
    let keep = is_keep_mode(opcode);
    let (src, dst) = if is_return_mode(opcode) { (s.rs, s.ws) } else { (s.ws, s.rs) };
    let effect = if n < 0x20 {
        byte_effect(n, keep, src, dst, m1, in1)
    } else {
        short_effect(n, keep, src, dst, m1, in1, in2)
    };
    if is_return_mode(opcode) {
        MachineState { ws: effect.1, rs: effect.0, memory: effect.2 }
    } else {
        MachineState { ws: effect.0, rs: effect.1, memory: effect.2 }
    }
}

/// The state after executing one instruction from `s`. `in1` and `in2`
/// stand for the bytes that the device returns on input; for the device
/// output instructions the memory that results is the device's business
/// and is not described here.
pub open spec fn next_state(s: MachineState, in1: u8, in2: u8) -> MachineState {
    let opcode = s.memory.read8(s.memory.pc);
    if opcode & 0x1f == 0 {
        immediate_next(s, opcode)
    } else {
        regular_next(s, opcode, in1, in2)
    }
}

/// The instruction at the program counter is BRK.
pub open spec fn halts_at(s: MachineState) -> bool {
    s.memory.read8(s.memory.pc) == 0
}

/// The number of the instruction at the program counter, its keep and return bits cleared
/// (immediate instructions keep their whole opcode).
pub open spec fn instruction_at(s: MachineState) -> u8 {
    normalized(s.memory.read8(s.memory.pc))
}

/// The stack the instruction at the program counter takes its operands from.
pub open spec fn operand_stack(s: MachineState) -> StackState {
    if is_return_mode(s.memory.read8(s.memory.pc)) { s.rs } else { s.ws }
}

/// The port a device instruction at the program counter names: its operand stack's top byte.
pub open spec fn device_port(s: MachineState) -> u8 {
    operand_stack(s).byte_at(0)
}

/// The instruction at the program counter reads from the device (DEI or DEI2).
pub open spec fn inputs_at(s: MachineState) -> bool {
    instruction_at(s) == 0x16 || instruction_at(s) == 0x36
}

/// The memory the device is handed during the instruction: the program counter is past the
/// opcode.
pub open spec fn fetched_memory(s: MachineState) -> MemoryState {
    s.memory.with_pc(s.memory.pc_plus(1))
}

/// The instruction at the program counter hands a byte to the device (DEO or DEO2).
pub open spec fn outputs_at(s: MachineState) -> bool {
    let n = normalized(s.memory.read8(s.memory.pc));
    n == 0x17 || n == 0x37
}

/// A step from `before` led to `after`, the device having returned `in1` and `in2`.
pub open spec fn step_relation(before: MachineState, after: MachineState, in1: u8, in2: u8) -> bool {
    let expected = next_state(before, in1, in2);
    &&& after.ws == expected.ws
    &&& after.rs == expected.rs
    &&& !outputs_at(before) ==> after.memory == expected.memory
}

/// Uxn virtual machine: working stack, return stack, memory and a device.
pub struct Vm<D: VmDevice = NullDevice> {
    pub ws: Stack,
    pub rs: Stack,
    pub memory: Memory,
    pub device: D,
}


/// Compares two bytes as the comparison opcodes do.
fn compare_flag(condition: bool) -> (byte: u8)
    ensures
        byte == flag(condition),
{
    if condition {
        0x01
    } else {
        0x00
    }
}

fn shift_byte_exec(value: u8, shift: u8) -> (result: u8)
    ensures
        result == shift_byte(value, shift),
{
    let right = shift & 0x0f;
    let left = shift >> 4u8;
    let shifted: u8 = if right < 8 { value >> right } else { 0 };
    if left < 8 {
        shifted << left
    } else {
        0
    }
}

fn shift_short_exec(value: u16, shift: u8) -> (result: u16)
    ensures
        result == shift_short(value, shift),
{
    let right = (shift & 0x0f) as u16;
    let left = (shift >> 4u8) as u16;
    let shifted: u16 = if right < 16 { value >> right } else { 0 };
    if left < 16 {
        shifted << left
    } else {
        0
    }
}

/// Executes a byte-sized regular instruction `n` (0x01..=0x1f) on the
/// source stack `src`; returns the byte read from the device, if any.
fn execute_byte_01_04<D: VmDevice>(
    n: u8,
    keep: bool,
    src: &mut Stack,
    dst: &mut Stack,
    memory: &mut Memory,
    device: &mut D,
) -> (input: u8)
    requires
        0x01 <= n <= 0x04,
    ensures
        ({
            let effect = byte_effect(n, keep, old(src)@, old(dst)@, old(memory)@, input);
            &&& final(src)@ == effect.0
            &&& final(dst)@ == effect.1
            &&& n != 0x17 ==> final(memory)@ == effect.2
        }),
        *final(device) == *old(device),
{
    reveal(byte_effect);
    let o = Operands::peek_from(src);
    let mut input: u8 = 0;
    if n == 0x01 {
        src.adjust_for_keep(1, keep);
        src.push_u8(add8(o.a, 1));
    } else if n == 0x02 {
        src.adjust_for_keep(1, keep);
    } else if n == 0x03 {
        src.adjust_for_keep(2, keep);
        src.push_u8(o.a);
    } else {
        src.adjust_for_keep(2, keep);
        src.push_u8(o.a);
        src.push_u8(o.b);
    }
    input
}

fn execute_byte_05_08<D: VmDevice>(
    n: u8,
    keep: bool,
    src: &mut Stack,
    dst: &mut Stack,
    memory: &mut Memory,
    device: &mut D,
) -> (input: u8)
    requires
        0x05 <= n <= 0x08,
    ensures
        ({
            let effect = byte_effect(n, keep, old(src)@, old(dst)@, old(memory)@, input);
            &&& final(src)@ == effect.0
            &&& final(dst)@ == effect.1
            &&& n != 0x17 ==> final(memory)@ == effect.2
        }),
        *final(device) == *old(device),
{
    reveal(byte_effect);
    let o = Operands::peek_from(src);
    let mut input: u8 = 0;
    if n == 0x05 {
        src.adjust_for_keep(3, keep);
        src.push_u8(o.b);
        src.push_u8(o.a);
        src.push_u8(o.c);
    } else if n == 0x06 {
        src.adjust_for_keep(1, keep);
        src.push_u8(o.a);
        src.push_u8(o.a);
    } else if n == 0x07 {
        src.adjust_for_keep(2, keep);
        src.push_u8(o.b);
        src.push_u8(o.a);
        src.push_u8(o.b);
    } else {
        src.adjust_for_keep(2, keep);
        src.push_u8(compare_flag(o.b == o.a));
    }
    input
}

fn execute_byte_09_0b<D: VmDevice>(
    n: u8,
    keep: bool,
    src: &mut Stack,
    dst: &mut Stack,
    memory: &mut Memory,
    device: &mut D,
) -> (input: u8)
    requires
        0x09 <= n <= 0x0b,
    ensures
        ({
            let effect = byte_effect(n, keep, old(src)@, old(dst)@, old(memory)@, input);
            &&& final(src)@ == effect.0
            &&& final(dst)@ == effect.1
            &&& n != 0x17 ==> final(memory)@ == effect.2
        }),
        *final(device) == *old(device),
{
    reveal(byte_effect);
    let o = Operands::peek_from(src);
    let mut input: u8 = 0;
    if n == 0x09 {
        src.adjust_for_keep(2, keep);
        src.push_u8(compare_flag(o.b != o.a));
    } else if n == 0x0a {
        src.adjust_for_keep(2, keep);
        src.push_u8(compare_flag(o.b > o.a));
    } else {
        src.adjust_for_keep(2, keep);
        src.push_u8(compare_flag(o.b < o.a));
    }
    input
}

fn execute_byte_0c_0f<D: VmDevice>(
    n: u8,
    keep: bool,
    src: &mut Stack,
    dst: &mut Stack,
    memory: &mut Memory,
    device: &mut D,
) -> (input: u8)
    requires
        0x0c <= n <= 0x0f,
    ensures
        ({
            let effect = byte_effect(n, keep, old(src)@, old(dst)@, old(memory)@, input);
            &&& final(src)@ == effect.0
            &&& final(dst)@ == effect.1
            &&& n != 0x17 ==> final(memory)@ == effect.2
        }),
        *final(device) == *old(device),
{
    reveal(byte_effect);
    let o = Operands::peek_from(src);
    let mut input: u8 = 0;
    if n == 0x0c {
        src.adjust_for_keep(1, keep);
        memory.jump_relative(byte_offset(o.a));
    } else if n == 0x0d {
        src.adjust_for_keep(2, keep);
        if o.b != 0 {
            memory.jump_relative(byte_offset(o.a));
        }
    } else if n == 0x0e {
        src.adjust_for_keep(1, keep);
        dst.push_u16(memory.pc());
        memory.jump_relative(byte_offset(o.a));
    } else {
        src.adjust_for_keep(1, keep);
        dst.push_u8(o.a);
    }
    input
}

fn execute_byte_10_13<D: VmDevice>(
    n: u8,
    keep: bool,
    src: &mut Stack,
    dst: &mut Stack,
    memory: &mut Memory,
    device: &mut D,
) -> (input: u8)
    requires
        0x10 <= n <= 0x13,
    ensures
        ({
            let effect = byte_effect(n, keep, old(src)@, old(dst)@, old(memory)@, input);
            &&& final(src)@ == effect.0
            &&& final(dst)@ == effect.1
            &&& n != 0x17 ==> final(memory)@ == effect.2
        }),
        *final(device) == *old(device),
{
    reveal(byte_effect);
    let o = Operands::peek_from(src);
    let mut input: u8 = 0;
    if n == 0x10 {
        src.adjust_for_keep(1, keep);
        src.push_u8(memory.read_u8_at(o.a as u16));
    } else if n == 0x11 {
        src.adjust_for_keep(2, keep);
        memory.write_u8_at(o.a as u16, o.b);
    } else if n == 0x12 {
        src.adjust_for_keep(1, keep);
        let address = offset_address(memory.pc(), byte_offset(o.a));
        src.push_u8(memory.read_u8_at(address));
    } else {
        src.adjust_for_keep(2, keep);
        let address = offset_address(memory.pc(), byte_offset(o.a));
        memory.write_u8_at(address, o.b);
    }
    input
}

fn execute_byte_14_17<D: VmDevice>(
    n: u8,
    keep: bool,
    src: &mut Stack,
    dst: &mut Stack,
    memory: &mut Memory,
    device: &mut D,
) -> (input: u8)
    requires
        0x14 <= n <= 0x17,
    ensures
        ({
            let effect = byte_effect(n, keep, old(src)@, old(dst)@, old(memory)@, input);
            &&& final(src)@ == effect.0
            &&& final(dst)@ == effect.1
            &&& n != 0x17 ==> final(memory)@ == effect.2
        }),
        n != 0x16 && n != 0x17 ==> *final(device) == *old(device),
        n == 0x16 ==> exists|d: &mut D| *d == *old(device) && *final(d) == *final(device)
            && call_ensures(D::input, (d, old(src)@.byte_at(0)), input),
        n == 0x17 ==> exists|d: &mut D, m: &mut Memory| {
            &&& *d == *old(device) && *final(d) == *final(device)
            &&& *m == *old(memory) && *final(m) == *final(memory)
            &&& call_ensures(D::output, (d, old(src)@.byte_at(0), old(src)@.byte_at(1), m), ())
        },
{
    reveal(byte_effect);
    let o = Operands::peek_from(src);
    let mut input: u8 = 0;
    if n == 0x14 {
        src.adjust_for_keep(2, keep);
        src.push_u8(memory.read_u8_at(o.a2));
    } else if n == 0x15 {
        src.adjust_for_keep(3, keep);
        memory.write_u8_at(o.a2, o.c);
    } else if n == 0x16 {
        src.adjust_for_keep(1, keep);
        let inner: &mut D = &mut *device;
        let read = D::input;
        input = read(inner, o.a);
        src.push_u8(input);
    } else {
        src.adjust_for_keep(2, keep);
        let inner: &mut D = &mut *device;
        let ram: &mut Memory = &mut *memory;
        let write = D::output;
        write(inner, o.a, o.b, ram);
    }
    input
}

fn execute_byte_18_1b<D: VmDevice>(
    n: u8,
    keep: bool,
    src: &mut Stack,
    dst: &mut Stack,
    memory: &mut Memory,
    device: &mut D,
) -> (input: u8)
    requires
        0x18 <= n <= 0x1b,
    ensures
        ({
            let effect = byte_effect(n, keep, old(src)@, old(dst)@, old(memory)@, input);
            &&& final(src)@ == effect.0
            &&& final(dst)@ == effect.1
            &&& n != 0x17 ==> final(memory)@ == effect.2
        }),
        *final(device) == *old(device),
{
    reveal(byte_effect);
    let o = Operands::peek_from(src);
    let mut input: u8 = 0;
    if n == 0x18 {
        src.adjust_for_keep(2, keep);
        src.push_u8(add8(o.b, o.a));
    } else if n == 0x19 {
        src.adjust_for_keep(2, keep);
        src.push_u8(sub8(o.b, o.a));
    } else if n == 0x1a {
        src.adjust_for_keep(2, keep);
        src.push_u8(mul8(o.b, o.a));
    } else {
        src.adjust_for_keep(2, keep);
        src.push_u8(if o.a != 0 { o.b / o.a } else { 0 });
    }
    input
}

fn execute_byte_1c_1f<D: VmDevice>(
    n: u8,
    keep: bool,
    src: &mut Stack,
    dst: &mut Stack,
    memory: &mut Memory,
    device: &mut D,
) -> (input: u8)
    requires
        0x1c <= n <= 0x1f,
    ensures
        ({
            let effect = byte_effect(n, keep, old(src)@, old(dst)@, old(memory)@, input);
            &&& final(src)@ == effect.0
            &&& final(dst)@ == effect.1
            &&& n != 0x17 ==> final(memory)@ == effect.2
        }),
        *final(device) == *old(device),
{
    reveal(byte_effect);
    let o = Operands::peek_from(src);
    let mut input: u8 = 0;
    if n == 0x1c {
        src.adjust_for_keep(2, keep);
        src.push_u8(o.b & o.a);
    } else if n == 0x1d {
        src.adjust_for_keep(2, keep);
        src.push_u8(o.b | o.a);
    } else if n == 0x1e {
        src.adjust_for_keep(2, keep);
        src.push_u8(o.b ^ o.a);
    } else {
        src.adjust_for_keep(2, keep);
        src.push_u8(shift_byte_exec(o.b, o.a));
    }
    input
}

/// Executes a byte-sized regular instruction `n` (0x01..=0x1f) on the
/// source stack `src`; returns the byte read from the device, if any.
fn execute_byte<D: VmDevice>(
    n: u8,
    keep: bool,
    src: &mut Stack,
    dst: &mut Stack,
    memory: &mut Memory,
    device: &mut D,
) -> (input: u8)
    requires
        0x01 <= n <= 0x1f,
    ensures
        ({
            let effect = byte_effect(n, keep, old(src)@, old(dst)@, old(memory)@, input);
            &&& final(src)@ == effect.0
            &&& final(dst)@ == effect.1
            &&& n != 0x17 ==> final(memory)@ == effect.2
        }),
        n != 0x16 && n != 0x17 ==> *final(device) == *old(device),
        n == 0x16 ==> exists|d: &mut D| *d == *old(device) && *final(d) == *final(device)
            && call_ensures(D::input, (d, old(src)@.byte_at(0)), input),
        n == 0x17 ==> exists|d: &mut D, m: &mut Memory| {
            &&& *d == *old(device) && *final(d) == *final(device)
            &&& *m == *old(memory) && *final(m) == *final(memory)
            &&& call_ensures(D::output, (d, old(src)@.byte_at(0), old(src)@.byte_at(1), m), ())
        },
{
    if n <= 0x04 {
        execute_byte_01_04(n, keep, src, dst, memory, device)
    } else if n <= 0x08 {
        execute_byte_05_08(n, keep, src, dst, memory, device)
    } else if n <= 0x0b {
        execute_byte_09_0b(n, keep, src, dst, memory, device)
    } else if n <= 0x0f {
        execute_byte_0c_0f(n, keep, src, dst, memory, device)
    } else if n <= 0x13 {
        execute_byte_10_13(n, keep, src, dst, memory, device)
    } else if n <= 0x17 {
        execute_byte_14_17(n, keep, src, dst, memory, device)
    } else if n <= 0x1b {
        execute_byte_18_1b(n, keep, src, dst, memory, device)
    } else {
        execute_byte_1c_1f(n, keep, src, dst, memory, device)
    }
}

fn execute_short_21_24<D: VmDevice>(
    n: u8,
    keep: bool,
    src: &mut Stack,
    dst: &mut Stack,
    memory: &mut Memory,
    device: &mut D,
) -> (inputs: (u8, u8))
    requires
        0x21 <= n <= 0x24,
    ensures
        ({
            let effect = short_effect(n, keep, old(src)@, old(dst)@, old(memory)@, inputs.0, inputs.1);
            &&& final(src)@ == effect.0
            &&& final(dst)@ == effect.1
            &&& n != 0x37 ==> final(memory)@ == effect.2
        }),
        *final(device) == *old(device),
{
    reveal(short_effect);
    let o = Operands::peek_from(src);
    let mut inputs: (u8, u8) = (0, 0);
    if n == 0x21 {
        src.adjust_for_keep(2, keep);
        src.push_u16(add16(o.a2, 1));
    } else if n == 0x22 {
        src.adjust_for_keep(2, keep);
    } else if n == 0x23 {
        src.adjust_for_keep(4, keep);
        src.push_u16(o.a2);
    } else {
        src.adjust_for_keep(4, keep);
        src.push_u16(o.a2);
        src.push_u16(o.b2);
    }
    inputs
}

fn execute_short_25_28<D: VmDevice>(
    n: u8,
    keep: bool,
    src: &mut Stack,
    dst: &mut Stack,
    memory: &mut Memory,
    device: &mut D,
) -> (inputs: (u8, u8))
    requires
        0x25 <= n <= 0x28,
    ensures
        ({
            let effect = short_effect(n, keep, old(src)@, old(dst)@, old(memory)@, inputs.0, inputs.1);
            &&& final(src)@ == effect.0
            &&& final(dst)@ == effect.1
            &&& n != 0x37 ==> final(memory)@ == effect.2
        }),
        *final(device) == *old(device),
{
    reveal(short_effect);
    let o = Operands::peek_from(src);
    let mut inputs: (u8, u8) = (0, 0);
    if n == 0x25 {
        src.adjust_for_keep(6, keep);
        src.push_u16(o.b2);
        src.push_u16(o.a2);
        src.push_u16(o.c2);
    } else if n == 0x26 {
        src.adjust_for_keep(2, keep);
        src.push_u16(o.a2);
        src.push_u16(o.a2);
    } else if n == 0x27 {
        src.adjust_for_keep(4, keep);
        src.push_u16(o.b2);
        src.push_u16(o.a2);
        src.push_u16(o.b2);
    } else {
        src.adjust_for_keep(4, keep);
        src.push_u8(compare_flag(o.b2 == o.a2));
    }
    inputs
}

fn execute_short_29_2b<D: VmDevice>(
    n: u8,
    keep: bool,
    src: &mut Stack,
    dst: &mut Stack,
    memory: &mut Memory,
    device: &mut D,
) -> (inputs: (u8, u8))
    requires
        0x29 <= n <= 0x2b,
    ensures
        ({
            let effect = short_effect(n, keep, old(src)@, old(dst)@, old(memory)@, inputs.0, inputs.1);
            &&& final(src)@ == effect.0
            &&& final(dst)@ == effect.1
            &&& n != 0x37 ==> final(memory)@ == effect.2
        }),
        *final(device) == *old(device),
{
    reveal(short_effect);
    let o = Operands::peek_from(src);
    let mut inputs: (u8, u8) = (0, 0);
    if n == 0x29 {
        src.adjust_for_keep(4, keep);
        src.push_u8(compare_flag(o.b2 != o.a2));
    } else if n == 0x2a {
        src.adjust_for_keep(4, keep);
        src.push_u8(compare_flag(o.b2 > o.a2));
    } else {
        src.adjust_for_keep(4, keep);
        src.push_u8(compare_flag(o.b2 < o.a2));
    }
    inputs
}

fn execute_short_2c_2f<D: VmDevice>(
    n: u8,
    keep: bool,
    src: &mut Stack,
    dst: &mut Stack,
    memory: &mut Memory,
    device: &mut D,
) -> (inputs: (u8, u8))
    requires
        0x2c <= n <= 0x2f,
    ensures
        ({
            let effect = short_effect(n, keep, old(src)@, old(dst)@, old(memory)@, inputs.0, inputs.1);
            &&& final(src)@ == effect.0
            &&& final(dst)@ == effect.1
            &&& n != 0x37 ==> final(memory)@ == effect.2
        }),
        *final(device) == *old(device),
{
    reveal(short_effect);
    let o = Operands::peek_from(src);
    let mut inputs: (u8, u8) = (0, 0);
    if n == 0x2c {
        src.adjust_for_keep(2, keep);
        memory.jump_absolute(o.a2);
    } else if n == 0x2d {
        src.adjust_for_keep(3, keep);
        if o.c != 0 {
            memory.jump_absolute(o.a2);
        }
    } else if n == 0x2e {
        src.adjust_for_keep(2, keep);
        dst.push_u16(memory.pc());
        memory.jump_absolute(o.a2);
    } else {
        src.adjust_for_keep(2, keep);
        dst.push_u16(o.a2);
    }
    inputs
}

fn execute_short_30_33<D: VmDevice>(
    n: u8,
    keep: bool,
    src: &mut Stack,
    dst: &mut Stack,
    memory: &mut Memory,
    device: &mut D,
) -> (inputs: (u8, u8))
    requires
        0x30 <= n <= 0x33,
    ensures
        ({
            let effect = short_effect(n, keep, old(src)@, old(dst)@, old(memory)@, inputs.0, inputs.1);
            &&& final(src)@ == effect.0
            &&& final(dst)@ == effect.1
            &&& n != 0x37 ==> final(memory)@ == effect.2
        }),
        *final(device) == *old(device),
{
    reveal(short_effect);
    let o = Operands::peek_from(src);
    let mut inputs: (u8, u8) = (0, 0);
    if n == 0x30 {
        src.adjust_for_keep(1, keep);
        let high = memory.read_u8_at(o.a as u16);
        let low = memory.read_u8_at(add8(o.a, 1) as u16);
        src.push_u8(high);
        src.push_u8(low);
    } else if n == 0x31 {
        src.adjust_for_keep(3, keep);
        memory.write_u8_at(o.a as u16, short_high(o.short_after_byte));
        memory.write_u8_at(add8(o.a, 1) as u16, short_low(o.short_after_byte));
    } else if n == 0x32 {
        src.adjust_for_keep(1, keep);
        let address = offset_address(memory.pc(), byte_offset(o.a));
        src.push_u16(memory.read_u16_at(address));
    } else {
        src.adjust_for_keep(3, keep);
        let address = offset_address(memory.pc(), byte_offset(o.a));
        memory.write_u16_at(address, o.short_after_byte);
    }
    inputs
}

fn execute_short_34_37<D: VmDevice>(
    n: u8,
    keep: bool,
    src: &mut Stack,
    dst: &mut Stack,
    memory: &mut Memory,
    device: &mut D,
) -> (inputs: (u8, u8))
    requires
        0x34 <= n <= 0x37,
    ensures
        ({
            let effect = short_effect(n, keep, old(src)@, old(dst)@, old(memory)@, inputs.0, inputs.1);
            &&& final(src)@ == effect.0
            &&& final(dst)@ == effect.1
            &&& n != 0x37 ==> final(memory)@ == effect.2
        }),
        n != 0x36 && n != 0x37 ==> *final(device) == *old(device),
        n == 0x36 ==> exists|d1: &mut D, d2: &mut D| {
            &&& *d1 == *old(device) && *final(d1) == *d2 && *final(d2) == *final(device)
            &&& call_ensures(D::input, (d1, old(src)@.byte_at(0)), inputs.0)
            &&& call_ensures(D::input, (d2, wrap_u8(old(src)@.byte_at(0) + 1)), inputs.1)
        },
        n == 0x37 ==> exists|d1: &mut D, m1: &mut Memory, d2: &mut D, m2: &mut Memory| {
            &&& *d1 == *old(device) && *final(d1) == *d2 && *final(d2) == *final(device)
            &&& *m1 == *old(memory) && *final(m1) == *m2 && *final(m2) == *final(memory)
            &&& call_ensures(D::output, (d1, old(src)@.byte_at(0), high_byte(old(src)@.short_at(1)), m1), ())
            &&& call_ensures(D::output, (d2, wrap_u8(old(src)@.byte_at(0) + 1), low_byte(old(src)@.short_at(1)), m2), ())
        },
{
    reveal(short_effect);
    let o = Operands::peek_from(src);
    let mut inputs: (u8, u8) = (0, 0);
    if n == 0x34 {
        src.adjust_for_keep(2, keep);
        src.push_u16(memory.read_u16_at(o.a2));
    } else if n == 0x35 {
        src.adjust_for_keep(4, keep);
        memory.write_u16_at(o.a2, o.b2);
    } else if n == 0x36 {
        src.adjust_for_keep(1, keep);
        let read = D::input;
        let first: &mut D = &mut *device;
        let high = read(first, o.a);
        let second: &mut D = &mut *device;
        let low = read(second, add8(o.a, 1));
        src.push_u8(high);
        src.push_u8(low);
        inputs = (high, low);
    } else {
        src.adjust_for_keep(3, keep);
        let write = D::output;
        let first: &mut D = &mut *device;
        let first_ram: &mut Memory = &mut *memory;
        write(first, o.a, short_high(o.short_after_byte), first_ram);
        let second: &mut D = &mut *device;
        let second_ram: &mut Memory = &mut *memory;
        write(second, add8(o.a, 1), short_low(o.short_after_byte), second_ram);
    }
    inputs
}

fn execute_short_38_3b<D: VmDevice>(
    n: u8,
    keep: bool,
    src: &mut Stack,
    dst: &mut Stack,
    memory: &mut Memory,
    device: &mut D,
) -> (inputs: (u8, u8))
    requires
        0x38 <= n <= 0x3b,
    ensures
        ({
            let effect = short_effect(n, keep, old(src)@, old(dst)@, old(memory)@, inputs.0, inputs.1);
            &&& final(src)@ == effect.0
            &&& final(dst)@ == effect.1
            &&& n != 0x37 ==> final(memory)@ == effect.2
        }),
        *final(device) == *old(device),
{
    reveal(short_effect);
    let o = Operands::peek_from(src);
    let mut inputs: (u8, u8) = (0, 0);
    if n == 0x38 {
        src.adjust_for_keep(4, keep);
        src.push_u16(add16(o.b2, o.a2));
    } else if n == 0x39 {
        src.adjust_for_keep(4, keep);
        src.push_u16(sub16(o.b2, o.a2));
    } else if n == 0x3a {
        src.adjust_for_keep(4, keep);
        src.push_u16(mul16(o.b2, o.a2));
    } else {
        src.adjust_for_keep(4, keep);
        src.push_u16(if o.a2 != 0 { o.b2 / o.a2 } else { 0 });
    }
    inputs
}

fn execute_short_3c_3f<D: VmDevice>(
    n: u8,
    keep: bool,
    src: &mut Stack,
    dst: &mut Stack,
    memory: &mut Memory,
    device: &mut D,
) -> (inputs: (u8, u8))
    requires
        0x3c <= n <= 0x3f,
    ensures
        ({
            let effect = short_effect(n, keep, old(src)@, old(dst)@, old(memory)@, inputs.0, inputs.1);
            &&& final(src)@ == effect.0
            &&& final(dst)@ == effect.1
            &&& n != 0x37 ==> final(memory)@ == effect.2
        }),
        *final(device) == *old(device),
{
    reveal(short_effect);
    let o = Operands::peek_from(src);
    let mut inputs: (u8, u8) = (0, 0);
    if n == 0x3c {
        src.adjust_for_keep(4, keep);
        src.push_u16(o.b2 & o.a2);
    } else if n == 0x3d {
        src.adjust_for_keep(4, keep);
        src.push_u16(o.b2 | o.a2);
    } else if n == 0x3e {
        src.adjust_for_keep(4, keep);
        src.push_u16(o.b2 ^ o.a2);
    } else {
        src.adjust_for_keep(3, keep);
        src.push_u16(shift_short_exec(o.short_after_byte, o.a));
    }
    inputs
}

/// Executes a short-sized regular instruction `n` (0x21..=0x3f) on the
/// source stack `src`; returns the bytes read from the device, if any.
fn execute_short<D: VmDevice>(
    n: u8,
    keep: bool,
    src: &mut Stack,
    dst: &mut Stack,
    memory: &mut Memory,
    device: &mut D,
) -> (inputs: (u8, u8))
    requires
        0x21 <= n <= 0x3f,
    ensures
        ({
            let effect = short_effect(n, keep, old(src)@, old(dst)@, old(memory)@, inputs.0, inputs.1);
            &&& final(src)@ == effect.0
            &&& final(dst)@ == effect.1
            &&& n != 0x37 ==> final(memory)@ == effect.2
        }),
        n != 0x36 && n != 0x37 ==> *final(device) == *old(device),
        n == 0x36 ==> exists|d1: &mut D, d2: &mut D| {
            &&& *d1 == *old(device) && *final(d1) == *d2 && *final(d2) == *final(device)
            &&& call_ensures(D::input, (d1, old(src)@.byte_at(0)), inputs.0)
            &&& call_ensures(D::input, (d2, wrap_u8(old(src)@.byte_at(0) + 1)), inputs.1)
        },
        n == 0x37 ==> exists|d1: &mut D, m1: &mut Memory, d2: &mut D, m2: &mut Memory| {
            &&& *d1 == *old(device) && *final(d1) == *d2 && *final(d2) == *final(device)
            &&& *m1 == *old(memory) && *final(m1) == *m2 && *final(m2) == *final(memory)
            &&& call_ensures(D::output, (d1, old(src)@.byte_at(0), high_byte(old(src)@.short_at(1)), m1), ())
            &&& call_ensures(D::output, (d2, wrap_u8(old(src)@.byte_at(0) + 1), low_byte(old(src)@.short_at(1)), m2), ())
        },
{
    if n <= 0x24 {
        execute_short_21_24(n, keep, src, dst, memory, device)
    } else if n <= 0x28 {
        execute_short_25_28(n, keep, src, dst, memory, device)
    } else if n <= 0x2b {
        execute_short_29_2b(n, keep, src, dst, memory, device)
    } else if n <= 0x2f {
        execute_short_2c_2f(n, keep, src, dst, memory, device)
    } else if n <= 0x33 {
        execute_short_30_33(n, keep, src, dst, memory, device)
    } else if n <= 0x37 {
        execute_short_34_37(n, keep, src, dst, memory, device)
    } else if n <= 0x3b {
        execute_short_38_3b(n, keep, src, dst, memory, device)
    } else {
        execute_short_3c_3f(n, keep, src, dst, memory, device)
    }
}


/// The largest number of instructions that one call of `run` executes.
pub const RUN_STEP_LIMIT: u64 = 0xffff_ffff_ffff_ffff;

/// An empty stack.
pub open spec fn fresh_stack() -> StackState {
    StackState { data: Seq::new(256, |i: int| 0u8), sp: 0 }
}

/// A fresh memory with `rom` loaded at the program start.
pub open spec fn fresh_memory(rom: Seq<u8>) -> MemoryState {
    MemoryState {
        pc: PROGRAM_START as u16,
        ram: seq_load(Seq::new(RAM_SIZE as nat, |i: int| 0u8), rom),
        expansion: Seq::new((EXPANSION_BANKS_COUNT * RAM_SIZE) as nat, |i: int| 0u8),
    }
}

/// Some bytes from the device make a step lead from `before` to `after`.
pub open spec fn steps_to(before: MachineState, after: MachineState) -> bool {
    exists|in1: u8, in2: u8| step_relation(before, after, in1, in2)
}

/// `trace` is a sequence of machine states in which each state follows
/// from the previous one by a step that did not halt, except possibly the last step.
pub open spec fn is_run(trace: Seq<MachineState>) -> bool {
    &&& trace.len() >= 1
    &&& forall|i: int| 0 <= i < trace.len() - 1 ==> steps_to(#[trigger] trace[i], trace[i + 1])
    &&& forall|i: int| 0 <= i < trace.len() - 2 ==> !halts_at(#[trigger] trace[i])
}

/// The opcode of the regular instruction numbered `code` (0x01 to 0x1f) with the short, return
/// and keep mode bits as given.
pub open spec fn instruction_opcode(code: u8, short: bool, ret: bool, keep: bool) -> u8 {
    code | (if short { 0x20u8 } else { 0u8 }) | (if ret { 0x40u8 } else { 0u8 }) | (if keep { 0x80u8 } else { 0u8 })
}

/// Whether the second value on a stack stands to the top value as comparison `code` asks:
/// EQU equal, NEQ different, GTH greater, LTH less.
pub open spec fn comparison_holds(code: u8, second: int, top: int) -> bool {
    if code == 0x08 {
        second == top
    } else if code == 0x09 {
        second != top
    } else if code == 0x0a {
        second > top
    } else {
        second < top
    }
}

/// The second and the top value of the stack holding `contents`: bytes, or in short mode
/// shorts whose high byte lies below their low byte.
pub open spec fn second_and_top(contents: Seq<u8>, short: bool) -> (int, int) {
    let n = contents.len() as int;
    if short {
        (contents[n - 4] as int * 256 + contents[n - 3] as int, contents[n - 2] as int * 256 + contents[n - 1] as int)
    } else {
        (contents[n - 2] as int, contents[n - 1] as int)
    }
}

proof fn lemma_byte_comparison_effect(n: u8, keep: bool, src: StackState, dst: StackState, memory: MemoryState, in1: u8)
    requires
        0x08 <= n <= 0x0b,
    ensures
        byte_effect(n, keep, src, dst, memory, in1) == (
            src.consume(2, keep).push8(flag(comparison_holds(n, src.byte_at(1) as int, src.byte_at(0) as int))),
            dst,
            memory,
        ),
{
    reveal(byte_effect);
}

proof fn lemma_short_comparison_effect(n: u8, keep: bool, src: StackState, dst: StackState, memory: MemoryState, in1: u8, in2: u8)
    requires
        0x28 <= n <= 0x2b,
    ensures
        short_effect(n, keep, src, dst, memory, in1, in2) == (
            src.consume(4, keep).push8(flag(comparison_holds((n - 0x20) as u8, src.short_at(2) as int, src.short_at(0) as int))),
            dst,
            memory,
        ),
{
    reveal(short_effect);
}

proof fn lemma_stack_operands(src: StackState, short: bool)
    requires
        src.wf(),
        src.sp >= (if short { 4int } else { 2int }),
    ensures
        second_and_top(src.contents(), short) == (if short {
            (src.short_at(2) as int, src.short_at(0) as int)
        } else {
            (src.byte_at(1) as int, src.byte_at(0) as int)
        }),
{
    let c = src.contents();
    let sp = src.sp as int;
    assert(src.byte_at(0) == c[sp - 1]);
    assert(src.byte_at(1) == c[sp - 2]);
    if short {
        assert(src.byte_at(2) == c[sp - 3]);
        assert(src.byte_at(3) == c[sp - 4]);
    }
}

proof fn lemma_consume_push_contents(src: StackState, width: int, keep: bool, f: u8)
    requires
        src.wf(),
        0 < width <= src.sp,
        keep ==> src.sp < 255,
    ensures
        src.consume(width, keep).push8(f).contents() == (if keep { src.contents() } else { src.contents().take(src.sp - width) }).push(f),
{
    assert(src.consume(width, keep).push8(f).contents() =~= (if keep { src.contents() } else { src.contents().take(src.sp - width) }).push(f));
}

proof fn lemma_regular_next_parts(s: MachineState, opcode: u8, in1: u8, in2: u8)
    requires
        opcode & 0x1f != 0,
        s.memory.read8(s.memory.pc) == opcode,
    ensures
        ({
            let m1 = s.memory.with_pc(s.memory.pc_plus(1));
            let n = opcode & 0x3f;
            let keep = is_keep_mode(opcode);
            let src = if is_return_mode(opcode) { s.rs } else { s.ws };
            let dst = if is_return_mode(opcode) { s.ws } else { s.rs };
            let effect = if n < 0x20 { byte_effect(n, keep, src, dst, m1, in1) } else { short_effect(n, keep, src, dst, m1, in1, in2) };
            let next = next_state(s, in1, in2);
            &&& (if is_return_mode(opcode) { next.rs } else { next.ws }) == effect.0
            &&& (if is_return_mode(opcode) { next.ws } else { next.rs }) == effect.1
            &&& next.memory == effect.2
        }),
{
    reveal(regular_next);
}

/// A comparison (EQU, NEQ, GTH, LTH, in byte or short mode, on either stack) takes its two
/// operands off the top of its stack (or leaves them, in keep mode) and pushes 1 when the
/// second stands to the top as the comparison asks, else 0; the other stack is untouched and
/// the program counter moves past the opcode.
#[verifier::spinoff_prover]
#[verifier::rlimit(40)]
pub proof fn lemma_comparison_pushes_flag(s: MachineState, code: u8, short: bool, ret: bool, keep: bool, in1: u8, in2: u8)
    requires
        0x08 <= code <= 0x0b,
        s.memory.read8(s.memory.pc) == instruction_opcode(code, short, ret, keep),
        s.ws.wf(),
        s.rs.wf(),
        (if ret { s.rs } else { s.ws }).sp >= (if short { 4int } else { 2int }),
        keep ==> (if ret { s.rs } else { s.ws }).sp < 255,
    ensures
        ({
            let src = if ret { s.rs } else { s.ws };
            let next = next_state(s, in1, in2);
            let after = if ret { next.rs } else { next.ws };
            let width = if short { 4int } else { 2int };
            let (second, top) = second_and_top(src.contents(), short);
            let rest = if keep { src.contents() } else { src.contents().take(src.sp - width) };
            &&& after.contents() == rest.push(if comparison_holds(code, second, top) { 1u8 } else { 0u8 })
            &&& (if ret { next.ws } else { next.rs }) == (if ret { s.ws } else { s.rs })
            &&& next.memory == s.memory.with_pc(s.memory.pc_plus(1))
        }),
{
    let opcode = instruction_opcode(code, short, ret, keep);
    assert(opcode & 0x1f == code && opcode & 0x3f == (if short { (code + 0x20) as u8 } else { code })
        && (opcode & 0x40 != 0) == ret && (opcode & 0x80 != 0) == keep) by (bit_vector)
        requires
            0x08 <= code <= 0x0b,
            opcode == code | (if short { 0x20u8 } else { 0u8 }) | (if ret { 0x40u8 } else { 0u8 }) | (if keep { 0x80u8 } else { 0u8 });
    let src = if ret { s.rs } else { s.ws };
    let dst = if ret { s.ws } else { s.rs };
    let m1 = s.memory.with_pc(s.memory.pc_plus(1));
    let width = if short { 4int } else { 2int };
    let (second, top) = second_and_top(src.contents(), short);
    let f = if comparison_holds(code, second, top) { 1u8 } else { 0u8 };
    lemma_stack_operands(src, short);
    if short {
        lemma_short_comparison_effect((code + 0x20) as u8, keep, src, dst, m1, in1, in2);
    } else {
        lemma_byte_comparison_effect(code, keep, src, dst, m1, in1);
    }
    assert(flag(comparison_holds(code, second, top)) == f);
    lemma_consume_push_contents(src, width, keep, f);
    lemma_regular_next_parts(s, instruction_opcode(code, short, ret, keep), in1, in2);
}

/// What arithmetic or logic instruction `code` (0x18 ADD, 0x19 SUB, 0x1a MUL, 0x1b DIV,
/// 0x1c AND, 0x1d ORA, 0x1e EOR) makes of the second and the top value of its stack, values
/// being bytes, or shorts in short mode, and results wrapping around their size; division by
/// zero gives zero.
pub open spec fn arithmetic_result(code: u8, second: int, top: int, short: bool) -> int {
    let modulus: int = if short { 65536 } else { 256 };
    if code == 0x18 {
        (second + top) % modulus
    } else if code == 0x19 {
        (second - top) % modulus
    } else if code == 0x1a {
        (second * top) % modulus
    } else if code == 0x1b {
        if top == 0 { 0 } else { second / top }
    } else if code == 0x1c {
        ((second as u16) & (top as u16)) as int
    } else if code == 0x1d {
        ((second as u16) | (top as u16)) as int
    } else {
        ((second as u16) ^ (top as u16)) as int
    }
}

/// The bytes a result is pushed as: one byte, or in short mode its high then its low byte.
pub open spec fn result_bytes(value: int, short: bool) -> Seq<u8> {
    if short { seq![(value / 256) as u8, (value % 256) as u8] } else { seq![value as u8] }
}

proof fn lemma_byte_arithmetic_effect(n: u8, keep: bool, src: StackState, dst: StackState, memory: MemoryState, in1: u8)
    requires
        0x18 <= n <= 0x1e,
    ensures
        byte_effect(n, keep, src, dst, memory, in1) == (
            src.consume(2, keep).push8(arithmetic_result(n, src.byte_at(1) as int, src.byte_at(0) as int, false) as u8),
            dst,
            memory,
        ),
{
    reveal(byte_effect);
    let a = src.byte_at(0);
    let b = src.byte_at(1);
    assert(((b as u16) & (a as u16)) as u8 == b & a && ((b as u16) | (a as u16)) as u8 == b | a
        && ((b as u16) ^ (a as u16)) as u8 == b ^ a) by (bit_vector);
    if n == 0x1a {
        assert(0 <= b * a <= 255 * 255) by (nonlinear_arith);
    }
}

proof fn lemma_short_arithmetic_effect(n: u8, keep: bool, src: StackState, dst: StackState, memory: MemoryState, in1: u8, in2: u8)
    requires
        0x38 <= n <= 0x3e,
    ensures
        short_effect(n, keep, src, dst, memory, in1, in2) == (
            src.consume(4, keep).push16(arithmetic_result((n - 0x20) as u8, src.short_at(2) as int, src.short_at(0) as int, true) as u16),
            dst,
            memory,
        ),
{
    reveal(short_effect);
    let a = src.short_at(0);
    let b = src.short_at(2);
    if n == 0x3a {
        assert(0 <= b * a <= 65535 * 65535) by (nonlinear_arith);
    }
    if n == 0x3b && a != 0 {
        assert(b / a <= b) by (nonlinear_arith) requires a > 0, b >= 0;
    }
}

proof fn lemma_consume_push16_contents(src: StackState, width: int, keep: bool, value: u16)
    requires
        src.wf(),
        2 <= width <= src.sp,
        keep ==> src.sp < 254,
    ensures
        src.consume(width, keep).push16(value).contents() == (if keep { src.contents() } else { src.contents().take(src.sp - width) })
            + seq![high_byte(value), low_byte(value)],
{
    let rest = if keep { src.contents() } else { src.contents().take(src.sp - width) };
    lemma_consume_push_contents(src, width, keep, high_byte(value));
    let first = src.consume(width, keep).push8(high_byte(value));
    assert(first.data.len() == 256);
    assert(first.sp == (if keep { src.sp as int } else { src.sp - width }) + 1);
    assert(first.sp < 255);
    assert(wrap_u8(first.sp + 1) == first.sp + 1);
    assert(first.push8(low_byte(value)).contents() =~= first.contents().push(low_byte(value)));
    assert(rest.push(high_byte(value)).push(low_byte(value)) =~= rest + seq![high_byte(value), low_byte(value)]);
}

/// An arithmetic or logic instruction (ADD, SUB, MUL, DIV, AND, ORA, EOR, in byte or short
/// mode, on either stack) takes its two operands off the top of its stack (or leaves them, in
/// keep mode) and pushes the result of the second and the top value as the instruction says;
/// the other stack is untouched and the program counter moves past the opcode.
#[verifier::spinoff_prover]
#[verifier::rlimit(40)]
pub proof fn lemma_arithmetic_pushes_result(s: MachineState, code: u8, short: bool, ret: bool, keep: bool, in1: u8, in2: u8)
    requires
        0x18 <= code <= 0x1e,
        s.memory.read8(s.memory.pc) == instruction_opcode(code, short, ret, keep),
        s.ws.wf(),
        s.rs.wf(),
        (if ret { s.rs } else { s.ws }).sp >= (if short { 4int } else { 2int }),
        keep ==> (if ret { s.rs } else { s.ws }).sp < (if short { 254int } else { 255int }),
    ensures
        ({
            let src = if ret { s.rs } else { s.ws };
            let next = next_state(s, in1, in2);
            let after = if ret { next.rs } else { next.ws };
            let width = if short { 4int } else { 2int };
            let (second, top) = second_and_top(src.contents(), short);
            let rest = if keep { src.contents() } else { src.contents().take(src.sp - width) };
            &&& after.contents() == rest + result_bytes(arithmetic_result(code, second, top, short), short)
            &&& (if ret { next.ws } else { next.rs }) == (if ret { s.ws } else { s.rs })
            &&& next.memory == s.memory.with_pc(s.memory.pc_plus(1))
        }),
{
    let opcode = instruction_opcode(code, short, ret, keep);
    assert(opcode & 0x1f == code && opcode & 0x3f == (if short { (code + 0x20) as u8 } else { code })
        && (opcode & 0x40 != 0) == ret && (opcode & 0x80 != 0) == keep) by (bit_vector)
        requires
            0x18 <= code <= 0x1e,
            opcode == code | (if short { 0x20u8 } else { 0u8 }) | (if ret { 0x40u8 } else { 0u8 }) | (if keep { 0x80u8 } else { 0u8 });
    let src = if ret { s.rs } else { s.ws };
    let dst = if ret { s.ws } else { s.rs };
    let m1 = s.memory.with_pc(s.memory.pc_plus(1));
    let width = if short { 4int } else { 2int };
    let (second, top) = second_and_top(src.contents(), short);
    let value = arithmetic_result(code, second, top, short);
    lemma_stack_operands(src, short);
    if short {
        lemma_short_arithmetic_effect((code + 0x20) as u8, keep, src, dst, m1, in1, in2);
        assert(0 <= value < 65536);
        lemma_consume_push16_contents(src, width, keep, value as u16);
        assert(result_bytes(value, short) =~= seq![high_byte(value as u16), low_byte(value as u16)]);
    } else {
        lemma_byte_arithmetic_effect(code, keep, src, dst, m1, in1);
        lemma_consume_push_contents(src, width, keep, value as u8);
        assert(result_bytes(value, short) =~= seq![value as u8]);
    }
    lemma_regular_next_parts(s, opcode, in1, in2);
}

/// How many bytes stack instruction `code` (0x01 INC, 0x02 POP, 0x03 NIP, 0x04 SWP, 0x05 ROT,
/// 0x06 DUP, 0x07 OVR) takes off the top of its stack.
pub open spec fn stack_arity(code: u8) -> int {
    if code == 0x01 || code == 0x02 || code == 0x06 {
        1
    } else if code == 0x05 {
        3
    } else {
        2
    }
}

/// The byte `i` places below the top of a stack holding `contents`, 0 if there is none.
pub open spec fn top_byte(contents: Seq<u8>, i: int) -> u8 {
    if 0 <= i < contents.len() { contents[contents.len() - 1 - i] } else { 0 }
}

/// What stack instruction `code` puts back on a stack whose top bytes are `third`, `second`,
/// `top` (the top last): INC the top plus one, POP nothing, NIP the top, SWP the two swapped,
/// ROT the third moved to the top, DUP the top twice, OVR the second copied over the top.
pub open spec fn stack_result(code: u8, third: u8, second: u8, top: u8) -> Seq<u8> {
    if code == 0x01 {
        seq![((top as int + 1) % 256) as u8]
    } else if code == 0x02 {
        seq![]
    } else if code == 0x03 {
        seq![top]
    } else if code == 0x04 {
        seq![top, second]
    } else if code == 0x05 {
        seq![second, top, third]
    } else if code == 0x06 {
        seq![top, top]
    } else {
        seq![second, top, second]
    }
}

proof fn lemma_push_contents(st: StackState, x: u8)
    requires
        st.wf(),
        st.sp < 255,
    ensures
        st.push8(x).wf(),
        st.push8(x).sp == st.sp + 1,
        st.push8(x).contents() == st.contents().push(x),
{
    assert(st.push8(x).contents() =~= st.contents().push(x));
}

proof fn lemma_consume_contents(st: StackState, width: int, keep: bool)
    requires
        st.wf(),
        0 <= width <= st.sp,
    ensures
        st.consume(width, keep).wf(),
        st.consume(width, keep).sp == if keep { st.sp as int } else { st.sp - width },
        st.consume(width, keep).contents() == if keep { st.contents() } else { st.contents().take(st.sp - width) },
{
    assert(st.consume(width, keep).contents() =~= if keep { st.contents() } else { st.contents().take(st.sp - width) });
}

proof fn lemma_byte_stack_effect(n: u8, keep: bool, src: StackState, dst: StackState, memory: MemoryState, in1: u8)
    requires
        0x01 <= n <= 0x07,
        src.wf(),
        src.sp >= stack_arity(n),
        (if keep { src.sp as int } else { src.sp - stack_arity(n) }) + stack_result(n, src.byte_at(2), src.byte_at(1), src.byte_at(0)).len() <= 255,
    ensures
        byte_effect(n, keep, src, dst, memory, in1).1 == dst,
        byte_effect(n, keep, src, dst, memory, in1).2 == memory,
        byte_effect(n, keep, src, dst, memory, in1).0.contents()
            == (if keep { src.contents() } else { src.contents().take(src.sp - stack_arity(n)) })
                + stack_result(n, src.byte_at(2), src.byte_at(1), src.byte_at(0)),
{
    reveal(byte_effect);
    let a = src.byte_at(0);
    let b = src.byte_at(1);
    let c = src.byte_at(2);
    let base = src.consume(stack_arity(n), keep);
    lemma_consume_contents(src, stack_arity(n), keep);
    let rest = base.contents();
    if n == 0x01 {
        lemma_push_contents(base, wrap_u8(a + 1));
        assert(rest.push(wrap_u8(a + 1)) =~= rest + stack_result(n, c, b, a));
    } else if n == 0x02 {
        assert(rest =~= rest + stack_result(n, c, b, a));
    } else if n == 0x03 {
        lemma_push_contents(base, a);
        assert(rest.push(a) =~= rest + stack_result(n, c, b, a));
    } else if n == 0x04 {
        lemma_push_contents(base, a);
        lemma_push_contents(base.push8(a), b);
        assert(rest.push(a).push(b) =~= rest + stack_result(n, c, b, a));
    } else if n == 0x05 {
        lemma_push_contents(base, b);
        lemma_push_contents(base.push8(b), a);
        lemma_push_contents(base.push8(b).push8(a), c);
        assert(rest.push(b).push(a).push(c) =~= rest + stack_result(n, c, b, a));
    } else if n == 0x06 {
        lemma_push_contents(base, a);
        lemma_push_contents(base.push8(a), a);
        assert(rest.push(a).push(a) =~= rest + stack_result(n, c, b, a));
    } else {
        lemma_push_contents(base, b);
        lemma_push_contents(base.push8(b), a);
        lemma_push_contents(base.push8(b).push8(a), b);
        assert(rest.push(b).push(a).push(b) =~= rest + stack_result(n, c, b, a));
    }
}

/// A byte-mode stack instruction (INC, POP, NIP, SWP, ROT, DUP, OVR, on either stack) takes its
/// bytes off the top of its stack (or leaves them, in keep mode) and puts back what the
/// instruction says of them; the other stack is untouched and the program counter moves past
/// the opcode.
#[verifier::spinoff_prover]
#[verifier::rlimit(40)]
pub proof fn lemma_stack_instruction(s: MachineState, code: u8, ret: bool, keep: bool, in1: u8, in2: u8)
    requires
        0x01 <= code <= 0x07,
        s.memory.read8(s.memory.pc) == instruction_opcode(code, false, ret, keep),
        s.ws.wf(),
        s.rs.wf(),
        (if ret { s.rs } else { s.ws }).sp >= stack_arity(code),
        (if ret { s.rs } else { s.ws }).sp <= 252,
    ensures
        ({
            let src = if ret { s.rs } else { s.ws };
            let next = next_state(s, in1, in2);
            let after = if ret { next.rs } else { next.ws };
            let c = src.contents();
            let n = c.len() as int;
            let rest = if keep { c } else { c.take(n - stack_arity(code)) };
            &&& after.contents() == rest + stack_result(code, top_byte(c, 2), top_byte(c, 1), top_byte(c, 0))
            &&& (if ret { next.ws } else { next.rs }) == (if ret { s.ws } else { s.rs })
            &&& next.memory == s.memory.with_pc(s.memory.pc_plus(1))
        }),
{
    let opcode = instruction_opcode(code, false, ret, keep);
    assert(opcode & 0x1f == code && opcode & 0x3f == code
        && (opcode & 0x40 != 0) == ret && (opcode & 0x80 != 0) == keep) by (bit_vector)
        requires
            0x01 <= code <= 0x07,
            opcode == code | 0u8 | (if ret { 0x40u8 } else { 0u8 }) | (if keep { 0x80u8 } else { 0u8 });
    let src = if ret { s.rs } else { s.ws };
    let dst = if ret { s.ws } else { s.rs };
    let m1 = s.memory.with_pc(s.memory.pc_plus(1));
    let c = src.contents();
    let sp = src.sp as int;
    assert(src.byte_at(0) == top_byte(c, 0));
    if sp >= 2 {
        assert(src.byte_at(1) == top_byte(c, 1));
    }
    if sp >= 3 {
        assert(src.byte_at(2) == top_byte(c, 2));
    }
    lemma_byte_stack_effect(code, keep, src, dst, m1, in1);
    lemma_regular_next_parts(s, opcode, in1, in2);
}

/// How many bytes jump instruction `code` (0x0c JMP, 0x0d JCN, 0x0e JSR) takes off its stack:
/// the target (a byte, or a short in short mode), and for JCN the condition byte below it.
pub open spec fn jump_arity(code: u8, short: bool) -> int {
    (if short { 2int } else { 1int }) + if code == 0x0d { 1int } else { 0int }
}

/// Where a jump instruction at `pc` whose stack holds `contents` goes when it jumps: in byte mode
/// relative to the address after the opcode, by the top byte read as a signed number; in short
/// mode to the top short.
pub open spec fn jump_destination(pc: u16, contents: Seq<u8>, short: bool) -> u16 {
    let top = top_byte(contents, 0) as int;
    if short {
        (top_byte(contents, 1) as int * 256 + top) as u16
    } else {
        ((pc as int + 1 + if top < 128 { top } else { top - 256 }) % 65536) as u16
    }
}

proof fn lemma_byte_jump_effect(n: u8, keep: bool, src: StackState, dst: StackState, memory: MemoryState, in1: u8)
    requires
        0x0c <= n <= 0x0e,
    ensures
        byte_effect(n, keep, src, dst, memory, in1) == (
            src.consume(if n == 0x0d { 2int } else { 1int }, keep),
            if n == 0x0e { dst.push16(memory.pc) } else { dst },
            if n != 0x0d || src.byte_at(1) != 0 { memory.with_pc(memory.pc_plus(signed8(src.byte_at(0)))) } else { memory },
        ),
{
    reveal(byte_effect);
}

proof fn lemma_short_jump_effect(n: u8, keep: bool, src: StackState, dst: StackState, memory: MemoryState, in1: u8, in2: u8)
    requires
        0x2c <= n <= 0x2e,
    ensures
        short_effect(n, keep, src, dst, memory, in1, in2) == (
            src.consume(if n == 0x2d { 3int } else { 2int }, keep),
            if n == 0x2e { dst.push16(memory.pc) } else { dst },
            if n != 0x2d || src.byte_at(2) != 0 { memory.with_pc(src.short_at(0)) } else { memory },
        ),
{
    reveal(short_effect);
}

/// A jump (JMP, JCN, JSR, in byte or short mode, on either stack) takes its target, and for JCN
/// the condition below it, off its stack (or leaves them, in keep mode); it jumps, except for a
/// JCN whose condition is zero, which goes on with the next instruction. A byte target is
/// relative to the address after the opcode and signed, a short target absolute. JSR also
/// pushes the address after the opcode, high byte first, onto the other stack; nothing else
/// changes.
#[verifier::spinoff_prover]
#[verifier::rlimit(40)]
pub proof fn lemma_jump_instruction(s: MachineState, code: u8, short: bool, ret: bool, keep: bool, in1: u8, in2: u8)
    requires
        0x0c <= code <= 0x0e,
        s.memory.read8(s.memory.pc) == instruction_opcode(code, short, ret, keep),
        s.ws.wf(),
        s.rs.wf(),
        (if ret { s.rs } else { s.ws }).sp >= jump_arity(code, short),
        code == 0x0e ==> (if ret { s.ws } else { s.rs }).sp < 254,
    ensures
        ({
            let src = if ret { s.rs } else { s.ws };
            let dst = if ret { s.ws } else { s.rs };
            let next = next_state(s, in1, in2);
            let c = src.contents();
            let after_opcode = ((s.memory.pc + 1) % 65536) as u16;
            let taken = code != 0x0d || top_byte(c, if short { 2 } else { 1 }) != 0;
            &&& (if ret { next.rs } else { next.ws }).contents() == if keep { c } else { c.take(c.len() - jump_arity(code, short)) }
            &&& (if ret { next.ws } else { next.rs }).contents() == if code == 0x0e {
                dst.contents() + seq![(after_opcode / 256) as u8, (after_opcode % 256) as u8]
            } else {
                dst.contents()
            }
            &&& code != 0x0e ==> (if ret { next.ws } else { next.rs }) == dst
            &&& next.memory == s.memory.with_pc(if taken { jump_destination(s.memory.pc, c, short) } else { after_opcode })
        }),
{
    let opcode = instruction_opcode(code, short, ret, keep);
    assert(opcode & 0x1f == code && opcode & 0x3f == (if short { (code + 0x20) as u8 } else { code })
        && (opcode & 0x40 != 0) == ret && (opcode & 0x80 != 0) == keep) by (bit_vector)
        requires
            0x0c <= code <= 0x0e,
            opcode == code | (if short { 0x20u8 } else { 0u8 }) | (if ret { 0x40u8 } else { 0u8 }) | (if keep { 0x80u8 } else { 0u8 });
    let src = if ret { s.rs } else { s.ws };
    let dst = if ret { s.ws } else { s.rs };
    let m1 = s.memory.with_pc(s.memory.pc_plus(1));
    let c = src.contents();
    let sp = src.sp as int;
    assert(src.byte_at(0) == top_byte(c, 0));
    if sp >= 2 {
        assert(src.byte_at(1) == top_byte(c, 1));
    }
    if sp >= 3 {
        assert(src.byte_at(2) == top_byte(c, 2));
    }
    lemma_consume_contents(src, jump_arity(code, short), keep);
    if code == 0x0e {
        lemma_push_contents(dst, high_byte(m1.pc));
        lemma_push_contents(dst.push8(high_byte(m1.pc)), low_byte(m1.pc));
        assert(dst.contents().push(high_byte(m1.pc)).push(low_byte(m1.pc)) =~= dst.contents() + seq![high_byte(m1.pc), low_byte(m1.pc)]);
    }
    if short {
        lemma_short_jump_effect((code + 0x20) as u8, keep, src, dst, m1, in1, in2);
    } else {
        lemma_byte_jump_effect(code, keep, src, dst, m1, in1);
        assert(m1.pc_plus(signed8(src.byte_at(0))) == jump_destination(s.memory.pc, c, short));
    }
    lemma_regular_next_parts(s, opcode, in1, in2);
}

/// A literal (LIT, LIT2, LITr, LIT2r) pushes the byte, or the two bytes, that follow its opcode
/// in memory onto the working stack (the return stack for LITr and LIT2r), in memory order, and
/// the program counter moves past them; nothing else changes.
#[verifier::spinoff_prover]
#[verifier::rlimit(40)]
pub proof fn lemma_literal_instruction(s: MachineState, short: bool, ret: bool, in1: u8, in2: u8)
    requires
        s.memory.read8(s.memory.pc) == 0x80u8 | (if short { 0x20u8 } else { 0u8 }) | (if ret { 0x40u8 } else { 0u8 }),
        s.memory.ram.len() == 65536,
        s.ws.wf(),
        s.rs.wf(),
        (if ret { s.rs } else { s.ws }).sp < 254,
    ensures
        ({
            let stack = if ret { s.rs } else { s.ws };
            let next = next_state(s, in1, in2);
            let pc = s.memory.pc as int;
            let first = s.memory.ram[(pc + 1) % 65536];
            let second = s.memory.ram[(pc + 2) % 65536];
            &&& (if ret { next.rs } else { next.ws }).contents() == if short {
                stack.contents() + seq![first, second]
            } else {
                stack.contents().push(first)
            }
            &&& (if ret { next.ws } else { next.rs }) == (if ret { s.ws } else { s.rs })
            &&& next.memory == s.memory.with_pc(((pc + if short { 3int } else { 2int }) % 65536) as u16)
        }),
{
    let opcode = s.memory.read8(s.memory.pc);
    assert(opcode & 0x1f == 0 && (opcode == 0x80 <==> !short && !ret) && (opcode == 0xa0 <==> short && !ret)
        && (opcode == 0xc0 <==> !short && ret) && (opcode == 0xe0 <==> short && ret)) by (bit_vector)
        requires
            opcode == 0x80u8 | (if short { 0x20u8 } else { 0u8 }) | (if ret { 0x40u8 } else { 0u8 });
    reveal(immediate_next);
    let stack = if ret { s.rs } else { s.ws };
    let m1 = s.memory.with_pc(s.memory.pc_plus(1));
    let first = m1.read8(m1.pc);
    let second = m1.ram[((m1.pc + 1) % 65536) as int];
    lemma_push_contents(stack, first);
    if short {
        assert(high_byte(m1.read16(m1.pc)) == first && low_byte(m1.read16(m1.pc)) == second);
        lemma_push_contents(stack.push8(first), second);
        assert(stack.contents().push(first).push(second) =~= stack.contents() + seq![first, second]);
    }
}

/// How many bytes memory instruction `code` (0x10 LDZ, 0x11 STZ, 0x14 LDA, 0x15 STA) takes off
/// its stack in byte mode: the address (a zero-page byte, or a short), and for a store the byte
/// below it.
pub open spec fn memory_arity(code: u8) -> int {
    if code == 0x10 { 1 } else if code == 0x11 || code == 0x14 { 2 } else { 3 }
}

/// The address a memory instruction names: the top byte (zero page) or the top short.
pub open spec fn memory_address(code: u8, contents: Seq<u8>) -> int {
    if code == 0x10 || code == 0x11 {
        top_byte(contents, 0) as int
    } else {
        top_byte(contents, 1) as int * 256 + top_byte(contents, 0) as int
    }
}

proof fn lemma_byte_memory_effect(n: u8, keep: bool, src: StackState, dst: StackState, memory: MemoryState, in1: u8)
    requires
        n == 0x10 || n == 0x11 || n == 0x14 || n == 0x15,
    ensures
        byte_effect(n, keep, src, dst, memory, in1) == (
            if n == 0x10 {
                src.consume(1, keep).push8(memory.read8(src.byte_at(0) as u16))
            } else if n == 0x14 {
                src.consume(2, keep).push8(memory.read8(src.short_at(0)))
            } else {
                src.consume(memory_arity(n), keep)
            },
            dst,
            if n == 0x11 {
                memory.write8(src.byte_at(0) as u16, src.byte_at(1))
            } else if n == 0x15 {
                memory.write8(src.short_at(0), src.byte_at(2))
            } else {
                memory
            },
        ),
{
    reveal(byte_effect);
}

/// A byte-mode load (LDZ from the zero page, LDA from an absolute address) takes the address off
/// its stack (or leaves it, in keep mode) and pushes the byte memory holds there; a store (STZ,
/// STA) takes the address and the byte below it and writes that byte at the address. The other
/// stack is untouched, and the program counter moves past the opcode.
#[verifier::spinoff_prover]
#[verifier::rlimit(40)]
pub proof fn lemma_memory_instruction(s: MachineState, code: u8, ret: bool, keep: bool, in1: u8, in2: u8)
    requires
        code == 0x10 || code == 0x11 || code == 0x14 || code == 0x15,
        s.memory.read8(s.memory.pc) == instruction_opcode(code, false, ret, keep),
        s.memory.ram.len() == 65536,
        s.ws.wf(),
        s.rs.wf(),
        (if ret { s.rs } else { s.ws }).sp >= memory_arity(code),
        (if ret { s.rs } else { s.ws }).sp < 255,
    ensures
        ({
            let src = if ret { s.rs } else { s.ws };
            let next = next_state(s, in1, in2);
            let c = src.contents();
            let rest = if keep { c } else { c.take(c.len() - memory_arity(code)) };
            let address = memory_address(code, c);
            let after_opcode = ((s.memory.pc + 1) % 65536) as u16;
            &&& (if ret { next.rs } else { next.ws }).contents() == if code == 0x10 || code == 0x14 {
                rest.push(s.memory.ram[address])
            } else {
                rest
            }
            &&& (if ret { next.ws } else { next.rs }) == (if ret { s.ws } else { s.rs })
            &&& next.memory.pc == after_opcode
            &&& next.memory.expansion == s.memory.expansion
            &&& next.memory.ram == if code == 0x11 || code == 0x15 {
                s.memory.ram.update(address, top_byte(c, memory_arity(code) - 1))
            } else {
                s.memory.ram
            }
        }),
{
    let opcode = instruction_opcode(code, false, ret, keep);
    assert(opcode & 0x1f == code && opcode & 0x3f == code
        && (opcode & 0x40 != 0) == ret && (opcode & 0x80 != 0) == keep) by (bit_vector)
        requires
            code == 0x10 || code == 0x11 || code == 0x14 || code == 0x15,
            opcode == code | 0u8 | (if ret { 0x40u8 } else { 0u8 }) | (if keep { 0x80u8 } else { 0u8 });
    let src = if ret { s.rs } else { s.ws };
    let dst = if ret { s.ws } else { s.rs };
    let m1 = s.memory.with_pc(s.memory.pc_plus(1));
    let c = src.contents();
    let sp = src.sp as int;
    assert(src.byte_at(0) == top_byte(c, 0));
    if sp >= 2 {
        assert(src.byte_at(1) == top_byte(c, 1));
    }
    if sp >= 3 {
        assert(src.byte_at(2) == top_byte(c, 2));
    }
    lemma_consume_contents(src, memory_arity(code), keep);
    lemma_byte_memory_effect(code, keep, src, dst, m1, in1);
    let base = src.consume(memory_arity(code), keep);
    if code == 0x10 {
        lemma_push_contents(base, m1.read8(src.byte_at(0) as u16));
    } else if code == 0x14 {
        lemma_push_contents(base, m1.read8(src.short_at(0)));
    }
    lemma_regular_next_parts(s, opcode, in1, in2);
}

/// The short `i` places below the top of a stack holding `contents`, as its two bytes (high
/// byte first).
pub open spec fn top_unit(contents: Seq<u8>, i: int) -> Seq<u8> {
    seq![top_byte(contents, 2 * i + 1), top_byte(contents, 2 * i)]
}

/// What short-mode stack instruction `code` (0x01 INC2 ... 0x07 OVR2, as numbered in byte mode)
/// puts back on a stack holding `contents`, shorts taken whole: INC2 the top short plus one,
/// POP2 nothing, NIP2 the top, SWP2 the two swapped, ROT2 the third moved to the top, DUP2 the
/// top twice, OVR2 the second copied over the top.
pub open spec fn short_stack_result(code: u8, contents: Seq<u8>) -> Seq<u8> {
    let top = top_unit(contents, 0);
    let second = top_unit(contents, 1);
    let third = top_unit(contents, 2);
    if code == 0x01 {
        let value = (top_byte(contents, 1) as int * 256 + top_byte(contents, 0) as int + 1) % 65536;
        seq![(value / 256) as u8, (value % 256) as u8]
    } else if code == 0x02 {
        seq![]
    } else if code == 0x03 {
        top
    } else if code == 0x04 {
        top + second
    } else if code == 0x05 {
        second + top + third
    } else if code == 0x06 {
        top + top
    } else {
        second + top + second
    }
}

proof fn lemma_push16_contents(st: StackState, value: u16)
    requires
        st.wf(),
        st.sp < 254,
    ensures
        st.push16(value).wf(),
        st.push16(value).sp == st.sp + 2,
        st.push16(value).contents() == st.contents() + seq![high_byte(value), low_byte(value)],
{
    lemma_push_contents(st, high_byte(value));
    lemma_push_contents(st.push8(high_byte(value)), low_byte(value));
    assert(st.contents().push(high_byte(value)).push(low_byte(value)) =~= st.contents() + seq![high_byte(value), low_byte(value)]);
}

/// The stack a short-mode stack instruction `n` (0x21 to 0x27) leaves.
spec fn short_stack_shape(n: u8, keep: bool, src: StackState) -> StackState {
    let a2 = src.short_at(0);
    let b2 = src.short_at(2);
    let c2 = src.short_at(4);
    if n == 0x21 {
        src.consume(2, keep).push16(wrap_u16(a2 + 1))
    } else if n == 0x22 {
        src.consume(2, keep)
    } else if n == 0x23 {
        src.consume(4, keep).push16(a2)
    } else if n == 0x24 {
        src.consume(4, keep).push16(a2).push16(b2)
    } else if n == 0x25 {
        src.consume(6, keep).push16(b2).push16(a2).push16(c2)
    } else if n == 0x26 {
        src.consume(2, keep).push16(a2).push16(a2)
    } else {
        src.consume(4, keep).push16(b2).push16(a2).push16(b2)
    }
}

proof fn lemma_short_stack_shape(n: u8, keep: bool, src: StackState, dst: StackState, memory: MemoryState, in1: u8, in2: u8)
    requires
        0x21 <= n <= 0x27,
    ensures
        short_effect(n, keep, src, dst, memory, in1, in2) == (short_stack_shape(n, keep, src), dst, memory),
{
    reveal(short_effect);
}

#[verifier::spinoff_prover]
#[verifier::rlimit(40)]
proof fn lemma_short_stack_effect(n: u8, keep: bool, src: StackState, dst: StackState, memory: MemoryState, in1: u8, in2: u8)
    requires
        0x21 <= n <= 0x27,
        src.wf(),
        src.sp >= 2 * stack_arity((n - 0x20) as u8),
        src.sp <= 248,
    ensures
        short_effect(n, keep, src, dst, memory, in1, in2).1 == dst,
        short_effect(n, keep, src, dst, memory, in1, in2).2 == memory,
        short_effect(n, keep, src, dst, memory, in1, in2).0.contents()
            == (if keep { src.contents() } else { src.contents().take(src.sp - 2 * stack_arity((n - 0x20) as u8)) })
                + short_stack_result((n - 0x20) as u8, src.contents()),
{
    lemma_short_stack_shape(n, keep, src, dst, memory, in1, in2);
    let code = (n - 0x20) as u8;
    let c = src.contents();
    let sp = src.sp as int;
    let width = 2 * stack_arity(code);
    let base = src.consume(width, keep);
    lemma_consume_contents(src, width, keep);
    let rest = base.contents();
    let a2 = src.short_at(0);
    let b2 = src.short_at(2);
    let c2 = src.short_at(4);
    assert(src.byte_at(0) == top_byte(c, 0));
    assert(src.byte_at(1) == top_byte(c, 1));
    assert(top_unit(c, 0) == seq![high_byte(a2), low_byte(a2)]);
    if sp >= 4 {
        assert(src.byte_at(2) == top_byte(c, 2));
        assert(src.byte_at(3) == top_byte(c, 3));
        assert(top_unit(c, 1) == seq![high_byte(b2), low_byte(b2)]);
    }
    if sp >= 6 {
        assert(src.byte_at(4) == top_byte(c, 4));
        assert(src.byte_at(5) == top_byte(c, 5));
        assert(top_unit(c, 2) == seq![high_byte(c2), low_byte(c2)]);
    }
    if code == 0x01 {
        lemma_push16_contents(base, wrap_u16(a2 + 1));
        assert(rest + seq![high_byte(wrap_u16(a2 + 1)), low_byte(wrap_u16(a2 + 1))] =~= rest + short_stack_result(code, c));
    } else if code == 0x02 {
        assert(rest =~= rest + short_stack_result(code, c));
    } else if code == 0x03 {
        lemma_push16_contents(base, a2);
        assert(rest + top_unit(c, 0) =~= rest + short_stack_result(code, c));
    } else if code == 0x04 {
        lemma_push16_contents(base, a2);
        lemma_push16_contents(base.push16(a2), b2);
        assert(rest + top_unit(c, 0) + top_unit(c, 1) =~= rest + short_stack_result(code, c));
    } else if code == 0x05 {
        lemma_push16_contents(base, b2);
        lemma_push16_contents(base.push16(b2), a2);
        lemma_push16_contents(base.push16(b2).push16(a2), c2);
        assert(rest + top_unit(c, 1) + top_unit(c, 0) + top_unit(c, 2) =~= rest + short_stack_result(code, c));
    } else if code == 0x06 {
        lemma_push16_contents(base, a2);
        lemma_push16_contents(base.push16(a2), a2);
        assert(rest + top_unit(c, 0) + top_unit(c, 0) =~= rest + short_stack_result(code, c));
    } else {
        lemma_push16_contents(base, b2);
        lemma_push16_contents(base.push16(b2), a2);
        lemma_push16_contents(base.push16(b2).push16(a2), b2);
        assert(rest + top_unit(c, 1) + top_unit(c, 0) + top_unit(c, 1) =~= rest + short_stack_result(code, c));
    }
}

/// A short-mode stack instruction (INC2, POP2, NIP2, SWP2, ROT2, DUP2, OVR2, on either stack)
/// takes its shorts off the top of its stack (or leaves them, in keep mode) and puts back what
/// the instruction says of them, each short whole; the other stack is untouched and the program
/// counter moves past the opcode.
#[verifier::spinoff_prover]
#[verifier::rlimit(40)]
pub proof fn lemma_short_stack_instruction(s: MachineState, code: u8, ret: bool, keep: bool, in1: u8, in2: u8)
    requires
        0x01 <= code <= 0x07,
        s.memory.read8(s.memory.pc) == instruction_opcode(code, true, ret, keep),
        s.ws.wf(),
        s.rs.wf(),
        (if ret { s.rs } else { s.ws }).sp >= 2 * stack_arity(code),
        (if ret { s.rs } else { s.ws }).sp <= 248,
    ensures
        ({
            let src = if ret { s.rs } else { s.ws };
            let next = next_state(s, in1, in2);
            let c = src.contents();
            let rest = if keep { c } else { c.take(c.len() - 2 * stack_arity(code)) };
            &&& (if ret { next.rs } else { next.ws }).contents() == rest + short_stack_result(code, c)
            &&& (if ret { next.ws } else { next.rs }) == (if ret { s.ws } else { s.rs })
            &&& next.memory == s.memory.with_pc(s.memory.pc_plus(1))
        }),
{
    let opcode = instruction_opcode(code, true, ret, keep);
    assert(opcode & 0x1f == code && opcode & 0x3f == (code + 0x20) as u8
        && (opcode & 0x40 != 0) == ret && (opcode & 0x80 != 0) == keep) by (bit_vector)
        requires
            0x01 <= code <= 0x07,
            opcode == code | 0x20u8 | (if ret { 0x40u8 } else { 0u8 }) | (if keep { 0x80u8 } else { 0u8 });
    let src = if ret { s.rs } else { s.ws };
    let dst = if ret { s.ws } else { s.rs };
    let m1 = s.memory.with_pc(s.memory.pc_plus(1));
    lemma_short_stack_effect((code + 0x20) as u8, keep, src, dst, m1, in1, in2);
    lemma_regular_next_parts(s, opcode, in1, in2);
}

/// How a run stops: right after executing BRK, or when `RUN_STEP_LIMIT` instructions have run;
/// never later.
pub open spec fn run_ended(trace: Seq<MachineState>) -> bool {
    &&& trace.len() <= RUN_STEP_LIMIT + 1
    &&& (trace.len() >= 2 && halts_at(trace[trace.len() - 2])) || trace.len() == RUN_STEP_LIMIT + 1
}

proof fn lemma_byte_effect_without_input(n: u8, keep: bool, src: StackState, dst: StackState, memory: MemoryState, a: u8, b: u8)
    requires
        n != 0x16,
    ensures
        byte_effect(n, keep, src, dst, memory, a) == byte_effect(n, keep, src, dst, memory, b),
{
    reveal(byte_effect);
}

proof fn lemma_short_effect_without_input(
    n: u8,
    keep: bool,
    src: StackState,
    dst: StackState,
    memory: MemoryState,
    a1: u8,
    a2: u8,
    b1: u8,
    b2: u8,
)
    requires
        n != 0x36,
    ensures
        short_effect(n, keep, src, dst, memory, a1, a2) == short_effect(n, keep, src, dst, memory, b1, b2),
{
    reveal(short_effect);
}

/// A step that neither reads from nor writes to the device has one outcome.
pub proof fn lemma_step_determined(before: MachineState, first: MachineState, second: MachineState)
    requires
        steps_to(before, first),
        steps_to(before, second),
        !inputs_at(before),
        !outputs_at(before),
    ensures
        first == second,
{
    let (a1, a2) = choose|in1: u8, in2: u8| step_relation(before, first, in1, in2);
    let (b1, b2) = choose|in1: u8, in2: u8| step_relation(before, second, in1, in2);
    let opcode = before.memory.read8(before.memory.pc);
    if opcode & 0x1f != 0 {
        reveal(regular_next);
        let m1 = before.memory.with_pc(before.memory.pc_plus(1));
        let n = opcode & 0x3f;
        assert(opcode & 0x3f == normalized(opcode));
        let keep = is_keep_mode(opcode);
        let (src, dst) = if is_return_mode(opcode) { (before.rs, before.ws) } else { (before.ws, before.rs) };
        if n < 0x20 {
            lemma_byte_effect_without_input(n, keep, src, dst, m1, a1, b1);
        } else {
            lemma_short_effect_without_input(n, keep, src, dst, m1, a1, a2, b1, b2);
        }
    }
    assert(next_state(before, a1, a2) == next_state(before, b1, b2));
}

proof fn lemma_device_free_prefix_agrees(first: Seq<MachineState>, second: Seq<MachineState>, k: int)
    requires
        is_run(first),
        is_run(second),
        first[0] == second[0],
        0 <= k < first.len(),
        k < second.len(),
        forall|i: int| 0 <= i < first.len() - 1 ==> !inputs_at(#[trigger] first[i]) && !outputs_at(first[i]),
    ensures
        forall|i: int| 0 <= i <= k ==> #[trigger] first[i] == second[i],
    decreases k,
{
    if k > 0 {
        lemma_device_free_prefix_agrees(first, second, k - 1);
        assert(steps_to(first[k - 1], first[k]));
        assert(steps_to(second[k - 1], second[k]));
        assert(!inputs_at(first[k - 1]) && !outputs_at(first[k - 1]));
        assert(first[k - 1] == second[k - 1]);
        lemma_step_determined(first[k - 1], first[k], second[k]);
    }
}

/// A run that never reads from or writes to the device is fixed by the state it starts from:
/// two such runs from one state, both ended as `run` ends them, are the same run. So, where
/// the run does not touch the device, `eval_vector(vector)` with `vector` not zero and
/// `jump_absolute(vector)` followed by `run()`, which both run from the state with the program
/// counter at `vector`, end in the same state.
pub proof fn lemma_device_free_runs_agree(first: Seq<MachineState>, second: Seq<MachineState>)
    requires
        is_run(first),
        is_run(second),
        first[0] == second[0],
        run_ended(first),
        run_ended(second),
        forall|i: int| 0 <= i < first.len() - 1 ==> !inputs_at(#[trigger] first[i]) && !outputs_at(first[i]),
    ensures
        first == second,
{
    let shorter = if first.len() <= second.len() { first.len() } else { second.len() };
    lemma_device_free_prefix_agrees(first, second, shorter - 1);
    if first.len() < second.len() {
        let n = first.len();
        if n >= 2 && halts_at(first[n - 2]) {
            assert(first[n - 2] == second[n - 2]);
            assert(!halts_at(second[n - 2]));
        }
    } else if second.len() < first.len() {
        let n = second.len();
        if n >= 2 && halts_at(second[n - 2]) {
            assert(first[n - 2] == second[n - 2]);
            assert(!halts_at(first[n - 2]));
        }
    }
    assert(first =~= second);
}

impl<D: VmDevice> Vm<D> {
    pub open spec fn state(&self) -> MachineState {
        MachineState { ws: self.ws@, rs: self.rs@, memory: self.memory@ }
    }

    /// Creates a VM with empty stacks, `rom` loaded at 0x0100 and the given device.
    pub fn new_with_rom_and_device(rom: &[u8], device: D) -> (result: Result<Self, VmError>)
        ensures
            result is Err <==> rom@.len() > MAXIMUM_ROM_SIZE,
            result matches Err(error) ==> error == (VmError::RomTooLarge {
                size: rom@.len() as usize,
                maximum_capacity: MAXIMUM_ROM_SIZE,
            }),
            result matches Ok(vm) ==> {
                &&& vm.state() == (MachineState { ws: fresh_stack(), rs: fresh_stack(), memory: fresh_memory(rom@) })
                &&& vm.device == device
            },
    {
        if rom.len() > MAXIMUM_ROM_SIZE {
            return Err(VmError::RomTooLarge { size: rom.len(), maximum_capacity: MAXIMUM_ROM_SIZE });
        }
        let mut memory = Memory::new();
        memory.load_rom(rom);
        let ws = Stack::default();
        let rs = Stack::default();
        assert(ws@ == fresh_stack());
        assert(rs@ == fresh_stack());
        Ok(Self { ws, rs, memory, device })
    }

    /// Executes the instruction at the program counter.
    ///
    /// Returns `Halted` on BRK and `Running` otherwise; the new state is the
    /// one `next_state` describes for some bytes returned by the device (the
    /// memory after a device output is left to the device).
    pub fn step(&mut self) -> (result: Result<VmState, VmError>)
        ensures
            result == Ok::<VmState, VmError>(
                if halts_at(old(self).state()) { VmState::Halted } else { VmState::Running },
            ),
            exists|in1: u8, in2: u8| step_relation(old(self).state(), final(self).state(), in1, in2),
            !inputs_at(old(self).state()) && !outputs_at(old(self).state()) ==> final(self).device == old(self).device,
            instruction_at(old(self).state()) == 0x17 ==> exists|d: &mut D, m: &mut Memory| {
                &&& *d == old(self).device && *final(d) == final(self).device
                &&& (*m)@ == fetched_memory(old(self).state()) && (*final(m))@ == final(self).state().memory
                &&& call_ensures(D::output, (d, device_port(old(self).state()), operand_stack(old(self).state()).byte_at(1), m), ())
            },
            instruction_at(old(self).state()) == 0x37 ==> exists|d1: &mut D, m1: &mut Memory, d2: &mut D, m2: &mut Memory| {
                &&& *d1 == old(self).device && *final(d1) == *d2 && *final(d2) == final(self).device
                &&& (*m1)@ == fetched_memory(old(self).state()) && *final(m1) == *m2 && (*final(m2))@ == final(self).state().memory
                &&& call_ensures(D::output, (d1, device_port(old(self).state()), high_byte(operand_stack(old(self).state()).short_at(1)), m1), ())
                &&& call_ensures(D::output, (d2, wrap_u8(device_port(old(self).state()) + 1), low_byte(operand_stack(old(self).state()).short_at(1)), m2), ())
            },
            instruction_at(old(self).state()) == 0x16 ==> exists|in1: u8, in2: u8, d: &mut D| #![trigger step_relation(old(self).state(), final(self).state(), in1, in2), call_ensures(D::input, (d, device_port(old(self).state())), in1)] {
                &&& step_relation(old(self).state(), final(self).state(), in1, in2)
                &&& *d == old(self).device && *final(d) == final(self).device
                &&& call_ensures(D::input, (d, device_port(old(self).state())), in1)
            },
            instruction_at(old(self).state()) == 0x36 ==> exists|in1: u8, in2: u8, d1: &mut D, d2: &mut D| #![trigger call_ensures(D::input, (d1, device_port(old(self).state())), in1), call_ensures(D::input, (d2, wrap_u8(device_port(old(self).state()) + 1)), in2)] {
                &&& step_relation(old(self).state(), final(self).state(), in1, in2)
                &&& *d1 == old(self).device && *final(d1) == *d2 && *final(d2) == final(self).device
                &&& call_ensures(D::input, (d1, device_port(old(self).state())), in1)
                &&& call_ensures(D::input, (d2, wrap_u8(device_port(old(self).state()) + 1)), in2)
            },
            exists|in1: u8, in2: u8| #![trigger step_relation(old(self).state(), final(self).state(), in1, in2)] {
                let before = old(self).state();
                &&& step_relation(before, final(self).state(), in1, in2)
                &&& !inputs_at(before) && !outputs_at(before) ==> final(self).device == old(self).device
                &&& instruction_at(before) == 0x16 ==> exists|d: &mut D| *d == old(self).device && *final(d) == final(self).device
                    && call_ensures(D::input, (d, device_port(before)), in1)
                &&& instruction_at(before) == 0x36 ==> exists|d1: &mut D, d2: &mut D| {
                    &&& *d1 == old(self).device && *final(d1) == *d2 && *final(d2) == final(self).device
                    &&& call_ensures(D::input, (d1, device_port(before)), in1)
                    &&& call_ensures(D::input, (d2, wrap_u8(device_port(before) + 1)), in2)
                }
                &&& instruction_at(before) == 0x17 ==> exists|d: &mut D, m: &mut Memory| {
                    &&& *d == old(self).device && *final(d) == final(self).device
                    &&& (*m)@ == fetched_memory(before) && *final(m) == final(self).memory
                    &&& call_ensures(D::output, (d, device_port(before), operand_stack(before).byte_at(1), m), ())
                }
                &&& instruction_at(before) == 0x37 ==> exists|d1: &mut D, m1: &mut Memory, d2: &mut D, m2: &mut Memory| {
                    &&& *d1 == old(self).device && *final(d1) == *d2 && *final(d2) == final(self).device
                    &&& (*m1)@ == fetched_memory(before) && *final(m1) == *m2 && *final(m2) == final(self).memory
                    &&& call_ensures(D::output, (d1, device_port(before), high_byte(operand_stack(before).short_at(1)), m1), ())
                    &&& call_ensures(D::output, (d2, wrap_u8(device_port(before) + 1), low_byte(operand_stack(before).short_at(1)), m2), ())
                }
            },
    {
        let ghost before = self.state();
        let opcode = self.memory.read_u8();
        assert(opcode & 0x1f == 0 ==> (opcode == 0 || opcode == 0x20 || opcode == 0x40 || opcode == 0x60
            || opcode == 0x80 || opcode == 0xa0 || opcode == 0xc0 || opcode == 0xe0)) by (bit_vector);
        assert(opcode == 0 ==> opcode & 0x1f == 0) by (bit_vector);
        if opcode == 0x00 {
            assert(self.state() == immediate_next(before, opcode)) by {
                reveal(immediate_next);
            }
            assert(step_relation(before, self.state(), 0, 0));
            assert(instruction_at(before) == 0);
            Ok(VmState::Halted)
        } else if (opcode & 0x1f) == 0 {
            self.step_immediate(opcode, Ghost(before));
            assert(step_relation(before, self.state(), 0, 0));
            assert(instruction_at(before) == opcode);
            Ok(VmState::Running)
        } else {
            let ghost fetched = self.memory;
            let inputs = self.step_regular(opcode, Ghost(before));
            assert(step_relation(before, self.state(), inputs.0, inputs.1));
            assert(fetched@ == fetched_memory(before));
            Ok(VmState::Running)
        }
    }

    /// Continuously executes instructions until the VM reaches a halted
    /// state (`BRK`), or until `RUN_STEP_LIMIT` instructions have run.
    pub fn run(&mut self) -> (result: Result<(), VmError>)
        ensures
            result is Ok,
            exists|trace: Seq<MachineState>| {
                &&& is_run(trace)
                &&& trace[0] == old(self).state()
                &&& trace.last() == final(self).state()
                &&& run_ended(trace)
            },
            exists|trace: Seq<MachineState>, devices: Seq<D>| {
                &&& trace.len() >= 1 && devices.len() == trace.len()
                &&& trace[0] == old(self).state() && devices[0] == old(self).device
                &&& trace.last() == final(self).state() && devices.last() == final(self).device
                &&& forall|i: int| 0 <= i < trace.len() - 1 && !inputs_at(#[trigger] trace[i]) && !outputs_at(trace[i])
                    ==> devices[i + 1] == devices[i]
                &&& forall|i: int| #![trigger trace[i]] 0 <= i < trace.len() - 1 && instruction_at(trace[i]) == 0x17
                    ==> exists|d: &mut D, m: &mut Memory| {
                        &&& *d == devices[i] && *final(d) == devices[i + 1]
                        &&& (*m)@ == fetched_memory(trace[i]) && (*final(m))@ == trace[i + 1].memory
                        &&& call_ensures(D::output, (d, device_port(trace[i]), operand_stack(trace[i]).byte_at(1), m), ())
                    }
                &&& forall|i: int| #![trigger trace[i]] 0 <= i < trace.len() - 1 && instruction_at(trace[i]) == 0x37
                    ==> exists|d1: &mut D, m1: &mut Memory, d2: &mut D, m2: &mut Memory| {
                    &&& *d1 == devices[i] && *final(d1) == *d2 && *final(d2) == devices[i + 1]
                    &&& (*m1)@ == fetched_memory(trace[i]) && *final(m1) == *m2 && (*final(m2))@ == trace[i + 1].memory
                    &&& call_ensures(D::output, (d1, device_port(trace[i]), high_byte(operand_stack(trace[i]).short_at(1)), m1), ())
                    &&& call_ensures(D::output, (d2, wrap_u8(device_port(trace[i]) + 1), low_byte(operand_stack(trace[i]).short_at(1)), m2), ())
                }
                &&& forall|i: int| #![trigger trace[i]] 0 <= i < trace.len() - 1 && instruction_at(trace[i]) == 0x16
                    ==> exists|in1: u8, in2: u8, d: &mut D| #![trigger step_relation(trace[i], trace[i + 1], in1, in2), call_ensures(D::input, (d, device_port(trace[i])), in1)] {
                    &&& step_relation(trace[i], trace[i + 1], in1, in2)
                    &&& *d == devices[i] && *final(d) == devices[i + 1]
                    &&& call_ensures(D::input, (d, device_port(trace[i])), in1)
                }
                &&& forall|i: int| #![trigger trace[i]] 0 <= i < trace.len() - 1 && instruction_at(trace[i]) == 0x36
                    ==> exists|in1: u8, in2: u8, d1: &mut D, d2: &mut D| #![trigger call_ensures(D::input, (d1, device_port(trace[i])), in1), call_ensures(D::input, (d2, wrap_u8(device_port(trace[i]) + 1)), in2)] {
                    &&& step_relation(trace[i], trace[i + 1], in1, in2)
                    &&& *d1 == devices[i] && *final(d1) == *d2 && *final(d2) == devices[i + 1]
                    &&& call_ensures(D::input, (d1, device_port(trace[i])), in1)
                    &&& call_ensures(D::input, (d2, wrap_u8(device_port(trace[i]) + 1)), in2)
                }
            },
    {
        let ghost mut trace: Seq<MachineState> = seq![self.state()];
        let ghost mut devices: Seq<D> = seq![self.device];
        let mut executed: u64 = 0;
        while executed < RUN_STEP_LIMIT
            invariant
                is_run(trace),
                trace[0] == old(self).state(),
                trace.last() == self.state(),
                trace.len() == executed + 1,
                forall|i: int| 0 <= i < trace.len() - 1 ==> !halts_at(#[trigger] trace[i]),
                devices.len() == trace.len(),
                devices[0] == old(self).device,
                devices.last() == self.device,
                forall|i: int| 0 <= i < trace.len() - 1 && !inputs_at(#[trigger] trace[i]) && !outputs_at(trace[i])
                    ==> devices[i + 1] == devices[i],
                forall|i: int| #![trigger trace[i]] 0 <= i < trace.len() - 1 && instruction_at(trace[i]) == 0x17
                ==> exists|d: &mut D, m: &mut Memory| {
                    &&& *d == devices[i] && *final(d) == devices[i + 1]
                    &&& (*m)@ == fetched_memory(trace[i]) && (*final(m))@ == trace[i + 1].memory
                    &&& call_ensures(D::output, (d, device_port(trace[i]), operand_stack(trace[i]).byte_at(1), m), ())
                },
                forall|i: int| #![trigger trace[i]] 0 <= i < trace.len() - 1 && instruction_at(trace[i]) == 0x37
                    ==> exists|d1: &mut D, m1: &mut Memory, d2: &mut D, m2: &mut Memory| {
                    &&& *d1 == devices[i] && *final(d1) == *d2 && *final(d2) == devices[i + 1]
                    &&& (*m1)@ == fetched_memory(trace[i]) && *final(m1) == *m2 && (*final(m2))@ == trace[i + 1].memory
                    &&& call_ensures(D::output, (d1, device_port(trace[i]), high_byte(operand_stack(trace[i]).short_at(1)), m1), ())
                    &&& call_ensures(D::output, (d2, wrap_u8(device_port(trace[i]) + 1), low_byte(operand_stack(trace[i]).short_at(1)), m2), ())
                },
                forall|i: int| #![trigger trace[i]] 0 <= i < trace.len() - 1 && instruction_at(trace[i]) == 0x16
                    ==> exists|in1: u8, in2: u8, d: &mut D| #![trigger step_relation(trace[i], trace[i + 1], in1, in2), call_ensures(D::input, (d, device_port(trace[i])), in1)] {
                    &&& step_relation(trace[i], trace[i + 1], in1, in2)
                    &&& *d == devices[i] && *final(d) == devices[i + 1]
                    &&& call_ensures(D::input, (d, device_port(trace[i])), in1)
                },
                forall|i: int| #![trigger trace[i]] 0 <= i < trace.len() - 1 && instruction_at(trace[i]) == 0x36
                    ==> exists|in1: u8, in2: u8, d1: &mut D, d2: &mut D| #![trigger call_ensures(D::input, (d1, device_port(trace[i])), in1), call_ensures(D::input, (d2, wrap_u8(device_port(trace[i]) + 1)), in2)] {
                    &&& step_relation(trace[i], trace[i + 1], in1, in2)
                    &&& *d1 == devices[i] && *final(d1) == *d2 && *final(d2) == devices[i + 1]
                    &&& call_ensures(D::input, (d1, device_port(trace[i])), in1)
                    &&& call_ensures(D::input, (d2, wrap_u8(device_port(trace[i]) + 1)), in2)
                },
            decreases RUN_STEP_LIMIT - executed,
        {
            let ghost previous = trace;
            let ghost previous_devices = devices;
            let result = self.step();
            proof {
                trace = trace.push(self.state());
                devices = devices.push(self.device);
                assert forall|i: int| 0 <= i < trace.len() - 1 && !inputs_at(#[trigger] trace[i]) && !outputs_at(trace[i])
                    implies devices[i + 1] == devices[i] by {
                    if i < previous.len() - 1 {
                        assert(trace[i] == previous[i]);
                        assert(devices[i] == previous_devices[i] && devices[i + 1] == previous_devices[i + 1]);
                    } else {
                        assert(trace[i] == previous.last());
                        assert(devices[i] == previous_devices.last() && devices[i + 1] == self.device);
                    }
                }
                assert forall|i: int| #![trigger trace[i]] 0 <= i < trace.len() - 1 && instruction_at(trace[i]) == 0x17
                    implies exists|d: &mut D, m: &mut Memory| {
                        &&& *d == devices[i] && *final(d) == devices[i + 1]
                        &&& (*m)@ == fetched_memory(trace[i]) && (*final(m))@ == trace[i + 1].memory
                        &&& call_ensures(D::output, (d, device_port(trace[i]), operand_stack(trace[i]).byte_at(1), m), ())
                    } by {
                    if i < previous.len() - 1 {
                        assert(trace[i] == previous[i] && trace[i + 1] == previous[i + 1]);
                        assert(devices[i] == previous_devices[i] && devices[i + 1] == previous_devices[i + 1]);
                    } else {
                        assert(trace[i] == previous.last() && trace[i + 1] == self.state());
                        assert(devices[i] == previous_devices.last() && devices[i + 1] == self.device);
                    }
                assert forall|i: int| #![trigger trace[i]] 0 <= i < trace.len() - 1 && instruction_at(trace[i]) == 0x37
                    implies exists|d1: &mut D, m1: &mut Memory, d2: &mut D, m2: &mut Memory| {
                    &&& *d1 == devices[i] && *final(d1) == *d2 && *final(d2) == devices[i + 1]
                    &&& (*m1)@ == fetched_memory(trace[i]) && *final(m1) == *m2 && (*final(m2))@ == trace[i + 1].memory
                    &&& call_ensures(D::output, (d1, device_port(trace[i]), high_byte(operand_stack(trace[i]).short_at(1)), m1), ())
                    &&& call_ensures(D::output, (d2, wrap_u8(device_port(trace[i]) + 1), low_byte(operand_stack(trace[i]).short_at(1)), m2), ())
                } by {
                    if i < previous.len() - 1 {
                        assert(trace[i] == previous[i] && trace[i + 1] == previous[i + 1]);
                        assert(devices[i] == previous_devices[i] && devices[i + 1] == previous_devices[i + 1]);
                    } else {
                        assert(trace[i] == previous.last() && trace[i + 1] == self.state());
                        assert(devices[i] == previous_devices.last() && devices[i + 1] == self.device);
                    }
                }
                assert forall|i: int| #![trigger trace[i]] 0 <= i < trace.len() - 1 && instruction_at(trace[i]) == 0x16
                    implies exists|in1: u8, in2: u8, d: &mut D| #![trigger step_relation(trace[i], trace[i + 1], in1, in2), call_ensures(D::input, (d, device_port(trace[i])), in1)] {
                    &&& step_relation(trace[i], trace[i + 1], in1, in2)
                    &&& *d == devices[i] && *final(d) == devices[i + 1]
                    &&& call_ensures(D::input, (d, device_port(trace[i])), in1)
                } by {
                    if i < previous.len() - 1 {
                        assert(trace[i] == previous[i] && trace[i + 1] == previous[i + 1]);
                        assert(devices[i] == previous_devices[i] && devices[i + 1] == previous_devices[i + 1]);
                    } else {
                        assert(trace[i] == previous.last() && trace[i + 1] == self.state());
                        assert(devices[i] == previous_devices.last() && devices[i + 1] == self.device);
                    }
                }
                assert forall|i: int| #![trigger trace[i]] 0 <= i < trace.len() - 1 && instruction_at(trace[i]) == 0x36
                    implies exists|in1: u8, in2: u8, d1: &mut D, d2: &mut D| #![trigger call_ensures(D::input, (d1, device_port(trace[i])), in1), call_ensures(D::input, (d2, wrap_u8(device_port(trace[i]) + 1)), in2)] {
                    &&& step_relation(trace[i], trace[i + 1], in1, in2)
                    &&& *d1 == devices[i] && *final(d1) == *d2 && *final(d2) == devices[i + 1]
                    &&& call_ensures(D::input, (d1, device_port(trace[i])), in1)
                    &&& call_ensures(D::input, (d2, wrap_u8(device_port(trace[i]) + 1)), in2)
                } by {
                    if i < previous.len() - 1 {
                        assert(trace[i] == previous[i] && trace[i + 1] == previous[i + 1]);
                        assert(devices[i] == previous_devices[i] && devices[i + 1] == previous_devices[i + 1]);
                    } else {
                        assert(trace[i] == previous.last() && trace[i + 1] == self.state());
                        assert(devices[i] == previous_devices.last() && devices[i + 1] == self.device);
                    }
                }
                }
                assert(steps_to(previous.last(), self.state()));
                assert forall|i: int| 0 <= i < trace.len() - 1 implies steps_to(#[trigger] trace[i], trace[i + 1]) by {
                    if i < previous.len() - 1 {
                        assert(trace[i] == previous[i] && trace[i + 1] == previous[i + 1]);
                    }
                }
            }
            match result {
                Ok(VmState::Halted) => {
                    assert(is_run(trace) && trace[0] == old(self).state() && trace.last() == self.state());
                    assert(devices[0] == old(self).device && devices.last() == self.device);
                    return Ok(());
                },
                Ok(VmState::Running) => {},
                Err(error) => {
                    return Err(error);
                },
            }
            executed += 1;
        }
        assert(is_run(trace) && trace[0] == old(self).state() && trace.last() == self.state());
        assert(devices[0] == old(self).device && devices.last() == self.device);
        Ok(())
    }

    /// Evaluates a vector by jumping to its address and running until halted (`BRK`).
    /// If `vector` is 0, this is a no-op and returns `Ok(())`.
    pub fn eval_vector(&mut self, vector: u16) -> (result: Result<(), VmError>)
        ensures
            result is Ok,
            vector == 0 ==> *final(self) == *old(self),
            vector != 0 ==> exists|trace: Seq<MachineState>| {
                &&& is_run(trace)
                &&& trace[0] == (MachineState { memory: old(self).state().memory.with_pc(vector), ..old(self).state() })
                &&& trace.last() == final(self).state()
                &&& run_ended(trace)
            },
            vector != 0 ==> exists|trace: Seq<MachineState>, devices: Seq<D>| {
                &&& trace.len() >= 1 && devices.len() == trace.len()
                &&& trace[0] == (MachineState { memory: old(self).state().memory.with_pc(vector), ..old(self).state() })
                &&& devices[0] == old(self).device
                &&& trace.last() == final(self).state() && devices.last() == final(self).device
                &&& forall|i: int| 0 <= i < trace.len() - 1 && !inputs_at(#[trigger] trace[i]) && !outputs_at(trace[i])
                    ==> devices[i + 1] == devices[i]
                &&& forall|i: int| #![trigger trace[i]] 0 <= i < trace.len() - 1 && instruction_at(trace[i]) == 0x17
                    ==> exists|d: &mut D, m: &mut Memory| {
                        &&& *d == devices[i] && *final(d) == devices[i + 1]
                        &&& (*m)@ == fetched_memory(trace[i]) && (*final(m))@ == trace[i + 1].memory
                        &&& call_ensures(D::output, (d, device_port(trace[i]), operand_stack(trace[i]).byte_at(1), m), ())
                    }
                &&& forall|i: int| #![trigger trace[i]] 0 <= i < trace.len() - 1 && instruction_at(trace[i]) == 0x37
                    ==> exists|d1: &mut D, m1: &mut Memory, d2: &mut D, m2: &mut Memory| {
                    &&& *d1 == devices[i] && *final(d1) == *d2 && *final(d2) == devices[i + 1]
                    &&& (*m1)@ == fetched_memory(trace[i]) && *final(m1) == *m2 && (*final(m2))@ == trace[i + 1].memory
                    &&& call_ensures(D::output, (d1, device_port(trace[i]), high_byte(operand_stack(trace[i]).short_at(1)), m1), ())
                    &&& call_ensures(D::output, (d2, wrap_u8(device_port(trace[i]) + 1), low_byte(operand_stack(trace[i]).short_at(1)), m2), ())
                }
                &&& forall|i: int| #![trigger trace[i]] 0 <= i < trace.len() - 1 && instruction_at(trace[i]) == 0x16
                    ==> exists|in1: u8, in2: u8, d: &mut D| #![trigger step_relation(trace[i], trace[i + 1], in1, in2), call_ensures(D::input, (d, device_port(trace[i])), in1)] {
                    &&& step_relation(trace[i], trace[i + 1], in1, in2)
                    &&& *d == devices[i] && *final(d) == devices[i + 1]
                    &&& call_ensures(D::input, (d, device_port(trace[i])), in1)
                }
                &&& forall|i: int| #![trigger trace[i]] 0 <= i < trace.len() - 1 && instruction_at(trace[i]) == 0x36
                    ==> exists|in1: u8, in2: u8, d1: &mut D, d2: &mut D| #![trigger call_ensures(D::input, (d1, device_port(trace[i])), in1), call_ensures(D::input, (d2, wrap_u8(device_port(trace[i]) + 1)), in2)] {
                    &&& step_relation(trace[i], trace[i + 1], in1, in2)
                    &&& *d1 == devices[i] && *final(d1) == *d2 && *final(d2) == devices[i + 1]
                    &&& call_ensures(D::input, (d1, device_port(trace[i])), in1)
                    &&& call_ensures(D::input, (d2, wrap_u8(device_port(trace[i]) + 1)), in2)
                }
            },
    {
        if vector == 0 {
            return Ok(());
        }
        self.memory.jump_absolute(vector);
        self.run()
    }

    /// The immediate instructions (JCI, JMI, JSI and the literals).
    fn step_immediate(&mut self, opcode: u8, Ghost(before): Ghost<MachineState>)
        requires
            opcode == 0x20 || opcode == 0x40 || opcode == 0x60 || opcode == 0x80 || opcode == 0xa0
                || opcode == 0xc0 || opcode == 0xe0,
            opcode == before.memory.read8(before.memory.pc),
            old(self).state() == (MachineState {
                memory: before.memory.with_pc(before.memory.pc_plus(1)),
                ..before
            }),
        ensures
            final(self).state() == immediate_next(before, opcode),
            final(self).device == old(self).device,
    {
        reveal(immediate_next);
        if opcode == 0x20 {
            let condition = self.ws.pop_u8();
            let offset = self.memory.read_i16();
            if condition != 0 {
                self.memory.jump_relative(offset);
            }
        } else if opcode == 0x40 {
            let offset = self.memory.read_i16();
            self.memory.jump_relative(offset);
        } else if opcode == 0x60 {
            let offset = self.memory.read_i16();
            self.rs.push_u16(self.memory.pc());
            self.memory.jump_relative(offset);
        } else if opcode == 0x80 {
            let byte = self.memory.read_u8();
            self.ws.push_u8(byte);
        } else if opcode == 0xa0 {
            let value = self.memory.read_u16();
            self.ws.push_u16(value);
        } else if opcode == 0xc0 {
            let byte = self.memory.read_u8();
            self.rs.push_u8(byte);
        } else {
            let value = self.memory.read_u16();
            self.rs.push_u16(value);
        }
    }

    /// The regular instructions: the opcode's low five bits are not all zero.
    #[verifier::rlimit(40)]
    fn step_regular(&mut self, opcode: u8, Ghost(before): Ghost<MachineState>) -> (inputs: (u8, u8))
        requires
            opcode & 0x1f != 0,
            opcode == before.memory.read8(before.memory.pc),
            old(self).state() == (MachineState {
                memory: before.memory.with_pc(before.memory.pc_plus(1)),
                ..before
            }),
        ensures
            ({
                let expected = regular_next(before, opcode, inputs.0, inputs.1);
                &&& final(self).state().ws == expected.ws
                &&& final(self).state().rs == expected.rs
                &&& !outputs_at(before) ==> final(self).state().memory == expected.memory
            }),
            !inputs_at(before) && !outputs_at(before) ==> final(self).device == old(self).device,
            instruction_at(before) == 0x16 ==> exists|d: &mut D| *d == old(self).device && *final(d) == final(self).device
                && call_ensures(D::input, (d, device_port(before)), inputs.0),
            instruction_at(before) == 0x36 ==> exists|d1: &mut D, d2: &mut D| {
                &&& *d1 == old(self).device && *final(d1) == *d2 && *final(d2) == final(self).device
                &&& call_ensures(D::input, (d1, device_port(before)), inputs.0)
                &&& call_ensures(D::input, (d2, wrap_u8(device_port(before) + 1)), inputs.1)
            },
            instruction_at(before) == 0x17 ==> exists|d: &mut D, m: &mut Memory| {
                &&& *d == old(self).device && *final(d) == final(self).device
                &&& *m == old(self).memory && *final(m) == final(self).memory
                &&& call_ensures(D::output, (d, device_port(before), operand_stack(before).byte_at(1), m), ())
            },
            instruction_at(before) == 0x37 ==> exists|d1: &mut D, m1: &mut Memory, d2: &mut D, m2: &mut Memory| {
                &&& *d1 == old(self).device && *final(d1) == *d2 && *final(d2) == final(self).device
                &&& *m1 == old(self).memory && *final(m1) == *m2 && *final(m2) == final(self).memory
                &&& call_ensures(D::output, (d1, device_port(before), high_byte(operand_stack(before).short_at(1)), m1), ())
                &&& call_ensures(D::output, (d2, wrap_u8(device_port(before) + 1), low_byte(operand_stack(before).short_at(1)), m2), ())
            },
    {
        reveal(regular_next);
        let is_return = (opcode & 0x40) != 0;
        let is_keep = (opcode & 0x80) != 0;
        let n = opcode & 0x3f;
        assert(opcode & 0x1f != 0 ==> (opcode & 0x3f) & 0x1f != 0 && (opcode & 0x3f) <= 0x3f
            && ((opcode & 0x3f) < 0x20 ==> (opcode & 0x3f) >= 0x01)
            && ((opcode & 0x3f) >= 0x20 ==> (opcode & 0x3f) >= 0x21)) by (bit_vector);
        assert(instruction_at(before) == n);
        assert(operand_stack(before) == if is_return { old(self).rs@ } else { old(self).ws@ });
        if n < 0x20 {
            let input = if is_return {
                execute_byte(n, is_keep, &mut self.rs, &mut self.ws, &mut self.memory, &mut self.device)
            } else {
                execute_byte(n, is_keep, &mut self.ws, &mut self.rs, &mut self.memory, &mut self.device)
            };
            assert(n != 0x16 && n != 0x17 ==> self.device == old(self).device);
            assert(n == 0x17 ==> exists|d: &mut D, m: &mut Memory| #![trigger call_ensures(D::output, (d, device_port(before), operand_stack(before).byte_at(1), m), ())]
                *d == old(self).device && *final(d) == self.device && *m == old(self).memory && *final(m) == self.memory
                && call_ensures(D::output, (d, device_port(before), operand_stack(before).byte_at(1), m), ()));
            (input, 0)
        } else {
            let inputs = if is_return {
                execute_short(n, is_keep, &mut self.rs, &mut self.ws, &mut self.memory, &mut self.device)
            } else {
                execute_short(n, is_keep, &mut self.ws, &mut self.rs, &mut self.memory, &mut self.device)
            };
            assert(n != 0x36 && n != 0x37 ==> self.device == old(self).device);
            inputs
        }
    }
}

impl Vm<NullDevice> {
    /// Creates a VM with no device attached.
    pub fn new_with_rom(rom: &[u8]) -> (result: Result<Self, VmError>)
        ensures
            result is Err <==> rom@.len() > MAXIMUM_ROM_SIZE,
            result matches Err(error) ==> error == (VmError::RomTooLarge {
                size: rom@.len() as usize,
                maximum_capacity: MAXIMUM_ROM_SIZE,
            }),
            result matches Ok(vm) ==> vm.state() == (MachineState {
                ws: fresh_stack(),
                rs: fresh_stack(),
                memory: fresh_memory(rom@),
            }),
    {
        Self::new_with_rom_and_device(rom, NullDevice)
    }
}

} // verus!
