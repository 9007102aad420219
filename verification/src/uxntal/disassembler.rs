use vstd::prelude::*;
use super::opcode::{lemma_mnemonic_roundtrip, lemma_opcode_byte_injective, mnemonic_opcode, modes_of, opcode_byte, opcode_letters, opcode_mnemonic, opcode_with_modes, OpCode, OpCodeModes};
use super::symbol_table::{entries_at, first_at, nearest_at_or_below, Symbol, SymbolEntries, SymbolTable};
use crate::uxn::bytes::{add16_wide, join_short, short_from_bytes, signed16, wrap_u16};
use crate::uxn::vm::{immediate_next, MachineState};
use crate::text::{chars_of, hex_digit, hex_digit_char, hex_text, push_char, push_hex, push_repeated, push_str, spaces, string_from_chars};

verus! {

/// The kind of an instruction, for classification and highlighting.
#[derive(Debug, Copy, Clone, PartialEq, Eq, Structural)]
pub enum MnemonicCategory {
    ControlFlow,
    Literal,
    Arithmetic,
    Comparison,
    MemoryOrStack,
    Raw,
}

/// Where the listing starts and whether runs of zero bytes are shown in full.
#[derive(Debug, Clone, PartialEq, Eq, Structural)]
pub struct DisassemblyOptions {
    pub base_address: u16,
    pub disassemble_zeroes: bool,
}

impl Default for DisassemblyOptions {
    fn default() -> (options: Self)
        ensures
            options == (DisassemblyOptions { base_address: 0x0100, disassemble_zeroes: false }),
    {
        DisassemblyOptions { base_address: 0x0100, disassemble_zeroes: false }
    }
}

/// What one decoded instruction is.
#[derive(Debug, Clone, PartialEq, Eq, Structural)]
pub enum InstructionKind {
    Brk,
    Jci { offset: i16, target_address: u16 },
    Jmi { offset: i16, target_address: u16 },
    Jsi { offset: i16, target_address: u16 },
    Lit { value: u8 },
    Lit2 { value: u16 },
    Litr { value: u8 },
    Lit2r { value: u16 },
    Regular { opcode: OpCode, modes: OpCodeModes },
    RawByte(u8),
}

/// A decoded instruction: where it is, its bytes, what it is and how it reads.
#[derive(Debug, Clone, PartialEq, Eq)]
pub struct DecodedInstruction {
    pub address: u16,
    pub bytes: Vec<u8>,
    pub kind: InstructionKind,
    pub mnemonic: String,
    pub category: MnemonicCategory,
}

impl DecodedInstruction {
    pub fn byte_len(&self) -> (len: usize)
        ensures
            len == self.bytes@.len(),
    {
        self.bytes.len()
    }
}

/// The view of a decoded instruction: its bytes, kind, mnemonic and category.
pub type DecodedView = (Seq<u8>, InstructionKind, Seq<char>, MnemonicCategory);

/// The view of `instruction`, leaving out its address.
pub open spec fn decoded_view(instruction: DecodedInstruction) -> DecodedView {
    (instruction.bytes@, instruction.kind, instruction.mnemonic@, instruction.category)
}

/// The opcode and category of a base operation number (1 to 31).
pub open spec fn base_instruction(number: u8) -> (OpCode, MnemonicCategory) {
    if number == 0x01 {
        (OpCode::INC, MnemonicCategory::Arithmetic)
    } else if number == 0x02 {
        (OpCode::POP, MnemonicCategory::MemoryOrStack)
    } else if number == 0x03 {
        (OpCode::NIP, MnemonicCategory::MemoryOrStack)
    } else if number == 0x04 {
        (OpCode::SWP, MnemonicCategory::MemoryOrStack)
    } else if number == 0x05 {
        (OpCode::ROT, MnemonicCategory::MemoryOrStack)
    } else if number == 0x06 {
        (OpCode::DUP, MnemonicCategory::MemoryOrStack)
    } else if number == 0x07 {
        (OpCode::OVR, MnemonicCategory::MemoryOrStack)
    } else if number == 0x08 {
        (OpCode::EQU, MnemonicCategory::Comparison)
    } else if number == 0x09 {
        (OpCode::NEQ, MnemonicCategory::Comparison)
    } else if number == 0x0a {
        (OpCode::GTH, MnemonicCategory::Comparison)
    } else if number == 0x0b {
        (OpCode::LTH, MnemonicCategory::Comparison)
    } else if number == 0x0c {
        (OpCode::JMP, MnemonicCategory::ControlFlow)
    } else if number == 0x0d {
        (OpCode::JCN, MnemonicCategory::ControlFlow)
    } else if number == 0x0e {
        (OpCode::JSR, MnemonicCategory::ControlFlow)
    } else if number == 0x0f {
        (OpCode::STH, MnemonicCategory::MemoryOrStack)
    } else if number == 0x10 {
        (OpCode::LDZ, MnemonicCategory::MemoryOrStack)
    } else if number == 0x11 {
        (OpCode::STZ, MnemonicCategory::MemoryOrStack)
    } else if number == 0x12 {
        (OpCode::LDR, MnemonicCategory::MemoryOrStack)
    } else if number == 0x13 {
        (OpCode::STR, MnemonicCategory::MemoryOrStack)
    } else if number == 0x14 {
        (OpCode::LDA, MnemonicCategory::MemoryOrStack)
    } else if number == 0x15 {
        (OpCode::STA, MnemonicCategory::MemoryOrStack)
    } else if number == 0x16 {
        (OpCode::DEI, MnemonicCategory::MemoryOrStack)
    } else if number == 0x17 {
        (OpCode::DEO, MnemonicCategory::MemoryOrStack)
    } else if number == 0x18 {
        (OpCode::ADD, MnemonicCategory::Arithmetic)
    } else if number == 0x19 {
        (OpCode::SUB, MnemonicCategory::Arithmetic)
    } else if number == 0x1a {
        (OpCode::MUL, MnemonicCategory::Arithmetic)
    } else if number == 0x1b {
        (OpCode::DIV, MnemonicCategory::Arithmetic)
    } else if number == 0x1c {
        (OpCode::AND, MnemonicCategory::Arithmetic)
    } else if number == 0x1d {
        (OpCode::ORA, MnemonicCategory::Arithmetic)
    } else if number == 0x1e {
        (OpCode::EOR, MnemonicCategory::Arithmetic)
    } else if number == 0x1f {
        (OpCode::SFT, MnemonicCategory::Arithmetic)
    } else {
        (OpCode::BRK, MnemonicCategory::Raw)
    }
}

/// The mode suffix of an instruction: `2` for short, `r` for return, `k` for keep.
pub open spec fn mode_suffix(bits: u8) -> Seq<char> {
    (if bits & 0x20 != 0 { seq!['2'] } else { Seq::<char>::empty() })
        + (if bits & 0x40 != 0 { seq!['r'] } else { Seq::<char>::empty() })
        + (if bits & 0x80 != 0 { seq!['k'] } else { Seq::<char>::empty() })
}

/// A byte shown as data: `#` and two hex digits.
pub open spec fn raw_byte_view(byte: u8) -> DecodedView {
    (seq![byte], InstructionKind::RawByte(byte), seq!['#'] + hex_text(byte as nat, 2), MnemonicCategory::Raw)
}

/// An immediate jump at `address` with the 16-bit operand `operand`: the target is relative to
/// the address after the three-byte instruction.
pub open spec fn jump_view(first: u8, high: u8, low: u8, address: u16) -> DecodedView {
    let operand = join_short(high, low);
    let offset = signed16(operand) as i16;
    let target_address = wrap_u16(address + 3 + operand);
    let kind = if first == 0x20 {
        InstructionKind::Jci { offset, target_address }
    } else if first == 0x40 {
        InstructionKind::Jmi { offset, target_address }
    } else {
        InstructionKind::Jsi { offset, target_address }
    };
    let mnemonic = if first == 0x20 {
        "JCI"@
    } else if first == 0x40 {
        "JMI"@
    } else {
        "JSI"@
    };
    (seq![first, high, low], kind, mnemonic, MnemonicCategory::ControlFlow)
}

/// The target an immediate jump reports, if the instruction is one.
pub open spec fn reported_jump_target(kind: InstructionKind) -> Option<u16> {
    match kind {
        InstructionKind::Jci { target_address, .. } => Some(target_address),
        InstructionKind::Jmi { target_address, .. } => Some(target_address),
        InstructionKind::Jsi { target_address, .. } => Some(target_address),
        _ => None,
    }
}

/// The disassembler and the machine agree on immediate jumps. Where the three bytes of a JCI,
/// JMI or JSI lie in memory at the program counter, the target the disassembler reports for
/// them is the program counter the machine goes to when it runs the instruction (for JCI, when
/// the jump is taken: the top of the working stack is not zero). The disassembler calls it JSI
/// exactly when running it pushes onto the return stack, and JCI exactly when running it takes
/// a byte off the working stack.
pub proof fn lemma_jump_target_agrees_with_machine(rom: Seq<u8>, offset: int, s: MachineState)
    requires
        0 <= offset,
        offset + 2 < rom.len(),
        rom[offset] == 0x20 || rom[offset] == 0x40 || rom[offset] == 0x60,
        s.memory.ram.len() == 65536,
        s.memory.read8(s.memory.pc) == rom[offset],
        s.memory.read8(((s.memory.pc + 1) % 65536) as u16) == rom[offset + 1],
        s.memory.read8(((s.memory.pc + 2) % 65536) as u16) == rom[offset + 2],
    ensures
        rom[offset] != 0x20 || s.ws.byte_at(0) != 0 ==> reported_jump_target(decode_view(rom, offset, s.memory.pc).1)
            == Some(immediate_next(s, rom[offset]).memory.pc),
        decode_view(rom, offset, s.memory.pc).1 is Jsi <==> immediate_next(s, rom[offset]).rs != s.rs,
        decode_view(rom, offset, s.memory.pc).1 is Jci <==> immediate_next(s, rom[offset]).ws != s.ws,
{
    reveal(immediate_next);
    let first = rom[offset];
    assert(first & 0x1f == 0) by (bit_vector)
        requires
            first == 0x20 || first == 0x40 || first == 0x60;
    assert(decode_view(rom, offset, s.memory.pc) == jump_view(first, rom[offset + 1], rom[offset + 2], s.memory.pc));
    let m1 = s.memory.with_pc(s.memory.pc_plus(1));
    let operand = join_short(rom[offset + 1], rom[offset + 2]);
    assert(s.rs.push16(m1.pc).sp != s.rs.sp);
    assert(s.ws.drop_bytes(1).sp != s.ws.sp);
    assert(m1.read16(m1.pc) == operand);
    let m2 = m1.with_pc(m1.pc_plus(2));
    assert(m2.pc == (s.memory.pc + 3) % 65536);
    assert((m2.pc + signed16(operand)) % 65536 == (s.memory.pc + 3 + operand) % 65536);
}

/// The disassembler and the machine agree on literals. Where the bytes of a LIT, LIT2, LITr or
/// LIT2r lie in memory at the program counter, the disassembler reads it as that literal, and
/// the value it reports is the one running it pushes, onto the working stack (the return stack
/// for LITr and LIT2r).
pub proof fn lemma_literal_agrees_with_machine(rom: Seq<u8>, offset: int, s: MachineState)
    requires
        0 <= offset,
        offset + 2 < rom.len(),
        rom[offset] == 0x80 || rom[offset] == 0xa0 || rom[offset] == 0xc0 || rom[offset] == 0xe0,
        s.memory.ram.len() == 65536,
        s.memory.read8(s.memory.pc) == rom[offset],
        s.memory.read8(((s.memory.pc + 1) % 65536) as u16) == rom[offset + 1],
        s.memory.read8(((s.memory.pc + 2) % 65536) as u16) == rom[offset + 2],
    ensures
        ({
            let kind = decode_view(rom, offset, s.memory.pc).1;
            let next = immediate_next(s, rom[offset]);
            &&& rom[offset] == 0x80 ==> (kind matches InstructionKind::Lit { value } && next.ws == s.ws.push8(value) && next.rs == s.rs)
            &&& rom[offset] == 0xa0 ==> (kind matches InstructionKind::Lit2 { value } && next.ws == s.ws.push16(value) && next.rs == s.rs)
            &&& rom[offset] == 0xc0 ==> (kind matches InstructionKind::Litr { value } && next.rs == s.rs.push8(value) && next.ws == s.ws)
            &&& rom[offset] == 0xe0 ==> (kind matches InstructionKind::Lit2r { value } && next.rs == s.rs.push16(value) && next.ws == s.ws)
        }),
{
    reveal(immediate_next);
    let first = rom[offset];
    assert(first & 0x1f == 0) by (bit_vector)
        requires
            first == 0x80 || first == 0xa0 || first == 0xc0 || first == 0xe0;
    let m1 = s.memory.with_pc(s.memory.pc_plus(1));
    assert(m1.read8(m1.pc) == rom[offset + 1]);
    assert(m1.read16(m1.pc) == join_short(rom[offset + 1], rom[offset + 2]));
}

/// The instruction that starts at `offset` in `rom`, placed at `address`.
pub open spec fn decode_view(rom: Seq<u8>, offset: int, address: u16) -> DecodedView
    recommends
        0 <= offset < rom.len(),
{
    let first = rom[offset];
    let has_one = offset + 1 < rom.len();
    let has_two = offset + 2 < rom.len();
    if first & 0x1f == 0 {
        if first == 0x00 {
            (seq![first], InstructionKind::Brk, "BRK"@, MnemonicCategory::ControlFlow)
        } else if first == 0x20 || first == 0x40 || first == 0x60 {
            if has_two {
                jump_view(first, rom[offset + 1], rom[offset + 2], address)
            } else {
                raw_byte_view(first)
            }
        } else if first == 0x80 || first == 0xc0 {
            if has_one {
                let value = rom[offset + 1];
                let kind = if first == 0x80 {
                    InstructionKind::Lit { value }
                } else {
                    InstructionKind::Litr { value }
                };
                let mnemonic = if first == 0x80 { "LIT"@ } else { "LITr"@ };
                (seq![first, value], kind, mnemonic, MnemonicCategory::Literal)
            } else {
                raw_byte_view(first)
            }
        } else if first == 0xa0 || first == 0xe0 {
            if has_two {
                let value = join_short(rom[offset + 1], rom[offset + 2]);
                let kind = if first == 0xa0 {
                    InstructionKind::Lit2 { value }
                } else {
                    InstructionKind::Lit2r { value }
                };
                let mnemonic = if first == 0xa0 { "LIT2"@ } else { "LIT2r"@ };
                (seq![first, rom[offset + 1], rom[offset + 2]], kind, mnemonic, MnemonicCategory::Literal)
            } else {
                raw_byte_view(first)
            }
        } else {
            raw_byte_view(first)
        }
    } else {
        let (opcode, category) = base_instruction(first & 0x1f);
        let bits = first & 0xe0;
        (
            seq![first],
            InstructionKind::Regular { opcode, modes: OpCodeModes(bits) },
            opcode_mnemonic(opcode) + mode_suffix(bits),
            category,
        )
    }
}

/// Each base operation number names the opcode that encodes to it.
pub proof fn lemma_base_instruction(number: u8)
    requires
        1 <= number <= 0x1f,
    ensures
        opcode_byte(base_instruction(number).0) == number,
{
}

/// An instruction byte of a regular opcode (any but BRK and LIT) with any modes disassembles to
/// that opcode with those modes, under a mnemonic that reads back as the same instruction: what
/// the disassembler shows assembles to the byte it came from.
pub proof fn lemma_instruction_roundtrip(op: OpCode, bits: u8, rom: Seq<u8>, offset: int, address: u16)
    requires
        1 <= opcode_byte(op) <= 0x1f,
        bits & 0x1f == 0,
        0 <= offset < rom.len(),
        rom[offset] == opcode_byte(op) | bits,
    ensures
        decode_view(rom, offset, address).1 == (InstructionKind::Regular { opcode: op, modes: OpCodeModes(bits) }),
        opcode_with_modes(decode_view(rom, offset, address).2) == Some((op, OpCodeModes(bits))),
        opcode_byte(op) | OpCodeModes(bits).0 == rom[offset],
{
    let n = opcode_byte(op);
    let first = rom[offset];
    assert((n | bits) & 0x1f == n && (n | bits) & 0xe0 == bits && (n | bits) & 0x1f != 0) by (bit_vector)
        requires
            1 <= n <= 0x1f,
            bits & 0x1f == 0;
    lemma_base_instruction(n);
    lemma_opcode_byte_injective(base_instruction(n).0, op);
    lemma_mnemonic_roundtrip(op);
    let mnemonic = opcode_mnemonic(op) + mode_suffix(bits);
    assert(mnemonic.take(3) =~= opcode_mnemonic(op));
    assert(mnemonic.skip(3) =~= mode_suffix(bits));
    assert(bits == 0 || bits == 0x20 || bits == 0x40 || bits == 0x60 || bits == 0x80 || bits == 0xa0 || bits == 0xc0 || bits == 0xe0)
        by (bit_vector)
        requires
            bits & 0x1f == 0;
    assert((bits & 0x20 != 0) == (bits == 0x20 || bits == 0x60 || bits == 0xa0 || bits == 0xe0)
        && (bits & 0x40 != 0) == (bits == 0x40 || bits == 0x60 || bits == 0xc0 || bits == 0xe0)
        && (bits & 0x80 != 0) == (bits >= 0x80)) by (bit_vector)
        requires
            bits & 0x1f == 0;
    assert(0u8 & 0x20u8 == 0 && 0u8 | 0x20u8 == 0x20 && 0u8 & 0x40u8 == 0 && 0u8 | 0x40u8 == 0x40
        && 0u8 & 0x80u8 == 0 && 0u8 | 0x80u8 == 0x80 && 0x20u8 & 0x40u8 == 0 && 0x20u8 | 0x40u8 == 0x60
        && 0x20u8 & 0x80u8 == 0 && 0x20u8 | 0x80u8 == 0xa0 && 0x40u8 & 0x80u8 == 0 && 0x40u8 | 0x80u8 == 0xc0
        && 0x60u8 & 0x80u8 == 0 && 0x60u8 | 0x80u8 == 0xe0) by (bit_vector);
    assert(op != OpCode::BRK);
    reveal_with_fuel(modes_of, 4);
    if bits == 0 {
        assert(mode_suffix(bits) =~= Seq::<char>::empty());
    } else if bits == 0x20 {
        assert(mode_suffix(bits) =~= seq!['2']);
    } else if bits == 0x40 {
        assert(mode_suffix(bits) =~= seq!['r']);
    } else if bits == 0x60 {
        assert(mode_suffix(bits) =~= seq!['2', 'r']);
        assert(seq!['2', 'r'].drop_last() =~= seq!['2']);
    } else if bits == 0x80 {
        assert(mode_suffix(bits) =~= seq!['k']);
    } else if bits == 0xa0 {
        assert(mode_suffix(bits) =~= seq!['2', 'k']);
        assert(seq!['2', 'k'].drop_last() =~= seq!['2']);
    } else if bits == 0xc0 {
        assert(mode_suffix(bits) =~= seq!['r', 'k']);
        assert(seq!['r', 'k'].drop_last() =~= seq!['r']);
    } else {
        assert(mode_suffix(bits) =~= seq!['2', 'r', 'k']);
        assert(seq!['2', 'r', 'k'].drop_last() =~= seq!['2', 'r']);
        assert(seq!['2', 'r'].drop_last() =~= seq!['2']);
    }
}

fn base_instruction_of(number: u8) -> (result: (OpCode, MnemonicCategory))
    ensures
        result == base_instruction(number),
{
    match number {
        0x01 => (OpCode::INC, MnemonicCategory::Arithmetic),
        0x02 => (OpCode::POP, MnemonicCategory::MemoryOrStack),
        0x03 => (OpCode::NIP, MnemonicCategory::MemoryOrStack),
        0x04 => (OpCode::SWP, MnemonicCategory::MemoryOrStack),
        0x05 => (OpCode::ROT, MnemonicCategory::MemoryOrStack),
        0x06 => (OpCode::DUP, MnemonicCategory::MemoryOrStack),
        0x07 => (OpCode::OVR, MnemonicCategory::MemoryOrStack),
        0x08 => (OpCode::EQU, MnemonicCategory::Comparison),
        0x09 => (OpCode::NEQ, MnemonicCategory::Comparison),
        0x0a => (OpCode::GTH, MnemonicCategory::Comparison),
        0x0b => (OpCode::LTH, MnemonicCategory::Comparison),
        0x0c => (OpCode::JMP, MnemonicCategory::ControlFlow),
        0x0d => (OpCode::JCN, MnemonicCategory::ControlFlow),
        0x0e => (OpCode::JSR, MnemonicCategory::ControlFlow),
        0x0f => (OpCode::STH, MnemonicCategory::MemoryOrStack),
        0x10 => (OpCode::LDZ, MnemonicCategory::MemoryOrStack),
        0x11 => (OpCode::STZ, MnemonicCategory::MemoryOrStack),
        0x12 => (OpCode::LDR, MnemonicCategory::MemoryOrStack),
        0x13 => (OpCode::STR, MnemonicCategory::MemoryOrStack),
        0x14 => (OpCode::LDA, MnemonicCategory::MemoryOrStack),
        0x15 => (OpCode::STA, MnemonicCategory::MemoryOrStack),
        0x16 => (OpCode::DEI, MnemonicCategory::MemoryOrStack),
        0x17 => (OpCode::DEO, MnemonicCategory::MemoryOrStack),
        0x18 => (OpCode::ADD, MnemonicCategory::Arithmetic),
        0x19 => (OpCode::SUB, MnemonicCategory::Arithmetic),
        0x1a => (OpCode::MUL, MnemonicCategory::Arithmetic),
        0x1b => (OpCode::DIV, MnemonicCategory::Arithmetic),
        0x1c => (OpCode::AND, MnemonicCategory::Arithmetic),
        0x1d => (OpCode::ORA, MnemonicCategory::Arithmetic),
        0x1e => (OpCode::EOR, MnemonicCategory::Arithmetic),
        0x1f => (OpCode::SFT, MnemonicCategory::Arithmetic),
        _ => (OpCode::BRK, MnemonicCategory::Raw),
    }
}

fn text_of(literal: &str) -> (text: String)
    ensures
        text@ == literal@,
{
    literal.to_owned()
}

/// The view of an optional symbol table.
pub open spec fn table_view(table: Option<&SymbolTable>) -> Option<SymbolEntries> {
    match table {
        Some(t) => Some(t@),
        None => None,
    }
}

/// The first symbol at `address`, by position.
pub open spec fn first_symbol_at(entries: SymbolEntries, address: u16) -> Option<int> {
    if exists|i: int| first_at(entries, address, i) {
        Some(choose|i: int| first_at(entries, address, i))
    } else {
        None
    }
}

/// The nearest symbol at or below `address`, by position.
pub open spec fn nearest_symbol(entries: SymbolEntries, address: u16) -> Option<int> {
    if exists|i: int| nearest_at_or_below(entries, address, i) {
        Some(choose|i: int| nearest_at_or_below(entries, address, i))
    } else {
        None
    }
}

pub proof fn lemma_first_at_unique(entries: SymbolEntries, address: u16, i: int, j: int)
    requires
        first_at(entries, address, i),
        first_at(entries, address, j),
    ensures
        i == j,
{
    if i < j {
        assert(entries[i].1 != address);
    } else if j < i {
        assert(entries[j].1 != address);
    }
}

pub proof fn lemma_nearest_unique(entries: SymbolEntries, address: u16, i: int, j: int)
    requires
        nearest_at_or_below(entries, address, i),
        nearest_at_or_below(entries, address, j),
    ensures
        i == j,
{
    assert(entries[i].1 <= entries[j].1);
    assert(entries[j].1 <= entries[i].1);
    if i < j {
        assert(entries[i].1 != entries[j].1);
    } else if j < i {
        assert(entries[j].1 != entries[i].1);
    }
}

/// `value` in lowercase hexadecimal without leading zeros.
pub open spec fn hex_min_text(value: nat) -> Seq<char>
    decreases value,
{
    if value < 16 {
        seq![hex_digit(value as int)]
    } else {
        hex_min_text(value / 16).push(hex_digit((value % 16) as int))
    }
}

/// `<name>` for the first symbol exactly at `address`.
pub open spec fn exact_symbol_text(address: u16, table: Option<SymbolEntries>) -> Option<Seq<char>> {
    match table {
        None => None,
        Some(entries) => match first_symbol_at(entries, address) {
            Some(i) => Some(seq!['<'] + entries[i].0 + seq!['>']),
            None => None,
        },
    }
}

/// `<name>` for a symbol at `address`, or `<name+0xN>` for the nearest symbol below it when it
/// is at most 256 bytes away.
pub open spec fn symbol_annotation_text(address: u16, table: Option<SymbolEntries>) -> Option<Seq<char>> {
    match table {
        None => None,
        Some(entries) => match first_symbol_at(entries, address) {
            Some(i) => Some(seq!['<'] + entries[i].0 + seq!['>']),
            None => match nearest_symbol(entries, address) {
                Some(i) => {
                    let offset = (address - entries[i].1) as nat;
                    if 0 < offset <= 0x100 {
                        Some(seq!['<'] + entries[i].0 + seq!['+', '0', 'x'] + hex_min_text(offset) + seq!['>'])
                    } else {
                        None
                    }
                },
                None => None,
            },
        },
    }
}

/// `text` wrapped in the ANSI escape sequences that set the style `code` and reset it, when
/// colors are on.
pub open spec fn colorize(colors: bool, code: Seq<char>, text: Seq<char>) -> Seq<char> {
    if colors {
        seq!['\x1b', '['] + code + seq!['m'] + text + seq!['\x1b', '[', '0', 'm']
    } else {
        text
    }
}

/// The style of a mnemonic of each category.
pub open spec fn category_code(category: MnemonicCategory) -> Seq<char> {
    match category {
        MnemonicCategory::ControlFlow => "1;35"@,
        MnemonicCategory::Literal => "1;36"@,
        MnemonicCategory::Arithmetic => "1;32"@,
        MnemonicCategory::Comparison => "1;33"@,
        MnemonicCategory::MemoryOrStack => "1;34"@,
        MnemonicCategory::Raw => "1;37"@,
    }
}

/// A space and the annotation, when there is one.
pub open spec fn annotation_suffix(annotation: Option<Seq<char>>, colors: bool) -> Seq<char> {
    match annotation {
        Some(text) => seq![' '] + colorize(colors, "1;36"@, text),
        None => Seq::<char>::empty(),
    }
}

/// Bytes as two-digit hex numbers separated by spaces.
pub open spec fn bytes_text(bytes: Seq<u8>) -> Seq<char>
    decreases bytes.len(),
{
    if bytes.len() == 0 {
        seq![]
    } else if bytes.len() == 1 {
        hex_text(bytes[0] as nat, 2)
    } else {
        bytes_text(bytes.drop_last()) + seq![' '] + hex_text(bytes.last() as nat, 2)
    }
}

/// `text` left-aligned in a field of `width` characters.
pub open spec fn pad_right(text: Seq<char>, width: nat) -> Seq<char> {
    if text.len() < width {
        text + spaces((width - text.len()) as nat)
    } else {
        text
    }
}

/// The operand column of an instruction, with its symbol annotation.
pub open spec fn operand_text(kind: InstructionKind, table: Option<SymbolEntries>, colors: bool) -> Seq<char> {
    match kind {
        InstructionKind::Jci { target_address, .. } => colorize(colors, "32"@, hex_text(target_address as nat, 4))
            + annotation_suffix(symbol_annotation_text(target_address, table), colors),
        InstructionKind::Jmi { target_address, .. } => colorize(colors, "32"@, hex_text(target_address as nat, 4))
            + annotation_suffix(symbol_annotation_text(target_address, table), colors),
        InstructionKind::Jsi { target_address, .. } => colorize(colors, "32"@, hex_text(target_address as nat, 4))
            + annotation_suffix(symbol_annotation_text(target_address, table), colors),
        InstructionKind::Lit { value } => colorize(colors, "33"@, seq!['#'] + hex_text(value as nat, 2))
            + annotation_suffix(exact_symbol_text(value as u16, table), colors),
        InstructionKind::Litr { value } => colorize(colors, "33"@, seq!['#'] + hex_text(value as nat, 2))
            + annotation_suffix(exact_symbol_text(value as u16, table), colors),
        InstructionKind::Lit2 { value } => colorize(colors, "33"@, seq!['#'] + hex_text(value as nat, 4))
            + annotation_suffix(symbol_annotation_text(value, table), colors),
        InstructionKind::Lit2r { value } => colorize(colors, "33"@, seq!['#'] + hex_text(value as nat, 4))
            + annotation_suffix(symbol_annotation_text(value, table), colors),
        _ => Seq::<char>::empty(),
    }
}

/// One listing line: address, raw bytes, mnemonic and operand, in tab-separated columns, each
/// styled when colors are on.
pub open spec fn instruction_line_text(address: u16, view: DecodedView, table: Option<SymbolEntries>, colors: bool) -> Seq<char> {
    colorize(colors, "36"@, seq![' ', ' '] + hex_text(address as nat, 4) + seq![':']) + seq!['\t']
        + colorize(colors, "90"@, pad_right(bytes_text(view.0), 10)) + seq!['\t']
        + colorize(colors, category_code(view.3), pad_right(view.2, 8)) + operand_text(view.1, table, colors)
}

/// Appends `text` styled with `code` when colors are on.
fn push_colored(out: &mut String, colors: bool, code: &str, text: &str)
    ensures
        final(out)@ == old(out)@ + colorize(colors, code@, text@),
{
    if colors {
        push_char(out, '\x1b');
        push_char(out, '[');
        push_str(out, code);
        push_char(out, 'm');
        push_str(out, text);
        push_char(out, '\x1b');
        push_char(out, '[');
        push_char(out, '0');
        push_char(out, 'm');
    } else {
        push_str(out, text);
    }
}

fn category_code_text(category: MnemonicCategory) -> (code: &'static str)
    ensures
        code@ == category_code(category),
{
    match category {
        MnemonicCategory::ControlFlow => "1;35",
        MnemonicCategory::Literal => "1;36",
        MnemonicCategory::Arithmetic => "1;32",
        MnemonicCategory::Comparison => "1;33",
        MnemonicCategory::MemoryOrStack => "1;34",
        MnemonicCategory::Raw => "1;37",
    }
}

/// Appends `value` in hexadecimal without leading zeros.
pub fn push_hex_min(out: &mut String, value: u64)
    ensures
        final(out)@ == old(out)@ + hex_min_text(value as nat),
    decreases value,
{
    if value >= 16 {
        push_hex_min(out, value / 16);
    }
    push_char(out, hex_digit_char((value % 16) as u8));
}

/// Appends `text` left-aligned in a field of `width` characters.
pub(crate) fn push_padded_right(out: &mut String, text: &str, width: usize)
    ensures
        final(out)@ == old(out)@ + pad_right(text@, width as nat),
{
    let length = chars_of(text).len();
    push_str(out, text);
    if length < width {
        push_repeated(out, ' ', width - length);
        assert(Seq::new((width - length) as nat, |i: int| ' ') =~= spaces((width - length) as nat));
    }
}

fn push_annotation(out: &mut String, annotation: Option<String>, colors: bool)
    ensures
        final(out)@ == old(out)@ + annotation_suffix(match annotation { Some(a) => Some(a@), None => None }, colors),
{
    match annotation {
        Some(text) => {
            push_char(out, ' ');
            push_colored(out, colors, "1;36", text.as_str());
        },
        None => {},
    }
}

/// One header line per symbol: `0000abcd <name>:`.
pub open spec fn symbol_headers(symbols: SymbolEntries, address: u16, colors: bool) -> Seq<char>
    decreases symbols.len(),
{
    if symbols.len() == 0 {
        seq![]
    } else {
        symbol_headers(symbols.drop_last(), address, colors)
            + colorize(colors, "1;33"@, hex_text(address as nat, 8) + seq![' ', '<'] + symbols.last().0 + seq!['>', ':'])
            + seq!['\n']
    }
}

/// The output so far ends with an empty line.
pub open spec fn ends_with_blank_line(output: Seq<char>) -> bool {
    output.len() >= 2 && output[output.len() - 1] == '\n' && output[output.len() - 2] == '\n'
}

/// The symbol headers printed before the instruction at `address`, set off from what came
/// before by an empty line.
pub open spec fn header_text(output: Seq<char>, address: u16, table: Option<SymbolEntries>, colors: bool) -> Seq<char> {
    match table {
        None => Seq::<char>::empty(),
        Some(entries) => {
            let here = entries_at(entries, address);
            if here.len() == 0 {
                Seq::<char>::empty()
            } else {
                (if output.len() > 0 && !ends_with_blank_line(output) { seq!['\n'] } else { Seq::<char>::empty() })
                    + symbol_headers(here, address, colors)
            }
        },
    }
}

/// Whether a symbol is defined at `address`.
pub open spec fn has_symbol_at(table: Option<SymbolEntries>, address: u16) -> bool {
    match table {
        Some(entries) => entries_at(entries, address).len() > 0,
        None => false,
    }
}

pub proof fn lemma_decode_len(rom: Seq<u8>, offset: int, address: u16)
    requires
        0 <= offset < rom.len(),
    ensures
        1 <= decode_view(rom, offset, address).0.len() <= 3,
        offset + decode_view(rom, offset, address).0.len() <= rom.len(),
{
}

/// The listing of `rom` from `offset` on, after `output`, with `zeros` zero bytes just before
/// `offset` that counted towards a suppressed run. From the fourth zero byte in a row with no
/// symbol on it, zeros are shown as a single `...` line, unless all zeros are to be shown.
pub open spec fn listing_from(
    rom: Seq<u8>,
    table: Option<SymbolEntries>,
    options: DisassemblyOptions,
    colors: bool,
    offset: int,
    zeros: nat,
    output: Seq<char>,
) -> Seq<char>
    decreases rom.len() - offset,
{
    if offset < 0 || offset >= rom.len() {
        output
    } else {
        let address = wrap_u16(options.base_address + offset);
        let counts = !options.disassemble_zeroes && !has_symbol_at(table, address) && rom[offset] == 0;
        if counts && zeros + 1 >= 4 {
            let more = if zeros + 1 == 4 { seq!['.', '.', '.', '\n'] } else { Seq::<char>::empty() };
            listing_from(rom, table, options, colors, offset + 1, zeros + 1, output + more)
        } else {
            let view = decode_view(rom, offset, address);
            proof {
                lemma_decode_len(rom, offset, address);
            }
            let text = output + header_text(output, address, table, colors) + instruction_line_text(address, view, table, colors)
                + seq!['\n'];
            listing_from(rom, table, options, colors, offset + view.0.len(), if counts { zeros + 1 } else { 0 }, text)
        }
    }
}

/// Appends the characters of `text`.
fn append_text(out: &mut Vec<char>, text: &str)
    ensures
        final(out)@ == old(out)@ + text@,
{
    let chars = chars_of(text);
    let mut index: usize = 0;
    while index < chars.len()
        invariant
            index <= chars@.len(),
            chars@ == text@,
            out@ == old(out)@ + chars@.take(index as int),
        decreases chars@.len() - index,
    {
        out.push(chars[index]);
        index += 1;
        assert(chars@.take(index as int) =~= chars@.take(index - 1).push(chars@[index - 1]));
    }
    assert(chars@.take(index as int) =~= chars@);
}

/// Disassembles Uxn bytecode into an objdump-like listing.
/// Disassembles Uxn bytecode into an objdump-like listing.
pub struct Disassembler;

impl Disassembler {
    fn raw_byte_instruction(address: u16, byte: u8) -> (instruction: DecodedInstruction)
        ensures
            instruction.address == address,
            decoded_view(instruction) == raw_byte_view(byte),
    {
        let mut mnemonic = String::new();
        push_char(&mut mnemonic, '#');
        push_hex(&mut mnemonic, byte as u64, 2);
        DecodedInstruction {
            address,
            bytes: vec![byte],
            kind: InstructionKind::RawByte(byte),
            mnemonic,
            category: MnemonicCategory::Raw,
        }
    }

    fn decode_jump_immediate(rom: &[u8], offset: usize, address: u16, first_byte: u8) -> (instruction: DecodedInstruction)
        requires
            offset + 2 < rom@.len(),
            first_byte == 0x20 || first_byte == 0x40 || first_byte == 0x60,
        ensures
            instruction.address == address,
            decoded_view(instruction) == jump_view(first_byte, rom@[offset + 1], rom@[offset + 2], address),
    {
        let length = rom.len();
        let high = rom[offset + 1];
        let low = rom[offset + 2];
        let operand = short_from_bytes(high, low);
        let offset_value = operand as i16;
        assert(offset_value as int == signed16(operand)) by (bit_vector)
            requires
                offset_value == operand as i16;
        let next_instruction_address = address.wrapping_add(3);
        let target_address = next_instruction_address.wrapping_add(operand);
        let (kind, mnemonic) = if first_byte == 0x20 {
            (InstructionKind::Jci { offset: offset_value, target_address }, text_of("JCI"))
        } else if first_byte == 0x40 {
            (InstructionKind::Jmi { offset: offset_value, target_address }, text_of("JMI"))
        } else {
            (InstructionKind::Jsi { offset: offset_value, target_address }, text_of("JSI"))
        };
        DecodedInstruction {
            address,
            bytes: vec![first_byte, high, low],
            kind,
            mnemonic,
            category: MnemonicCategory::ControlFlow,
        }
    }

    /// Decodes the instruction at `offset` in `rom`, placed at `address`; `None` past the end.
    pub fn decode_instruction(rom: &[u8], offset: usize, address: u16) -> (instruction: Option<DecodedInstruction>)
        ensures
            match instruction {
                Some(decoded) => offset < rom@.len() && decoded.address == address
                    && decoded_view(decoded) == decode_view(rom@, offset as int, address),
                None => offset >= rom@.len(),
            },
    {
        if offset >= rom.len() {
            return None;
        }
        let first_byte = rom[offset];
        let has_one = rom.len() - offset > 1;
        let has_two = rom.len() - offset > 2;
        if first_byte & 0x1f == 0 {
            if first_byte == 0x00 {
                Some(DecodedInstruction {
                    address,
                    bytes: vec![first_byte],
                    kind: InstructionKind::Brk,
                    mnemonic: text_of("BRK"),
                    category: MnemonicCategory::ControlFlow,
                })
            } else if first_byte == 0x20 || first_byte == 0x40 || first_byte == 0x60 {
                if has_two {
                    Some(Self::decode_jump_immediate(rom, offset, address, first_byte))
                } else {
                    Some(Self::raw_byte_instruction(address, first_byte))
                }
            } else if first_byte == 0x80 || first_byte == 0xc0 {
                if has_one {
                    let value = rom[offset + 1];
                    let (kind, mnemonic) = if first_byte == 0x80 {
                        (InstructionKind::Lit { value }, text_of("LIT"))
                    } else {
                        (InstructionKind::Litr { value }, text_of("LITr"))
                    };
                    Some(DecodedInstruction {
                        address,
                        bytes: vec![first_byte, value],
                        kind,
                        mnemonic,
                        category: MnemonicCategory::Literal,
                    })
                } else {
                    Some(Self::raw_byte_instruction(address, first_byte))
                }
            } else if first_byte == 0xa0 || first_byte == 0xe0 {
                if has_two {
                    let high = rom[offset + 1];
                    let low = rom[offset + 2];
                    let value = short_from_bytes(high, low);
                    let (kind, mnemonic) = if first_byte == 0xa0 {
                        (InstructionKind::Lit2 { value }, text_of("LIT2"))
                    } else {
                        (InstructionKind::Lit2r { value }, text_of("LIT2r"))
                    };
                    Some(DecodedInstruction {
                        address,
                        bytes: vec![first_byte, high, low],
                        kind,
                        mnemonic,
                        category: MnemonicCategory::Literal,
                    })
                } else {
                    Some(Self::raw_byte_instruction(address, first_byte))
                }
            } else {
                Some(Self::raw_byte_instruction(address, first_byte))
            }
        } else {
            let base_opcode_number = first_byte & 0x1f;
            let modes = OpCodeModes::from(first_byte & 0xe0);
            let (opcode, category) = base_instruction_of(base_opcode_number);
            let (a, b, c) = opcode.letters();
            let mut mnemonic = String::new();
            push_char(&mut mnemonic, a);
            push_char(&mut mnemonic, b);
            push_char(&mut mnemonic, c);
            let ghost base_text = mnemonic@;
            if modes.is_short() {
                push_char(&mut mnemonic, '2');
            }
            if modes.is_return() {
                push_char(&mut mnemonic, 'r');
            }
            if modes.is_keep() {
                push_char(&mut mnemonic, 'k');
            }
            assert(base_text =~= opcode_mnemonic(opcode));
            assert(mnemonic@ =~= opcode_mnemonic(opcode) + mode_suffix(first_byte & 0xe0));
            Some(DecodedInstruction {
                address,
                bytes: vec![first_byte],
                kind: InstructionKind::Regular { opcode, modes },
                mnemonic,
                category,
            })
        }
    }

    /// Raw bytes as two-digit hex numbers separated by spaces.
    pub(crate) fn bytes_string(bytes: &Vec<u8>) -> (text: String)
        ensures
            text@ == bytes_text(bytes@),
    {
        let mut text = String::new();
        let mut index: usize = 0;
        while index < bytes.len()
            invariant
                index <= bytes@.len(),
                text@ == bytes_text(bytes@.take(index as int)),
            decreases bytes@.len() - index,
        {
            if index > 0 {
                push_char(&mut text, ' ');
            }
            push_hex(&mut text, bytes[index] as u64, 2);
            index += 1;
            assert(bytes@.take(index as int).drop_last() =~= bytes@.take(index - 1));
        }
        assert(bytes@.take(index as int) =~= bytes@);
        text
    }

    /// Appends the operand column of an instruction of kind `kind`.
    fn push_operand(line: &mut String, kind: &InstructionKind, symbol_table: Option<&SymbolTable>, colors: bool)
        ensures
            final(line)@ == old(line)@ + operand_text(*kind, table_view(symbol_table), colors),
    {
        match kind {
            InstructionKind::Jci { target_address, .. }
            | InstructionKind::Jmi { target_address, .. }
            | InstructionKind::Jsi { target_address, .. } => {
                let mut text = String::new();
                push_hex(&mut text, *target_address as u64, 4);
                push_colored(line, colors, "32", text.as_str());
                push_annotation(line, Self::resolve_symbol_annotation(*target_address, symbol_table), colors);
            },
            InstructionKind::Lit { value } | InstructionKind::Litr { value } => {
                let mut text = String::new();
                push_char(&mut text, '#');
                push_hex(&mut text, *value as u64, 2);
                push_colored(line, colors, "33", text.as_str());
                push_annotation(line, Self::resolve_exact_symbol(*value as u16, symbol_table), colors);
            },
            InstructionKind::Lit2 { value } | InstructionKind::Lit2r { value } => {
                let mut text = String::new();
                push_char(&mut text, '#');
                push_hex(&mut text, *value as u64, 4);
                push_colored(line, colors, "33", text.as_str());
                push_annotation(line, Self::resolve_symbol_annotation(*value, symbol_table), colors);
            },
            InstructionKind::Brk | InstructionKind::Regular { .. } | InstructionKind::RawByte(_) => {},
        }
    }

    /// The listing line of `instruction`: address, raw bytes, mnemonic and annotated operand.
    fn format_instruction_line(instruction: &DecodedInstruction, symbol_table: Option<&SymbolTable>, colors: bool) -> (line: String)
        ensures
            line@ == instruction_line_text(instruction.address, decoded_view(*instruction), table_view(symbol_table), colors),
    {
        let mut line = String::new();
        let mut address_text = String::new();
        push_char(&mut address_text, ' ');
        push_char(&mut address_text, ' ');
        push_hex(&mut address_text, instruction.address as u64, 4);
        push_char(&mut address_text, ':');
        push_colored(&mut line, colors, "36", address_text.as_str());
        push_char(&mut line, '\t');
        let raw_bytes = Self::bytes_string(&instruction.bytes);
        let mut raw_padded = String::new();
        push_padded_right(&mut raw_padded, raw_bytes.as_str(), 10);
        push_colored(&mut line, colors, "90", raw_padded.as_str());
        push_char(&mut line, '\t');
        let mut mnemonic_padded = String::new();
        push_padded_right(&mut mnemonic_padded, instruction.mnemonic.as_str(), 8);
        push_colored(&mut line, colors, category_code_text(instruction.category), mnemonic_padded.as_str());
        Self::push_operand(&mut line, &instruction.kind, symbol_table, colors);
        line
    }

    /// The symbol headers before the instruction at `address`.
    fn push_headers(output: &mut Vec<char>, address: u16, symbol_table: Option<&SymbolTable>, colors: bool)
        ensures
            final(output)@ == old(output)@ + header_text(old(output)@, address, table_view(symbol_table), colors),
    {
        let table = match symbol_table {
            Some(table) => table,
            None => return,
        };
        let symbols_here = table.lookup_all_at_address(address);
        if symbols_here.len() == 0 {
            return;
        }
        let length = output.len();
        let blank = length >= 2 && output[length - 1] == '\n' && output[length - 2] == '\n';
        if length > 0 && !blank {
            output.push('\n');
        }
        let ghost start = output@;
        let ghost here = entries_at(table@, address);
        let mut index: usize = 0;
        while index < symbols_here.len()
            invariant
                index <= symbols_here@.len(),
                symbols_here@.len() == here.len(),
                forall|i: int| 0 <= i < symbols_here@.len() ==> (#[trigger] symbols_here@[i])@ == here[i],
                output@ == start + symbol_headers(here.take(index as int), address, colors),
            decreases symbols_here@.len() - index,
        {
            let mut header = String::new();
            push_hex(&mut header, address as u64, 8);
            push_char(&mut header, ' ');
            push_char(&mut header, '<');
            push_str(&mut header, symbols_here[index].name());
            push_char(&mut header, '>');
            push_char(&mut header, ':');
            let mut line = String::new();
            push_colored(&mut line, colors, "1;33", header.as_str());
            push_char(&mut line, '\n');
            append_text(output, line.as_str());
            index += 1;
            assert(here.take(index as int).drop_last() =~= here.take(index - 1));
            assert(output@ =~= start + symbol_headers(here.take(index as int), address, colors));
        }
        assert(here.take(index as int) =~= here);
    }

    /// The objdump-style listing of `rom`: one line per instruction, symbol headers where symbols
    /// are defined, and long runs of zero bytes shortened to `...` unless asked otherwise.
    pub fn disassemble(rom: &[u8], symbol_table: Option<&SymbolTable>, options: &DisassemblyOptions) -> (listing: String)
        ensures
            listing@ == listing_from(rom@, table_view(symbol_table), *options, false, 0, 0, Seq::<char>::empty()),
    {
        Self::listing(rom, symbol_table, options, false)
    }

    /// The listing, styled for a terminal when `colors` is on.
    pub fn listing(rom: &[u8], symbol_table: Option<&SymbolTable>, options: &DisassemblyOptions, colors: bool) -> (listing: String)
        ensures
            listing@ == listing_from(rom@, table_view(symbol_table), *options, colors, 0, 0, Seq::<char>::empty()),
    {
        let mut output: Vec<char> = Vec::new();
        let mut offset: usize = 0;
        let mut consecutive_zero_count: usize = 0;
        let ghost table = table_view(symbol_table);
        while offset < rom.len()
            invariant
                offset <= rom@.len(),
                consecutive_zero_count <= offset,
                table == table_view(symbol_table),
                listing_from(rom@, table, *options, colors, 0, 0, Seq::<char>::empty())
                    == listing_from(rom@, table, *options, colors, offset as int, consecutive_zero_count as nat, output@),
            decreases rom@.len() - offset,
        {
            let address = add16_wide(options.base_address, offset);
            let has_symbol = match symbol_table {
                Some(t) => t.lookup_all_at_address(address).len() > 0,
                None => false,
            };
            assert(has_symbol == has_symbol_at(table, address));
            let counts = !options.disassemble_zeroes && !has_symbol && rom[offset] == 0;
            let ghost start_output = output@;
            let ghost start_offset = offset as int;
            let ghost start_zeros = consecutive_zero_count as nat;
            if counts && consecutive_zero_count >= 3 {
                if consecutive_zero_count == 3 {
                    output.push('.');
                    output.push('.');
                    output.push('.');
                    output.push('\n');
                }
                consecutive_zero_count += 1;
                offset += 1;
                proof {
                    let more = if start_zeros + 1 == 4 { seq!['.', '.', '.', '\n'] } else { Seq::<char>::empty() };
                    assert(output@ =~= start_output + more);
                }
            } else {
                Self::push_headers(&mut output, address, symbol_table, colors);
                let decoded = Self::decode_instruction(rom, offset, address);
                let instruction = match decoded {
                    Some(instruction) => instruction,
                    None => {
                        assert(false);
                        return String::new();
                    },
                };
                proof {
                    lemma_decode_len(rom@, offset as int, address);
                }
                let line = Self::format_instruction_line(&instruction, symbol_table, colors);
                append_text(&mut output, line.as_str());
                output.push('\n');
                consecutive_zero_count = if counts { consecutive_zero_count + 1 } else { 0 };
                offset += instruction.byte_len();
                proof {
                    let view = decode_view(rom@, start_offset, address);
                    assert(output@ =~= start_output + header_text(start_output, address, table, colors)
                        + instruction_line_text(address, view, table, colors) + seq!['\n']);
                }
            }
        }
        string_from_chars(output.as_slice())
    }

    /// `<name>` for the first symbol exactly at `address`.
    fn resolve_exact_symbol(address: u16, symbol_table: Option<&SymbolTable>) -> (annotation: Option<String>)
        ensures
            match annotation {
                Some(a) => exact_symbol_text(address, table_view(symbol_table)) == Some(a@),
                None => exact_symbol_text(address, table_view(symbol_table)) is None,
            },
    {
        let table = match symbol_table {
            Some(table) => table,
            None => return None,
        };
        match table.lookup_address(address) {
            Some(symbol) => {
                proof {
                    let i = choose|i: int| first_at(table@, address, i) && symbol@ == table@[i];
                    let chosen = choose|k: int| first_at(table@, address, k);
                    lemma_first_at_unique(table@, address, i, chosen);
                }
                let mut text = String::new();
                push_char(&mut text, '<');
                push_str(&mut text, symbol.name());
                push_char(&mut text, '>');
                Some(text)
            },
            None => None,
        }
    }

    /// `<name>` or `<name+0xN>` for the symbol at or nearest below `address`.
    fn resolve_symbol_annotation(address: u16, symbol_table: Option<&SymbolTable>) -> (annotation: Option<String>)
        ensures
            match annotation {
                Some(a) => symbol_annotation_text(address, table_view(symbol_table)) == Some(a@),
                None => symbol_annotation_text(address, table_view(symbol_table)) is None,
            },
    {
        let table = match symbol_table {
            Some(table) => table,
            None => return None,
        };
        match table.lookup_address(address) {
            Some(symbol) => {
                proof {
                    let i = choose|i: int| first_at(table@, address, i) && symbol@ == table@[i];
                    let chosen = choose|k: int| first_at(table@, address, k);
                    lemma_first_at_unique(table@, address, i, chosen);
                }
                let mut text = String::new();
                push_char(&mut text, '<');
                push_str(&mut text, symbol.name());
                push_char(&mut text, '>');
                return Some(text);
            },
            None => {},
        }
        match table.find_nearest_symbol(address) {
            Some((symbol, offset)) => {
                proof {
                    let i = choose|i: int| nearest_at_or_below(table@, address, i) && symbol@ == table@[i] && offset == address - table@[i].1;
                    let chosen = choose|k: int| nearest_at_or_below(table@, address, k);
                    lemma_nearest_unique(table@, address, i, chosen);
                }
                if offset > 0 && offset <= 0x0100 {
                    let mut text = String::new();
                    push_char(&mut text, '<');
                    push_str(&mut text, symbol.name());
                    push_char(&mut text, '+');
                    push_char(&mut text, '0');
                    push_char(&mut text, 'x');
                    push_hex_min(&mut text, offset as u64);
                    push_char(&mut text, '>');
                    Some(text)
                } else {
                    None
                }
            },
            None => {
                assert(!exists|i: int| nearest_at_or_below(table@, address, i));
                None
            },
        }
    }
}

} // verus!
