use vstd::prelude::*;
use super::label::Label;
use super::location::Location;
use super::opcode::{opcode_byte, OpCode, OpCodeModes};
use super::source_map::SourceMap;
use super::statement::{statement_len, ReferenceKind, Statement, StatementKind};
use super::symbol_table::{SymbolEntries, SymbolTable};
use super::disassembler::{decode_view, reported_jump_target, InstructionKind};
use crate::uxn::bytes::{high_byte, low_byte, short_high, short_low, wrap_u16, wrap_u8};
use crate::text::{push_char, push_str};

verus! {

/// The output of assembling a program: the ROM bytes (from address 0x0100 on) and the symbols.
#[derive(Debug)]
pub struct AssembledProgram {
    pub rom: Vec<u8>,
    pub symbols: SymbolTable,
}

/// What went wrong during assembly.
#[derive(Debug, PartialEq, Eq)]
pub enum AssemblerErrorKind {
    UndefinedLabel { name: String },
    WriteToZeroPage,
    MemoryOverwrite,
    RomTooLarge,
    DuplicateLabel { name: String },
    RelativeReferenceTooFar { name: String },
}

/// An assembly error and the place of the statement or reference that caused it.
#[derive(Debug, PartialEq, Eq)]
pub struct AssemblerError {
    kind: AssemblerErrorKind,
    location: Location,
}

/// The view of an assembly error: what went wrong, with the label name where there is one.
pub enum AssemblyFault {
    UndefinedLabel(Seq<char>),
    WriteToZeroPage,
    MemoryOverwrite,
    RomTooLarge,
    DuplicateLabel(Seq<char>),
    RelativeReferenceTooFar(Seq<char>),
}

/// The view of an error kind.
pub open spec fn fault_of(kind: AssemblerErrorKind) -> AssemblyFault {
    match kind {
        AssemblerErrorKind::UndefinedLabel { name } => AssemblyFault::UndefinedLabel(name@),
        AssemblerErrorKind::WriteToZeroPage => AssemblyFault::WriteToZeroPage,
        AssemblerErrorKind::MemoryOverwrite => AssemblyFault::MemoryOverwrite,
        AssemblerErrorKind::RomTooLarge => AssemblyFault::RomTooLarge,
        AssemblerErrorKind::DuplicateLabel { name } => AssemblyFault::DuplicateLabel(name@),
        AssemblerErrorKind::RelativeReferenceTooFar { name } => AssemblyFault::RelativeReferenceTooFar(name@),
    }
}

/// The message of an assembly error.
pub open spec fn fault_text(fault: AssemblyFault) -> Seq<char> {
    match fault {
        AssemblyFault::UndefinedLabel(name) => "Label '"@ + name + "' not found"@,
        AssemblyFault::WriteToZeroPage => "Writing in zero-page"@,
        AssemblyFault::MemoryOverwrite => "Memory overwrite"@,
        AssemblyFault::RomTooLarge => "ROM size exceeds 64KB capacity"@,
        AssemblyFault::DuplicateLabel(name) => "Label '"@ + name + "' already defined"@,
        AssemblyFault::RelativeReferenceTooFar(name) => "Relative reference '"@ + name + "' is too far"@,
    }
}

impl View for AssemblerError {
    type V = Fault;

    closed spec fn view(&self) -> Fault {
        (fault_of(self.kind), self.location)
    }
}

impl AssemblerErrorKind {
    /// This error placed at `location`.
    pub fn at(self, location: Location) -> (error: AssemblerError)
        ensures
            error@ == (fault_of(self), location),
    {
        AssemblerError { kind: self, location }
    }

    /// The error's message.
    pub fn to_string(&self) -> (text: String)
        ensures
            text@ == fault_text(fault_of(*self)),
    {
        let mut text = String::new();
        match self {
            AssemblerErrorKind::UndefinedLabel { name } => {
                push_str(&mut text, "Label '");
                push_str(&mut text, name.as_str());
                push_str(&mut text, "' not found");
            },
            AssemblerErrorKind::WriteToZeroPage => push_str(&mut text, "Writing in zero-page"),
            AssemblerErrorKind::MemoryOverwrite => push_str(&mut text, "Memory overwrite"),
            AssemblerErrorKind::RomTooLarge => push_str(&mut text, "ROM size exceeds 64KB capacity"),
            AssemblerErrorKind::DuplicateLabel { name } => {
                push_str(&mut text, "Label '");
                push_str(&mut text, name.as_str());
                push_str(&mut text, "' already defined");
            },
            AssemblerErrorKind::RelativeReferenceTooFar { name } => {
                push_str(&mut text, "Relative reference '");
                push_str(&mut text, name.as_str());
                push_str(&mut text, "' is too far");
            },
        }
        text
    }
}

impl AssemblerError {
    pub fn new(kind: AssemblerErrorKind, location: Location) -> (error: Self)
        ensures
            error@ == (fault_of(kind), location),
    {
        AssemblerError { kind, location }
    }

    pub fn location(&self) -> (location: Location)
        ensures
            location == self@.1,
    {
        self.location
    }

    pub fn kind(&self) -> (kind: &AssemblerErrorKind)
        ensures
            fault_of(*kind) == self@.0,
    {
        &self.kind
    }

    /// The error's message: that of its kind.
    pub fn to_string(&self) -> (text: String)
        ensures
            text@ == fault_text(self@.0),
    {
        self.kind.to_string()
    }

    /// A full report of this error with the file and source registered in `source_map`.
    pub fn format_error(&self, source_map: &SourceMap) -> (report: String)
        ensures
            report@ == super::source_map::error_report_text(source_map@, self@.1, fault_text(self@.0)),
    {
        let message = self.to_string();
        source_map.format_error(self.location, message.as_str())
    }
}

/// A reference waiting for its label: the full label name, the kind, where its operand was
/// written, and where the reference stands in the source.
#[verifier::ext_equal]
pub struct PendingView {
    pub name: Seq<char>,
    pub kind: ReferenceKind,
    pub addr: int,
    pub location: Location,
}

/// The state of the first pass: the memory image, the write position, the end of what was
/// written, the current scope, the labels in definition order and the waiting references.
#[verifier::ext_equal]
pub struct AssemblyState {
    pub rom: Seq<u8>,
    pub pointer: int,
    pub size: int,
    pub scope: Seq<char>,
    pub labels: SymbolEntries,
    pub pending: Seq<PendingView>,
}

pub type Fault = (AssemblyFault, Location);

/// The state before the first statement: an empty image, writing from 0x0100 in scope `on-reset`.
pub open spec fn initial_state() -> AssemblyState {
    AssemblyState {
        rom: Seq::new(65536, |i: int| 0u8),
        pointer: 0x0100,
        size: 0x0100,
        scope: "on-reset"@,
        labels: seq![],
        pending: seq![],
    }
}

/// Writes one byte at the write position: refused below 0x0100, at or past 0x10000, and
/// before the end of what was already written.
pub open spec fn write_byte_step(state: AssemblyState, byte: u8, location: Location) -> Result<AssemblyState, Fault> {
    if state.pointer < 0x0100 {
        Err((AssemblyFault::WriteToZeroPage, location))
    } else if state.pointer >= 0x10000 {
        Err((AssemblyFault::RomTooLarge, location))
    } else if state.pointer < state.size {
        Err((AssemblyFault::MemoryOverwrite, location))
    } else {
        Ok(AssemblyState {
            rom: state.rom.update(state.pointer, byte),
            pointer: state.pointer + 1,
            size: state.pointer + 1,
            ..state
        })
    }
}

/// Writes `bytes` one after the other, stopping at the first refusal.
pub open spec fn write_bytes_step(state: AssemblyState, bytes: Seq<u8>, location: Location) -> Result<AssemblyState, Fault>
    decreases bytes.len(),
{
    if bytes.len() == 0 {
        Ok(state)
    } else {
        match write_bytes_step(state, bytes.drop_last(), location) {
            Ok(next) => write_byte_step(next, bytes.last(), location),
            Err(fault) => Err(fault),
        }
    }
}

/// The name before the first `/`, or the whole name when it has none.
pub open spec fn before_slash(name: Seq<char>) -> Seq<char>
    decreases name.len(),
{
    if name.len() == 0 || name[0] == '/' {
        seq![]
    } else {
        seq![name[0]] + before_slash(name.drop_first())
    }
}

/// The address of the label named `name`.
pub open spec fn label_address(labels: SymbolEntries, name: Seq<char>) -> Option<u16>
    decreases labels.len(),
{
    if labels.len() == 0 {
        None
    } else if labels.last().0 == name {
        Some(labels.last().1)
    } else {
        label_address(labels.drop_last(), name)
    }
}

/// `scope/name`.
pub open spec fn scoped(scope: Seq<char>, name: Seq<char>) -> Seq<char> {
    scope + seq!['/'] + name
}

/// The full label name of a reference: `&name` and `/name` are relative to the current scope.
pub open spec fn reference_target(scope: Seq<char>, target: Seq<char>) -> Seq<char> {
    if target.len() > 0 && (target[0] == '&' || target[0] == '/') {
        scoped(scope, target.skip(1))
    } else {
        target
    }
}

/// The opcode written before a reference's operand.
pub open spec fn reference_prefix(kind: ReferenceKind) -> Seq<u8> {
    match kind {
        ReferenceKind::LiteralAbsolute => seq![0xa0u8],
        ReferenceKind::LiteralRelative | ReferenceKind::LiteralZeroPage => seq![0x80u8],
        ReferenceKind::RawAbsolute | ReferenceKind::RawRelative | ReferenceKind::RawZeroPage => seq![],
        ReferenceKind::JumpImmediate => seq![0x40u8],
        ReferenceKind::JumpConditional => seq![0x20u8],
        ReferenceKind::JumpStash => seq![0x60u8],
    }
}

/// A reference as written by the first pass: its opcode (if it has one) lies right before the
/// operand it leaves for the label, at the position the reference started from.
pub proof fn lemma_reference_prefix_before_operand(state: AssemblyState, kind: ReferenceKind, target: Seq<char>, location: Location)
    requires
        state.rom.len() == 65536,
    ensures
        reference_step(state, kind, target, location) matches Ok(next) ==> {
            &&& next.pending.last().addr == state.pointer + reference_prefix(kind).len()
            &&& reference_prefix(kind).len() == 1 ==> next.rom[state.pointer] == reference_prefix(kind)[0]
            &&& next.pending.last().kind == kind
        },
{
    let prefix = reference_prefix(kind);
    if prefix.len() == 1 {
        assert(prefix.drop_last() =~= Seq::<u8>::empty());
        assert(write_bytes_step(state, prefix.drop_last(), location) == Ok::<AssemblyState, Fault>(state));
        assert(write_bytes_step(state, prefix, location) == write_byte_step(state, prefix[0], location));
        match write_bytes_step(state, prefix, location) {
            Ok(prefixed) => {
                assert(prefixed.pointer == state.pointer + 1 && prefixed.rom[state.pointer] == prefix[0]);
                let zeros = Seq::new(operand_len(kind), |i: int| 0u8);
                lemma_write_bytes_keep_before(prefixed, zeros, location, state.pointer);
            },
            Err(_) => {},
        }
    } else {
        assert(prefix =~= Seq::<u8>::empty());
    }
}

proof fn lemma_write_bytes_keep_before(state: AssemblyState, bytes: Seq<u8>, location: Location, position: int)
    requires
        0 <= position < state.pointer,
        state.rom.len() == 65536,
    ensures
        write_bytes_step(state, bytes, location) matches Ok(next) ==> next.rom[position] == state.rom[position]
            && next.pointer == state.pointer + bytes.len() && next.rom.len() == state.rom.len(),
    decreases bytes.len(),
{
    if bytes.len() > 0 {
        lemma_write_bytes_keep_before(state, bytes.drop_last(), location, position);
    }
}

/// References and the disassembler agree. Once resolved, with its opcode right before its
/// operand, `!label` reads back as JMI, `?label` as JCI and a bare `label` as JSI, each jumping
/// to the label's address; `;label` reads back as LIT2 of the label's address, `.label` as
/// LIT of its low byte, and `,label` as LIT of the signed distance to the label from the
/// address two bytes past the operand.
pub proof fn lemma_reference_reads_back(rom: Seq<u8>, labels: SymbolEntries, reference: PendingView)
    requires
        rom.len() == 65536,
        1 <= reference.addr,
        reference.addr + 2 <= 65536,
        reference_prefix(reference.kind).len() == 1,
        rom[reference.addr - 1] == reference_prefix(reference.kind)[0],
    ensures
        resolve_step(rom, labels, reference) matches Ok(out) ==> {
            let target = label_address(labels, reference.name).unwrap();
            let read = decode_view(out, reference.addr - 1, (reference.addr - 1) as u16).1;
            &&& reference.kind is JumpStash ==> read is Jsi && reported_jump_target(read) == Some(target)
            &&& reference.kind is JumpImmediate ==> read is Jmi && reported_jump_target(read) == Some(target)
            &&& reference.kind is JumpConditional ==> read is Jci && reported_jump_target(read) == Some(target)
            &&& reference.kind is LiteralAbsolute ==> read == InstructionKind::Lit2 { value: target }
            &&& reference.kind is LiteralZeroPage ==> read == InstructionKind::Lit { value: low_byte(target) }
            &&& reference.kind is LiteralRelative ==> (read matches InstructionKind::Lit { value }
                && reference.addr + 2 + crate::uxn::bytes::signed8(value) == target)
        },
{
    if let Ok(out) = resolve_step(rom, labels, reference) {
        let target = label_address(labels, reference.name).unwrap();
        let first = out[reference.addr - 1];
        assert(first == rom[reference.addr - 1]);
        let addr = reference.addr;
        match reference.kind {
            ReferenceKind::LiteralAbsolute => {
                assert(first & 0x1f == 0) by (bit_vector) requires first == 0xa0;
                crate::uxn::bytes::lemma_join_split(target);
            },
            ReferenceKind::LiteralZeroPage | ReferenceKind::LiteralRelative => {
                assert(first & 0x1f == 0) by (bit_vector) requires first == 0x80;
            },
            ReferenceKind::JumpImmediate | ReferenceKind::JumpConditional | ReferenceKind::JumpStash => {
                assert(first & 0x1f == 0) by (bit_vector) requires first == 0x20 || first == 0x40 || first == 0x60;
                let offset = wrap_u16(target - (addr + 2));
                crate::uxn::bytes::lemma_join_split(offset);
                assert(wrap_u16((addr - 1) as u16 + 3 + offset) == target);
            },
            _ => {},
        }
    }
}

/// The number of operand bytes a reference leaves for its label's address.
pub open spec fn operand_len(kind: ReferenceKind) -> nat {
    match kind {
        ReferenceKind::LiteralRelative | ReferenceKind::LiteralZeroPage | ReferenceKind::RawRelative
        | ReferenceKind::RawZeroPage => 1,
        _ => 2,
    }
}

/// Defines the label `name` at the write position.
pub open spec fn define_label_step(state: AssemblyState, name: Seq<char>, location: Location) -> Result<AssemblyState, Fault> {
    if state.pointer >= 0x10000 {
        Err((AssemblyFault::RomTooLarge, location))
    } else if label_address(state.labels, name) is Some {
        Err((AssemblyFault::DuplicateLabel(name), location))
    } else {
        Ok(AssemblyState { labels: state.labels.push((name, state.pointer as u16)), ..state })
    }
}

/// Writes a reference's opcode and a placeholder operand, and records the reference.
pub open spec fn reference_step(state: AssemblyState, kind: ReferenceKind, target: Seq<char>, location: Location) -> Result<AssemblyState, Fault> {
    match write_bytes_step(state, reference_prefix(kind), location) {
        Ok(prefixed) => match write_bytes_step(prefixed, Seq::new(operand_len(kind), |i: int| 0u8), location) {
            Ok(written) => Ok(AssemblyState {
                pending: written.pending.push(PendingView {
                    name: reference_target(state.scope, target),
                    kind,
                    addr: prefixed.pointer,
                    location,
                }),
                ..written
            }),
            Err(fault) => Err(fault),
        },
        Err(fault) => Err(fault),
    }
}

/// The first pass applied to one statement.
pub open spec fn statement_step(state: AssemblyState, statement: Statement) -> Result<AssemblyState, Fault> {
    let location = statement.location;
    match statement.kind {
        StatementKind::PadAbsolute(address) => Ok(AssemblyState { pointer: address as int, ..state }),
        StatementKind::PadRelative(offset) => {
            let moved = state.pointer + offset;
            Ok(AssemblyState { pointer: if moved > usize::MAX { usize::MAX as int } else { moved }, ..state })
        },
        StatementKind::Label(name) => match define_label_step(state, name@, location) {
            Ok(next) => Ok(AssemblyState { scope: before_slash(name@), ..next }),
            Err(fault) => Err(fault),
        },
        StatementKind::Sublabel(sub) => define_label_step(state, scoped(state.scope, sub@), location),
        StatementKind::Instruction(opcode, modes) => write_bytes_step(state, seq![opcode_byte(opcode) | modes.0], location),
        StatementKind::LiteralByte(byte) => write_bytes_step(state, seq![0x80u8, byte], location),
        StatementKind::LiteralShort(short) => write_bytes_step(state, seq![0xa0u8, high_byte(short), low_byte(short)], location),
        StatementKind::RawBytes(bytes) => write_bytes_step(state, bytes@, location),
        StatementKind::Reference { kind, target } => reference_step(state, kind, target@, location),
    }
}

/// The first pass over `statements`, stopping at the first error.
pub open spec fn first_pass(statements: Seq<Statement>) -> Result<AssemblyState, Fault>
    decreases statements.len(),
{
    if statements.len() == 0 {
        Ok(initial_state())
    } else {
        match first_pass(statements.drop_last()) {
            Ok(state) => statement_step(state, statements.last()),
            Err(fault) => Err(fault),
        }
    }
}

/// Fills in the operand of one waiting reference with its label's address: absolute and zero-page
/// references take the address, jumps take the offset from the end of their operand, and relative
/// references take a signed byte offset, refused when it does not fit.
pub open spec fn resolve_step(rom: Seq<u8>, labels: SymbolEntries, reference: PendingView) -> Result<Seq<u8>, Fault> {
    match label_address(labels, reference.name) {
        None => Err((AssemblyFault::UndefinedLabel(reference.name), reference.location)),
        Some(target) => {
            let addr = reference.addr;
            match reference.kind {
                ReferenceKind::LiteralAbsolute | ReferenceKind::RawAbsolute =>
                    Ok(rom.update(addr, high_byte(target)).update(addr + 1, low_byte(target))),
                ReferenceKind::LiteralZeroPage | ReferenceKind::RawZeroPage => Ok(rom.update(addr, low_byte(target))),
                ReferenceKind::LiteralRelative | ReferenceKind::RawRelative => {
                    let difference = target - addr - 2;
                    if difference < -128 || difference > 127 {
                        Err((AssemblyFault::RelativeReferenceTooFar(reference.name), reference.location))
                    } else {
                        Ok(rom.update(addr, wrap_u8(difference)))
                    }
                },
                _ => {
                    let offset = wrap_u16(target - (addr + 2));
                    Ok(rom.update(addr, high_byte(offset)).update(addr + 1, low_byte(offset)))
                },
            }
        },
    }
}

/// The second pass: the waiting references resolved in order, stopping at the first error.
pub open spec fn second_pass(rom: Seq<u8>, labels: SymbolEntries, pending: Seq<PendingView>) -> Result<Seq<u8>, Fault>
    decreases pending.len(),
{
    if pending.len() == 0 {
        Ok(rom)
    } else {
        match second_pass(rom, labels, pending.drop_last()) {
            Ok(resolved) => resolve_step(resolved, labels, pending.last()),
            Err(fault) => Err(fault),
        }
    }
}

/// What assembling `statements` gives: the ROM bytes from 0x0100 to the end of what was written,
/// and the labels as symbols; or the first error.
pub open spec fn assembly(statements: Seq<Statement>) -> Result<(Seq<u8>, SymbolEntries), Fault> {
    match first_pass(statements) {
        Err(fault) => Err(fault),
        Ok(state) => match second_pass(state.rom, state.labels, state.pending) {
            Err(fault) => Err(fault),
            Ok(rom) => Ok((if state.size <= 0x0100 { seq![] } else { rom.subrange(0x0100, state.size) }, state.labels)),
        },
    }
}

/// The number of ROM bytes `statements` occupy, each by `StatementKind::byte_len`.
pub open spec fn total_len(statements: Seq<Statement>) -> int
    decreases statements.len(),
{
    if statements.len() == 0 {
        0
    } else {
        total_len(statements.drop_last()) + statement_len(statements.last().kind)
    }
}

/// No statement moves the write position, and no run of raw bytes is 64 KiB long or more.
pub open spec fn written_in_order(statements: Seq<Statement>) -> bool {
    forall|k: int| 0 <= k < statements.len() ==> {
        let kind = (#[trigger] statements[k]).kind;
        &&& !(kind is PadAbsolute || kind is PadRelative)
        &&& (kind matches StatementKind::RawBytes(bytes) ==> bytes@.len() < 65536)
    }
}

/// Writing `bytes` at the end of what was written, with room left, writes them all.
proof fn lemma_write_in_order(state: AssemblyState, bytes: Seq<u8>, location: Location)
    requires
        state.rom.len() == 65536,
        0x0100 <= state.pointer == state.size,
        state.pointer + bytes.len() < 0x10000,
    ensures
        write_bytes_step(state, bytes, location) matches Ok(next) && next.rom.len() == 65536
            && next.pointer == next.size == state.pointer + bytes.len()
            && next.labels == state.labels && next.pending == state.pending && next.scope == state.scope,
    decreases bytes.len(),
{
    if bytes.len() > 0 {
        lemma_write_in_order(state, bytes.drop_last(), location);
    }
}

/// The first pass over statements written in order, short of the end of memory, ends at their
/// total length past 0x0100, or stops at a label defined twice.
proof fn lemma_first_pass_in_order(statements: Seq<Statement>)
    requires
        written_in_order(statements),
        total_len(statements) < 0xff00,
    ensures
        total_len(statements) >= 0,
        match first_pass(statements) {
            Ok(state) => state.rom.len() == 65536 && state.pointer == state.size == 0x0100 + total_len(statements)
                && pending_in_range(state),
            Err((fault, _)) => fault is DuplicateLabel,
        },
    decreases statements.len(),
{
    if statements.len() > 0 {
        let earlier = statements.drop_last();
        assert forall|k: int| 0 <= k < earlier.len() implies {
            let kind = (#[trigger] earlier[k]).kind;
            &&& !(kind is PadAbsolute || kind is PadRelative)
            &&& (kind matches StatementKind::RawBytes(bytes) ==> bytes@.len() < 65536)
        } by {
            assert(earlier[k] == statements[k]);
        }
        lemma_first_pass_in_order(earlier);
        let last = statements.last();
        assert(statements[statements.len() - 1] == last);
        if let Ok(state) = first_pass(earlier) {
            let location = last.location;
            match last.kind {
                StatementKind::Instruction(opcode, modes) => {
                    lemma_write_in_order(state, seq![opcode_byte(opcode) | modes.0], location);
                },
                StatementKind::LiteralByte(byte) => {
                    lemma_write_in_order(state, seq![0x80u8, byte], location);
                },
                StatementKind::LiteralShort(short) => {
                    lemma_write_in_order(state, seq![0xa0u8, high_byte(short), low_byte(short)], location);
                },
                StatementKind::RawBytes(bytes) => {
                    lemma_write_in_order(state, bytes@, location);
                },
                StatementKind::Reference { kind, target } => {
                    let prefix = reference_prefix(kind);
                    lemma_write_in_order(state, prefix, location);
                    let prefixed = write_bytes_step(state, prefix, location)->Ok_0;
                    lemma_write_in_order(prefixed, Seq::new(operand_len(kind), |i: int| 0u8), location);
                    let next = statement_step(state, last)->Ok_0;
                    assert forall|i: int| 0 <= i < next.pending.len() implies 0x0100 <= (#[trigger] next.pending[i]).addr
                        && next.pending[i].addr + operand_len(next.pending[i].kind) <= next.size by {
                        if i < state.pending.len() {
                            assert(next.pending[i] == state.pending[i]);
                        }
                    }
                },
                _ => {},
            }
        }
    }
}

/// The second pass fails only on a label that is not defined or a relative reference that does
/// not reach, and keeps the image's size.
proof fn lemma_second_pass_faults(rom: Seq<u8>, labels: SymbolEntries, pending: Seq<PendingView>)
    requires
        forall|i: int| 0 <= i < pending.len() ==> 0 <= (#[trigger] pending[i]).addr
            && pending[i].addr + operand_len(pending[i].kind) <= rom.len(),
    ensures
        match second_pass(rom, labels, pending) {
            Ok(resolved) => resolved.len() == rom.len(),
            Err((fault, _)) => fault is UndefinedLabel || fault is RelativeReferenceTooFar,
        },
    decreases pending.len(),
{
    if pending.len() > 0 {
        let earlier = pending.drop_last();
        assert forall|i: int| 0 <= i < earlier.len() implies 0 <= (#[trigger] earlier[i]).addr
            && earlier[i].addr + operand_len(earlier[i].kind) <= rom.len() by {
            assert(earlier[i] == pending[i]);
        }
        lemma_second_pass_faults(rom, labels, earlier);
        assert(pending[pending.len() - 1] == pending.last());
    }
}

/// Statements written in order, short of the end of memory, assemble to a ROM of their total
/// length, or fail on a label: one not defined, one defined twice, or one too far for a relative
/// reference; never on where bytes are written.
pub proof fn lemma_assembly_in_order(statements: Seq<Statement>)
    requires
        written_in_order(statements),
        total_len(statements) < 0xff00,
    ensures
        match assembly(statements) {
            Ok((rom, _)) => rom.len() == total_len(statements),
            Err((fault, _)) => fault is UndefinedLabel || fault is DuplicateLabel || fault is RelativeReferenceTooFar,
        },
{
    lemma_first_pass_in_order(statements);
    if let Ok(state) = first_pass(statements) {
        lemma_second_pass_faults(state.rom, state.labels, state.pending);
    }
}

/// The labels as (name, address) entries.
pub open spec fn labels_view(labels: Seq<Label>) -> SymbolEntries {
    labels.map_values(|label: Label| (label.spec_name(), label.spec_address()))
}

struct PendingReference {
    name: String,
    kind: ReferenceKind,
    addr: usize,
    location: Location,
}

spec fn pending_view(pending: Seq<PendingReference>) -> Seq<PendingView> {
    pending.map_values(|reference: PendingReference| PendingView {
        name: reference.name@,
        kind: reference.kind,
        addr: reference.addr as int,
        location: reference.location,
    })
}

/// Assembles statements into a ROM image in two passes: the first writes bytes and defines
/// labels, the second fills in references once every label is known.
pub struct Assembler {
    rom: Vec<u8>,
    pointer: usize,
    size: usize,
    scope: String,
    labels: Vec<Label>,
    symbols: SymbolTable,
    pending: Vec<PendingReference>,
}

impl View for Assembler {
    type V = AssemblyState;

    closed spec fn view(&self) -> AssemblyState {
        AssemblyState {
            rom: self.rom@,
            pointer: self.pointer as int,
            size: self.size as int,
            scope: self.scope@,
            labels: labels_view(self.labels@),
            pending: pending_view(self.pending@),
        }
    }
}

/// Every waiting reference's operand lies within what was written.
pub open spec fn pending_in_range(state: AssemblyState) -> bool {
    forall|i: int| 0 <= i < state.pending.len() ==> 0x0100 <= (#[trigger] state.pending[i]).addr
        && state.pending[i].addr + operand_len(state.pending[i].kind) <= state.size
}

/// The image is 64 KiB, the written end lies between 0x0100 and 0x10000, and every waiting
/// reference points into what was written.
pub open spec fn state_well_formed(state: AssemblyState) -> bool {
    &&& state.rom.len() == 65536
    &&& 0x0100 <= state.size <= 0x10000
    &&& pending_in_range(state)
}

/// Finds the address of the label named `name`.
fn find_label(labels: &Vec<Label>, name: &str) -> (address: Option<u16>)
    ensures
        address == label_address(labels_view(labels@), name@),
{
    let mut found: Option<u16> = None;
    let mut index: usize = 0;
    while index < labels.len()
        invariant
            index <= labels@.len(),
            found == label_address(labels_view(labels@.take(index as int)), name@),
        decreases labels@.len() - index,
    {
        assert(labels_view(labels@.take(index + 1)).drop_last() =~= labels_view(labels@.take(index as int)));
        if crate::text::text_eq(labels[index].name(), name) {
            found = Some(labels[index].address());
        }
        index += 1;
    }
    assert(labels@.take(index as int) =~= labels@);
    found
}

proof fn lemma_before_slash(name: Seq<char>, k: int)
    requires
        0 <= k <= name.len(),
        forall|j: int| 0 <= j < k ==> name[j] != '/',
        k == name.len() || name[k] == '/',
    ensures
        before_slash(name) == name.take(k),
    decreases name.len(),
{
    if k > 0 {
        let rest = name.drop_first();
        assert forall|j: int| 0 <= j < k - 1 implies rest[j] != '/' by {
            assert(rest[j] == name[j + 1]);
        }
        lemma_before_slash(rest, k - 1);
        assert(seq![name[0]] + rest.take(k - 1) =~= name.take(k));
    } else {
        assert(name.take(k) =~= Seq::<char>::empty());
    }
}

/// The part of a label name before its first `/`.
pub(crate) fn scope_of_label(name: &str) -> (scope: String)
    ensures
        scope@ == before_slash(name@),
{
    let chars = crate::text::chars_of(name);
    let mut index: usize = 0;
    while index < chars.len() && chars[index] != '/'
        invariant
            index <= chars@.len(),
            chars@ == name@,
            forall|j: int| 0 <= j < index ==> chars@[j] != '/',
        decreases chars@.len() - index,
    {
        index += 1;
    }
    proof {
        lemma_before_slash(name@, index as int);
    }
    let prefix = vstd::slice::slice_subrange(chars.as_slice(), 0, index);
    assert(prefix@ =~= name@.take(index as int));
    crate::text::string_from_chars(prefix)
}

/// `scope/name`.
fn scoped_name(scope: &str, name: &[char]) -> (full: String)
    ensures
        full@ == scoped(scope@, name@),
{
    let mut full = String::new();
    push_str(&mut full, scope);
    push_char(&mut full, '/');
    crate::text::push_chars(&mut full, name);
    full
}

impl Assembler {
    fn new() -> (assembler: Self)
        ensures
            assembler@ == initial_state(),
            assembler.symbols@ == assembler@.labels,
            state_well_formed(assembler@),
    {
        let mut scope = String::new();
        push_str(&mut scope, "on-reset");
        let assembler = Assembler {
            rom: vec![0u8; 65536],
            pointer: 0x0100,
            size: 0x0100,
            scope,
            labels: Vec::new(),
            symbols: SymbolTable::new(),
            pending: Vec::new(),
        };
        assert(assembler@ =~= initial_state());
        assembler
    }

    /// Writes one byte at the write position.
    fn write_byte(&mut self, byte: u8, location: Location) -> (result: Result<(), AssemblerError>)
        requires
            state_well_formed(old(self)@),
        ensures
            old(self).symbols@ == old(self)@.labels ==> final(self).symbols@ == final(self)@.labels,
            match write_byte_step(old(self)@, byte, location) {
                Ok(state) => result is Ok && final(self)@ == state && state_well_formed(state),
                Err(fault) => result matches Err(error) && error@ == fault,
            },
    {
        if self.pointer < 0x0100 {
            return Err(AssemblerErrorKind::WriteToZeroPage.at(location));
        }
        if self.pointer >= 0x10000 {
            return Err(AssemblerErrorKind::RomTooLarge.at(location));
        }
        if self.pointer < self.size {
            return Err(AssemblerErrorKind::MemoryOverwrite.at(location));
        }
        self.rom.set(self.pointer, byte);
        self.pointer = self.pointer + 1;
        self.size = self.pointer;
        assert(self@ =~= write_byte_step(old(self)@, byte, location)->Ok_0);
        Ok(())
    }

    /// Writes `bytes` one after the other.
    fn write_bytes(&mut self, bytes: &[u8], location: Location) -> (result: Result<(), AssemblerError>)
        requires
            state_well_formed(old(self)@),
        ensures
            old(self).symbols@ == old(self)@.labels ==> final(self).symbols@ == final(self)@.labels,
            match write_bytes_step(old(self)@, bytes@, location) {
                Ok(state) => result is Ok && final(self)@ == state && state_well_formed(state),
                Err(fault) => result matches Err(error) && error@ == fault,
            },
    {
        let mut index: usize = 0;
        while index < bytes.len()
            invariant
                index <= bytes@.len(),
                state_well_formed(self@),
                old(self).symbols@ == old(self)@.labels ==> self.symbols@ == self@.labels,
                write_bytes_step(old(self)@, bytes@.take(index as int), location) == Ok::<AssemblyState, Fault>(self@),
            decreases bytes@.len() - index,
        {
            assert(bytes@.take(index + 1).drop_last() =~= bytes@.take(index as int));
            match self.write_byte(bytes[index], location) {
                Ok(()) => {},
                Err(error) => {
                    proof {
                        lemma_write_bytes_error(old(self)@, bytes@, index as int + 1, location);
                    }
                    return Err(error);
                },
            }
            index += 1;
        }
        assert(bytes@.take(index as int) =~= bytes@);
        Ok(())
    }
}

impl Assembler {
    /// Defines the label `name` at the write position.
    fn define_label(&mut self, name: &str, location: Location) -> (result: Result<(), AssemblerError>)
        requires
            state_well_formed(old(self)@),
            old(self).symbols@ == old(self)@.labels,
        ensures
            final(self).symbols@ == final(self)@.labels,
            match define_label_step(old(self)@, name@, location) {
                Ok(state) => result is Ok && final(self)@ == state && state_well_formed(state),
                Err(fault) => result matches Err(error) && error@ == fault,
            },
    {
        if self.pointer >= 0x10000 {
            return Err(AssemblerErrorKind::RomTooLarge.at(location));
        }
        if find_label(&self.labels, name).is_some() {
            return Err(AssemblerErrorKind::DuplicateLabel { name: name.to_owned() }.at(location));
        }
        let address = self.pointer as u16;
        self.labels.push(Label::new(name, address));
        self.symbols.insert(name, address);
        assert(labels_view(self.labels@) =~= labels_view(old(self).labels@).push((name@, address)));
        assert(self@ =~= define_label_step(old(self)@, name@, location)->Ok_0);
        Ok(())
    }

    /// Writes a reference's opcode and a placeholder operand, and records it for the second pass.
    fn add_reference(&mut self, kind: ReferenceKind, target: &str, location: Location) -> (result: Result<(), AssemblerError>)
        requires
            state_well_formed(old(self)@),
            old(self).symbols@ == old(self)@.labels,
        ensures
            final(self).symbols@ == final(self)@.labels,
            match reference_step(old(self)@, kind, target@, location) {
                Ok(state) => result is Ok && final(self)@ == state && state_well_formed(state),
                Err(fault) => result matches Err(error) && error@ == fault,
            },
    {
        let chars = crate::text::chars_of(target);
        let full_name = if chars.len() > 0 && (chars[0] == '&' || chars[0] == '/') {
            let rest = vstd::slice::slice_subrange(chars.as_slice(), 1, chars.len());
            assert(rest@ =~= target@.skip(1));
            scoped_name(self.scope.as_str(), rest)
        } else {
            crate::text::string_from_chars(chars.as_slice())
        };
        let prefix: Vec<u8> = match kind {
            ReferenceKind::LiteralAbsolute => vec![0xa0u8],
            ReferenceKind::LiteralRelative | ReferenceKind::LiteralZeroPage => vec![0x80u8],
            ReferenceKind::RawAbsolute | ReferenceKind::RawRelative | ReferenceKind::RawZeroPage => Vec::new(),
            ReferenceKind::JumpImmediate => vec![0x40u8],
            ReferenceKind::JumpConditional => vec![0x20u8],
            ReferenceKind::JumpStash => vec![0x60u8],
        };
        assert(prefix@ =~= reference_prefix(kind));
        match self.write_bytes(prefix.as_slice(), location) {
            Ok(()) => {},
            Err(error) => return Err(error),
        }
        let operand_addr = self.pointer;
        let ghost prefixed = self@;
        let operand: Vec<u8> = match kind {
            ReferenceKind::LiteralRelative | ReferenceKind::LiteralZeroPage | ReferenceKind::RawRelative
            | ReferenceKind::RawZeroPage => vec![0u8],
            _ => vec![0u8, 0u8],
        };
        assert(operand@ =~= Seq::new(operand_len(kind), |i: int| 0u8));
        match self.write_bytes(operand.as_slice(), location) {
            Ok(()) => {},
            Err(error) => return Err(error),
        }
        self.pending.push(PendingReference { name: full_name, kind, addr: operand_addr, location });
        proof {
            lemma_write_bytes_ok(prefixed, Seq::new(operand_len(kind), |i: int| 0u8), location);
            let expected = reference_step(old(self)@, kind, target@, location)->Ok_0;
            assert(pending_view(self.pending@) =~= expected.pending);
            assert(self@ =~= expected);
        }
        Ok(())
    }
}

impl Assembler {
    /// The first pass applied to one statement.
    fn apply_statement(&mut self, statement: &Statement) -> (result: Result<(), AssemblerError>)
        requires
            state_well_formed(old(self)@),
            old(self).symbols@ == old(self)@.labels,
        ensures
            final(self).symbols@ == final(self)@.labels,
            match statement_step(old(self)@, *statement) {
                Ok(state) => result is Ok && final(self)@ == state && state_well_formed(state),
                Err(fault) => result matches Err(error) && error@ == fault,
            },
    {
        let location = statement.location;
        match &statement.kind {
            StatementKind::PadAbsolute(address) => {
                self.pointer = *address as usize;
                assert(self@ =~= statement_step(old(self)@, *statement)->Ok_0);
                Ok(())
            },
            StatementKind::PadRelative(offset) => {
                self.pointer = self.pointer.saturating_add(*offset as usize);
                assert(self@ =~= statement_step(old(self)@, *statement)->Ok_0);
                Ok(())
            },
            StatementKind::Label(name) => {
                match self.define_label(name.as_str(), location) {
                    Ok(()) => {},
                    Err(error) => return Err(error),
                }
                self.scope = scope_of_label(name.as_str());
                assert(self@ =~= statement_step(old(self)@, *statement)->Ok_0);
                Ok(())
            },
            StatementKind::Sublabel(sub) => {
                let sub_chars = crate::text::chars_of(sub.as_str());
                let full_name = scoped_name(self.scope.as_str(), sub_chars.as_slice());
                self.define_label(full_name.as_str(), location)
            },
            StatementKind::Instruction(opcode, modes) => {
                let byte = opcode.as_u8() | modes.as_u8();
                let bytes = vec![byte];
                assert(bytes@ =~= seq![opcode_byte(*opcode) | modes.0]);
                self.write_bytes(bytes.as_slice(), location)
            },
            StatementKind::LiteralByte(byte) => {
                let bytes = vec![0x80u8, *byte];
                assert(bytes@ =~= seq![0x80u8, *byte]);
                self.write_bytes(bytes.as_slice(), location)
            },
            StatementKind::LiteralShort(short) => {
                let bytes = vec![0xa0u8, short_high(*short), short_low(*short)];
                assert(bytes@ =~= seq![0xa0u8, high_byte(*short), low_byte(*short)]);
                self.write_bytes(bytes.as_slice(), location)
            },
            StatementKind::RawBytes(bytes) => self.write_bytes(bytes.as_slice(), location),
            StatementKind::Reference { kind, target } => self.add_reference(*kind, target.as_str(), location),
        }
    }
}

/// Fills in the operand of one waiting reference.
fn resolve_reference(rom: &mut Vec<u8>, labels: &Vec<Label>, reference: &PendingReference) -> (result: Result<(), AssemblerError>)
    requires
        old(rom)@.len() == 65536,
        0x0100 <= reference.addr,
        reference.addr + operand_len(reference.kind) <= 0x10000,
    ensures
        final(rom)@.len() == 65536,
        match resolve_step(old(rom)@, labels_view(labels@), PendingView {
            name: reference.name@,
            kind: reference.kind,
            addr: reference.addr as int,
            location: reference.location,
        }) {
            Ok(resolved) => result is Ok && final(rom)@ == resolved,
            Err(fault) => result matches Err(error) && error@ == fault,
        },
{
    let target = match find_label(labels, reference.name.as_str()) {
        Some(address) => address,
        None => {
            return Err(AssemblerErrorKind::UndefinedLabel { name: reference.name.clone() }.at(reference.location));
        },
    };
    let addr = reference.addr;
    match reference.kind {
        ReferenceKind::LiteralAbsolute | ReferenceKind::RawAbsolute => {
            rom.set(addr, short_high(target));
            rom.set(addr + 1, short_low(target));
        },
        ReferenceKind::LiteralZeroPage | ReferenceKind::RawZeroPage => {
            rom.set(addr, short_low(target));
        },
        ReferenceKind::JumpImmediate | ReferenceKind::JumpConditional | ReferenceKind::JumpStash => {
            let next = ((addr + 2) % 65536) as u16;
            let offset = crate::uxn::bytes::sub16(target, next);
            assert(wrap_u16(target - next) == wrap_u16(target - (addr + 2)));
            rom.set(addr, short_high(offset));
            rom.set(addr + 1, short_low(offset));
        },
        ReferenceKind::LiteralRelative | ReferenceKind::RawRelative => {
            let difference: i32 = (target as i32) - (addr as i32) - 2;
            if difference < -128 || difference > 127 {
                return Err(AssemblerErrorKind::RelativeReferenceTooFar { name: reference.name.clone() }.at(reference.location));
            }
            let byte = difference as i8 as u8;
            assert(byte as int == (if difference < 0 { difference + 256 } else { difference as int })) by (bit_vector)
                requires
                    byte == difference as i8 as u8,
                    -128 <= difference <= 127;
            assert(byte == wrap_u8(difference as int));
            rom.set(addr, byte);
        },
    }
    Ok(())
}

proof fn lemma_first_pass_error(statements: Seq<Statement>, k: int)
    requires
        0 <= k <= statements.len(),
        first_pass(statements.take(k)) is Err,
    ensures
        first_pass(statements) == first_pass(statements.take(k)),
    decreases statements.len() - k,
{
    if k < statements.len() {
        assert(statements.take(k + 1).drop_last() =~= statements.take(k));
        lemma_first_pass_error(statements, k + 1);
    } else {
        assert(statements.take(k) =~= statements);
    }
}

proof fn lemma_second_pass_error(rom: Seq<u8>, labels: SymbolEntries, pending: Seq<PendingView>, k: int)
    requires
        0 <= k <= pending.len(),
        second_pass(rom, labels, pending.take(k)) is Err,
    ensures
        second_pass(rom, labels, pending) == second_pass(rom, labels, pending.take(k)),
    decreases pending.len() - k,
{
    if k < pending.len() {
        assert(pending.take(k + 1).drop_last() =~= pending.take(k));
        lemma_second_pass_error(rom, labels, pending, k + 1);
    } else {
        assert(pending.take(k) =~= pending);
    }
}

impl Assembler {
    /// Assembles `statements` into ROM bytes.
    pub fn assemble(statements: &[Statement]) -> (result: Result<Vec<u8>, AssemblerError>)
        ensures
            match assembly(statements@) {
                Ok((rom, _)) => result matches Ok(bytes) && bytes@ == rom,
                Err(fault) => result matches Err(error) && error@ == fault,
            },
    {
        match Self::assemble_with_symbols(statements) {
            Ok(program) => Ok(program.rom),
            Err(error) => Err(error),
        }
    }

    /// Assembles `statements` into ROM bytes and the table of their labels.
    pub fn assemble_with_symbols(statements: &[Statement]) -> (result: Result<AssembledProgram, AssemblerError>)
        ensures
            match assembly(statements@) {
                Ok((rom, symbols)) => result matches Ok(program) && program.rom@ == rom && program.symbols@ == symbols,
                Err(fault) => result matches Err(error) && error@ == fault,
            },
    {
        let mut assembler = Assembler::new();
        assembler.assemble_program(statements)
    }

    fn assemble_program(&mut self, statements: &[Statement]) -> (result: Result<AssembledProgram, AssemblerError>)
        requires
            old(self)@ == initial_state(),
            old(self).symbols@ == old(self)@.labels,
            state_well_formed(old(self)@),
        ensures
            match assembly(statements@) {
                Ok((rom, symbols)) => result matches Ok(program) && program.rom@ == rom && program.symbols@ == symbols,
                Err(fault) => result matches Err(error) && error@ == fault,
            },
    {
        let mut index: usize = 0;
        while index < statements.len()
            invariant
                index <= statements@.len(),
                state_well_formed(self@),
                self.symbols@ == self@.labels,
                first_pass(statements@.take(index as int)) == Ok::<AssemblyState, Fault>(self@),
            decreases statements@.len() - index,
        {
            assert(statements@.take(index + 1).drop_last() =~= statements@.take(index as int));
            match self.apply_statement(&statements[index]) {
                Ok(()) => {},
                Err(error) => {
                    proof {
                        lemma_first_pass_error(statements@, index + 1);
                    }
                    return Err(error);
                },
            }
            index += 1;
        }
        assert(statements@.take(index as int) =~= statements@);
        let ghost state = self@;
        let mut resolved: usize = 0;
        while resolved < self.pending.len()
            invariant
                resolved <= self.pending@.len(),
                self.rom@.len() == 65536,
                state_well_formed(state),
                state.pending == pending_view(self.pending@),
                state.labels == labels_view(self.labels@),
                state.size == self.size as int,
                self.symbols@ == state.labels,
                first_pass(statements@) == Ok::<AssemblyState, Fault>(state),
                second_pass(state.rom, state.labels, state.pending.take(resolved as int)) == Ok::<Seq<u8>, Fault>(self.rom@),
            decreases self.pending@.len() - resolved,
        {
            assert(state.pending.take(resolved + 1).drop_last() =~= state.pending.take(resolved as int));
            assert(state.pending[resolved as int] == pending_view(self.pending@)[resolved as int]);
            match resolve_reference(&mut self.rom, &self.labels, &self.pending[resolved]) {
                Ok(()) => {},
                Err(error) => {
                    proof {
                        lemma_second_pass_error(state.rom, state.labels, state.pending, resolved + 1);
                    }
                    return Err(error);
                },
            }
            resolved += 1;
        }
        assert(state.pending.take(resolved as int) =~= state.pending);
        let mut rom: Vec<u8> = Vec::new();
        if self.size > 0x0100 {
            let mut address: usize = 0x0100;
            while address < self.size
                invariant
                    0x0100 <= address <= self.size <= 0x10000,
                    self.rom@.len() == 65536,
                    rom@ == self.rom@.subrange(0x0100, address as int),
                decreases self.size - address,
            {
                rom.push(self.rom[address]);
                address += 1;
                assert(rom@ =~= self.rom@.subrange(0x0100, address as int));
            }
        }
        let mut symbols = SymbolTable::new();
        std::mem::swap(&mut symbols, &mut self.symbols);
        Ok(AssembledProgram { rom, symbols })
    }
}

proof fn lemma_write_bytes_ok(state: AssemblyState, bytes: Seq<u8>, location: Location)
    requires
        write_bytes_step(state, bytes, location) is Ok,
        bytes.len() > 0,
    ensures
        state.pointer >= 0x0100,
        write_bytes_step(state, bytes, location)->Ok_0.pointer == state.pointer + bytes.len(),
        write_bytes_step(state, bytes, location)->Ok_0.size == state.pointer + bytes.len(),
    decreases bytes.len(),
{
    reveal_with_fuel(write_bytes_step, 2);
    if bytes.len() > 1 {
        lemma_write_bytes_ok(state, bytes.drop_last(), location);
    } else {
        assert(bytes.drop_last() =~= Seq::<u8>::empty());
    }
}

proof fn lemma_write_bytes_error(state: AssemblyState, bytes: Seq<u8>, k: int, location: Location)
    requires
        0 <= k <= bytes.len(),
        write_bytes_step(state, bytes.take(k), location) is Err,
    ensures
        write_bytes_step(state, bytes, location) == write_bytes_step(state, bytes.take(k), location),
    decreases bytes.len() - k,
{
    if k < bytes.len() {
        assert(bytes.take(k + 1).drop_last() =~= bytes.take(k));
        lemma_write_bytes_error(state, bytes, k + 1, location);
    } else {
        assert(bytes.take(k) =~= bytes);
    }
}

} // verus!
