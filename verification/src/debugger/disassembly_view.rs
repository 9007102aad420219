use vstd::prelude::*;
use crate::uxntal::disassembler::{
    decode_view, decoded_view, first_symbol_at, has_symbol_at, hex_min_text, lemma_decode_len, nearest_symbol,
    table_view, DecodedInstruction, DecodedView, Disassembler, InstructionKind,
};
use crate::uxntal::symbol_table::{entries_at, first_at, nearest_at_or_below, SymbolEntries, SymbolTable};
use crate::uxn::bytes::{add16_wide, wrap_u16};
use crate::text::{push_char, push_str};

verus! {

/// What a line of the debugger's disassembly shows.
#[derive(Debug, Clone, PartialEq, Eq)]
pub enum DisassemblyLineKind {
    Label { name: String, address: u16 },
    Instruction { instruction: DecodedInstruction, target_symbol: Option<String> },
    OmittedZeroes,
}

/// A line of the debugger's disassembly and the address it belongs to, if any.
#[derive(Debug, Clone, PartialEq, Eq)]
pub struct DisassemblyLine {
    pub kind: DisassemblyLineKind,
    pub address: Option<u16>,
}

/// The view of a line's content.
pub enum LineKindView {
    Label(Seq<char>, u16),
    Instruction(u16, DecodedView, Option<Seq<char>>),
    OmittedZeroes,
}

pub type LineView = (LineKindView, Option<u16>);

pub open spec fn optional_text(text: Option<String>) -> Option<Seq<char>> {
    match text {
        Some(t) => Some(t@),
        None => None,
    }
}

pub open spec fn line_view(line: DisassemblyLine) -> LineView {
    let kind = match line.kind {
        DisassemblyLineKind::Label { name, address } => LineKindView::Label(name@, address),
        DisassemblyLineKind::Instruction { instruction, target_symbol } =>
            LineKindView::Instruction(instruction.address, decoded_view(instruction), optional_text(target_symbol)),
        DisassemblyLineKind::OmittedZeroes => LineKindView::OmittedZeroes,
    };
    (kind, line.address)
}

pub open spec fn lines_view(lines: Seq<DisassemblyLine>) -> Seq<LineView> {
    lines.map_values(|line: DisassemblyLine| line_view(line))
}

/// A number in hex with at least two digits.
pub open spec fn hex_two_text(value: nat) -> Seq<char> {
    if value < 16 {
        seq!['0'] + hex_min_text(value)
    } else {
        hex_min_text(value)
    }
}

/// The symbol an instruction refers to: for an immediate jump, the nearest symbol at or below
/// its target, with `+NN` for the distance when there is one; for LIT2, the symbol at its value.
pub open spec fn target_symbol_text(kind: InstructionKind, table: Option<SymbolEntries>) -> Option<Seq<char>> {
    match table {
        None => None,
        Some(entries) => match kind {
            InstructionKind::Jci { target_address, .. } => nearest_text(entries, target_address),
            InstructionKind::Jmi { target_address, .. } => nearest_text(entries, target_address),
            InstructionKind::Jsi { target_address, .. } => nearest_text(entries, target_address),
            InstructionKind::Lit2 { value } => match first_symbol_at(entries, value) {
                Some(i) => Some(entries[i].0),
                None => None,
            },
            _ => None,
        },
    }
}

/// The nearest symbol at or below `address`, with `+NN` for the distance when there is one.
pub open spec fn nearest_text(entries: SymbolEntries, address: u16) -> Option<Seq<char>> {
    match nearest_symbol(entries, address) {
        Some(i) => {
            let offset = (address - entries[i].1) as nat;
            if offset == 0 {
                Some(entries[i].0)
            } else {
                Some(entries[i].0 + seq!['+'] + hex_two_text(offset))
            }
        },
        None => None,
    }
}

/// One label line per symbol at `address`.
pub open spec fn label_lines(symbols: SymbolEntries, address: u16) -> Seq<LineView> {
    symbols.map_values(|entry: (Seq<char>, u16)| (LineKindView::Label(entry.0, address), Some(address)))
}

/// The lines for `rom` from `offset` on, after `lines`: label lines where symbols are defined,
/// one line per instruction, and a single marker for the fourth and later zero bytes in a row
/// with no symbol on them.
pub open spec fn view_lines_from(
    rom: Seq<u8>,
    table: Option<SymbolEntries>,
    base_address: u16,
    offset: int,
    zeros: nat,
    lines: Seq<LineView>,
) -> Seq<LineView>
    decreases rom.len() - offset,
{
    if offset < 0 || offset >= rom.len() {
        lines
    } else {
        let address = wrap_u16(base_address + offset);
        let counts = !has_symbol_at(table, address) && rom[offset] == 0;
        if counts && zeros + 1 >= 4 {
            let more: Seq<LineView> = if zeros + 1 == 4 { seq![(LineKindView::OmittedZeroes, None)] } else { seq![] };
            view_lines_from(rom, table, base_address, offset + 1, zeros + 1, lines + more)
        } else {
            let labels = match table {
                Some(entries) => label_lines(entries_at(entries, address), address),
                None => Seq::<LineView>::empty(),
            };
            let view = decode_view(rom, offset, address);
            proof {
                lemma_decode_len(rom, offset, address);
            }
            let line = (LineKindView::Instruction(address, view, target_symbol_text(view.1, table)), Some(address));
            view_lines_from(rom, table, base_address, offset + view.0.len(), if counts { zeros + 1 } else { 0 }, lines + labels + seq![line])
        }
    }
}

/// The last instruction line at `address`.
pub open spec fn instruction_line_at(lines: Seq<LineView>, address: u16) -> Option<int>
    decreases lines.len(),
{
    if lines.len() == 0 {
        None
    } else if lines.last().0 matches LineKindView::Instruction(a, _, _) && a == address {
        Some(lines.len() - 1)
    } else {
        instruction_line_at(lines.drop_last(), address)
    }
}

/// The line found for an address is the last instruction line at that address: an
/// instruction there, and no instruction at that address after it.
pub proof fn lemma_instruction_line_at(lines: Seq<LineView>, address: u16)
    ensures
        instruction_line_at(lines, address) matches Some(i) ==> {
            &&& 0 <= i < lines.len()
            &&& lines[i].0 matches LineKindView::Instruction(a, _, _) && a == address
            &&& forall|j: int| i < j < lines.len() ==> !((#[trigger] lines[j]).0 matches LineKindView::Instruction(b, _, _) && b == address)
        },
        instruction_line_at(lines, address) is None ==> forall|j: int|
            0 <= j < lines.len() ==> !((#[trigger] lines[j]).0 matches LineKindView::Instruction(b, _, _) && b == address),
    decreases lines.len(),
{
    if lines.len() > 0 {
        lemma_instruction_line_at(lines.drop_last(), address);
        assert forall|j: int| 0 <= j < lines.len() - 1 implies lines.drop_last()[j] == lines[j] by {}
    }
}

/// Every line names the address it belongs to: an instruction line and a label line their own
/// address, the marker for omitted zeros none.
pub open spec fn lines_addressed(lines: Seq<LineView>) -> bool {
    forall|i: int| 0 <= i < lines.len() ==> match (#[trigger] lines[i]).0 {
        LineKindView::Instruction(a, _, _) => lines[i].1 == Some(a),
        LineKindView::Label(_, a) => lines[i].1 == Some(a),
        LineKindView::OmittedZeroes => lines[i].1 is None,
    }
}

proof fn lemma_view_lines_addressed(
    rom: Seq<u8>,
    table: Option<SymbolEntries>,
    base_address: u16,
    offset: int,
    zeros: nat,
    lines: Seq<LineView>,
)
    requires
        lines_addressed(lines),
    ensures
        lines_addressed(view_lines_from(rom, table, base_address, offset, zeros, lines)),
    decreases rom.len() - offset,
{
    if 0 <= offset < rom.len() {
        let address = wrap_u16(base_address + offset);
        let counts = !has_symbol_at(table, address) && rom[offset] == 0;
        if counts && zeros + 1 >= 4 {
            let more: Seq<LineView> = if zeros + 1 == 4 { seq![(LineKindView::OmittedZeroes, None)] } else { seq![] };
            assert(lines_addressed(lines + more));
            lemma_view_lines_addressed(rom, table, base_address, offset + 1, zeros + 1, lines + more);
        } else {
            let labels = match table {
                Some(entries) => label_lines(entries_at(entries, address), address),
                None => Seq::<LineView>::empty(),
            };
            let view = decode_view(rom, offset, address);
            lemma_decode_len(rom, offset, address);
            let line = (LineKindView::Instruction(address, view, target_symbol_text(view.1, table)), Some(address));
            let next = lines + labels + seq![line];
            assert forall|i: int| 0 <= i < next.len() implies match (#[trigger] next[i]).0 {
                LineKindView::Instruction(a, _, _) => next[i].1 == Some(a),
                LineKindView::Label(_, a) => next[i].1 == Some(a),
                LineKindView::OmittedZeroes => next[i].1 is None,
            } by {
                if lines.len() <= i < lines.len() + labels.len() {
                    assert(next[i] == labels[i - lines.len()]);
                }
            }
            lemma_view_lines_addressed(
                rom,
                table,
                base_address,
                offset + view.0.len(),
                if counts { zeros + 1 } else { 0 },
                next,
            );
        }
    }
}

/// The label lines for the symbols at `address`, in `table` if there is one.
pub open spec fn labels_for(table: Option<SymbolEntries>, address: u16) -> Seq<LineView> {
    match table {
        Some(entries) => label_lines(entries_at(entries, address), address),
        None => Seq::<LineView>::empty(),
    }
}

/// Every instruction line comes right after the label lines for the symbols at its address.
pub open spec fn labels_precede(lines: Seq<LineView>, table: Option<SymbolEntries>) -> bool {
    forall|i: int| 0 <= i < lines.len() ==> match (#[trigger] lines[i]).0 {
        LineKindView::Instruction(a, _, _) => labels_for(table, a).len() <= i
            && lines.subrange(i - labels_for(table, a).len(), i) == labels_for(table, a),
        _ => true,
    }
}

proof fn lemma_view_lines_labels_precede(
    rom: Seq<u8>,
    table: Option<SymbolEntries>,
    base_address: u16,
    offset: int,
    zeros: nat,
    lines: Seq<LineView>,
)
    requires
        labels_precede(lines, table),
    ensures
        labels_precede(view_lines_from(rom, table, base_address, offset, zeros, lines), table),
    decreases rom.len() - offset,
{
    if 0 <= offset < rom.len() {
        let address = wrap_u16(base_address + offset);
        let counts = !has_symbol_at(table, address) && rom[offset] == 0;
        if counts && zeros + 1 >= 4 {
            let more: Seq<LineView> = if zeros + 1 == 4 { seq![(LineKindView::OmittedZeroes, None)] } else { seq![] };
            let next = lines + more;
            assert forall|i: int| 0 <= i < next.len() implies match (#[trigger] next[i]).0 {
                LineKindView::Instruction(a, _, _) => labels_for(table, a).len() <= i
                    && next.subrange(i - labels_for(table, a).len(), i) == labels_for(table, a),
                _ => true,
            } by {
                if i < lines.len() {
                    assert(next[i] == lines[i]);
                    if let LineKindView::Instruction(a, _, _) = lines[i].0 {
                        assert(next.subrange(i - labels_for(table, a).len(), i) =~= lines.subrange(i - labels_for(table, a).len(), i));
                    }
                }
            }
            lemma_view_lines_labels_precede(rom, table, base_address, offset + 1, zeros + 1, next);
        } else {
            let labels = labels_for(table, address);
            let view = decode_view(rom, offset, address);
            lemma_decode_len(rom, offset, address);
            let line = (LineKindView::Instruction(address, view, target_symbol_text(view.1, table)), Some(address));
            let next = lines + labels + seq![line];
            assert forall|i: int| 0 <= i < next.len() implies match (#[trigger] next[i]).0 {
                LineKindView::Instruction(a, _, _) => labels_for(table, a).len() <= i
                    && next.subrange(i - labels_for(table, a).len(), i) == labels_for(table, a),
                _ => true,
            } by {
                if i < lines.len() {
                    assert(next[i] == lines[i]);
                    if let LineKindView::Instruction(a, _, _) = lines[i].0 {
                        assert(next.subrange(i - labels_for(table, a).len(), i) =~= lines.subrange(i - labels_for(table, a).len(), i));
                    }
                } else if i < lines.len() + labels.len() {
                    assert(next[i] == labels[i - lines.len()]);
                } else {
                    assert(next[i] == line);
                    assert(next.subrange(i - labels.len(), i) =~= labels);
                }
            }
            lemma_view_lines_labels_precede(
                rom,
                table,
                base_address,
                offset + view.0.len(),
                if counts { zeros + 1 } else { 0 },
                next,
            );
        }
    }
}

/// In the disassembly of a ROM, each instruction line comes right after one label line for
/// each symbol at its address, in the order of the symbol table.
pub proof fn lemma_labels_precede_instructions(rom: Seq<u8>, table: Option<SymbolEntries>, base_address: u16)
    ensures
        labels_precede(view_lines_from(rom, table, base_address, 0, 0, Seq::<LineView>::empty()), table),
{
    lemma_view_lines_labels_precede(rom, table, base_address, 0, 0, Seq::<LineView>::empty());
}

/// The lines of the disassembly and the addresses round-trip: every line names the address it
/// belongs to (none for the marker of omitted zeros), and the line found for `address` is an
/// instruction line at `address` that names `address` back. (With the view's lookups: where
/// `line_index_for_address(address)` gives line `i`, `address_for_line_index(i)` gives
/// `address`.)
pub proof fn lemma_line_address_round_trip(rom: Seq<u8>, table: Option<SymbolEntries>, base_address: u16, address: u16)
    ensures
        lines_addressed(view_lines_from(rom, table, base_address, 0, 0, Seq::<LineView>::empty())),
        instruction_line_at(view_lines_from(rom, table, base_address, 0, 0, Seq::<LineView>::empty()), address)
            matches Some(i) ==> {
            &&& 0 <= i < view_lines_from(rom, table, base_address, 0, 0, Seq::<LineView>::empty()).len()
            &&& view_lines_from(rom, table, base_address, 0, 0, Seq::<LineView>::empty())[i].0 matches LineKindView::Instruction(
                a,
                _,
                _,
            ) && a == address
            &&& view_lines_from(rom, table, base_address, 0, 0, Seq::<LineView>::empty())[i].1 == Some(address)
        },
{
    let lines = view_lines_from(rom, table, base_address, 0, 0, Seq::<LineView>::empty());
    lemma_view_lines_addressed(rom, table, base_address, 0, 0, Seq::<LineView>::empty());
    lemma_instruction_line_at(lines, address);
}

/// The disassembly of a ROM as the debugger shows it, line by line.
pub struct DisassemblyView {
    lines: Vec<DisassemblyLine>,
    address_to_line_index: Vec<Option<usize>>,
}

impl DisassemblyView {
    #[verifier::type_invariant]
    closed spec fn inv(self) -> bool {
        &&& self.address_to_line_index@.len() == 65536
        &&& forall|a: int| 0 <= a < 65536 ==> match #[trigger] self.address_to_line_index@[a] {
            Some(i) => instruction_line_at(lines_view(self.lines@), a as u16) == Some(i as int),
            None => instruction_line_at(lines_view(self.lines@), a as u16) is None,
        }
    }

    /// The lines.
    pub closed spec fn spec_lines(&self) -> Seq<LineView> {
        lines_view(self.lines@)
    }

    /// The lines of the disassembly of `rom`, placed at `base_address`.
    pub fn new(rom: &[u8], symbol_table: Option<&SymbolTable>, base_address: u16) -> (view: Self)
        ensures
            view.spec_lines() == view_lines_from(rom@, table_view(symbol_table), base_address, 0, 0, Seq::<LineView>::empty()),
    {
        let mut lines: Vec<DisassemblyLine> = Vec::new();
        let mut address_to_line_index: Vec<Option<usize>> = Vec::new();
        let mut fill: usize = 0;
        while fill < 65536
            invariant
                fill <= 65536,
                address_to_line_index@.len() == fill,
                forall|a: int| 0 <= a < fill ==> #[trigger] address_to_line_index@[a] is None,
            decreases 65536 - fill,
        {
            address_to_line_index.push(None);
            fill += 1;
        }
        let ghost table = table_view(symbol_table);
        let mut offset: usize = 0;
        let mut consecutive_zero_count: usize = 0;
        assert(lines_view(lines@) =~= Seq::<LineView>::empty());
        while offset < rom.len()
            invariant
                offset <= rom@.len(),
                consecutive_zero_count <= offset,
                table == table_view(symbol_table),
                address_to_line_index@.len() == 65536,
                forall|a: int| 0 <= a < 65536 ==> match #[trigger] address_to_line_index@[a] {
                    Some(i) => instruction_line_at(lines_view(lines@), a as u16) == Some(i as int),
                    None => instruction_line_at(lines_view(lines@), a as u16) is None,
                },
                view_lines_from(rom@, table, base_address, 0, 0, Seq::<LineView>::empty())
                    == view_lines_from(rom@, table, base_address, offset as int, consecutive_zero_count as nat, lines_view(lines@)),
            decreases rom@.len() - offset,
        {
            let address = add16_wide(base_address, offset);
            let has_symbol = match symbol_table {
                Some(t) => t.lookup_all_at_address(address).len() > 0,
                None => false,
            };
            assert(has_symbol == has_symbol_at(table, address));
            let counts = !has_symbol && rom[offset] == 0;
            let ghost start_lines = lines_view(lines@);
            let ghost start_offset = offset as int;
            let ghost start_zeros = consecutive_zero_count as nat;
            if counts && consecutive_zero_count >= 3 {
                if consecutive_zero_count == 3 {
                    lines.push(DisassemblyLine { kind: DisassemblyLineKind::OmittedZeroes, address: None });
                    proof {
                        assert(lines_view(lines@).drop_last() =~= start_lines);
                        assert forall|a: u16|
                            #[trigger] instruction_line_at(lines_view(lines@), a) == instruction_line_at(start_lines, a) by {
                        }
                    }
                }
                consecutive_zero_count += 1;
                offset += 1;
                proof {
                    let more: Seq<LineView> = if start_zeros + 1 == 4 { seq![(LineKindView::OmittedZeroes, None)] } else { seq![] };
                    assert(lines_view(lines@) =~= start_lines + more);
                }
            } else {
                match symbol_table {
                    Some(table_ref) => {
                        let symbols = table_ref.lookup_all_at_address(address);
                        let ghost here = entries_at(table_ref@, address);
                        let mut k: usize = 0;
                        while k < symbols.len()
                            invariant
                                k <= symbols@.len(),
                                symbols@.len() == here.len(),
                                forall|i: int| 0 <= i < symbols@.len() ==> (#[trigger] symbols@[i])@ == here[i],
                                lines_view(lines@) == start_lines + label_lines(here.take(k as int), address),
                                forall|a: u16| #[trigger] instruction_line_at(lines_view(lines@), a) == instruction_line_at(start_lines, a),
                            decreases symbols@.len() - k,
                        {
                            let mut name = String::new();
                            push_str(&mut name, symbols[k].name());
                            assert(name@ =~= here[k as int].0);
                            let ghost before = lines_view(lines@);
                            lines.push(DisassemblyLine { kind: DisassemblyLineKind::Label { name, address }, address: Some(address) });
                            k += 1;
                            proof {
                                assert(lines_view(lines@).drop_last() =~= before);
                                assert forall|a: u16| #[trigger] instruction_line_at(lines_view(lines@), a) == instruction_line_at(before, a) by {
                                }
                                assert(label_lines(here.take(k as int), address) =~= label_lines(here.take(k - 1), address).push(
                                    (LineKindView::Label(here[k - 1].0, address), Some(address))));
                                assert(lines_view(lines@)[before.len() as int] == (LineKindView::Label(here[k - 1].0, address), Some(address)));
                                assert(lines_view(lines@) =~= before.push((LineKindView::Label(here[k - 1].0, address), Some(address))));
                                assert(lines_view(lines@) =~= start_lines + label_lines(here.take(k as int), address));
                            }
                        }
                        assert(here.take(k as int) =~= here);
                    },
                    None => {
                        assert(lines_view(lines@) =~= start_lines + Seq::<LineView>::empty());
                    },
                }
                let ghost labelled = lines_view(lines@);
                assert(forall|a: u16| #[trigger] instruction_line_at(labelled, a) == instruction_line_at(start_lines, a));
                let decoded = Disassembler::decode_instruction(rom, offset, address);
                let instruction = match decoded {
                    Some(instruction) => instruction,
                    None => {
                        assert(false);
                        return DisassemblyView { lines, address_to_line_index };
                    },
                };
                proof {
                    lemma_decode_len(rom@, offset as int, address);
                }
                let target_symbol = Self::resolve_target_symbol(&instruction, symbol_table);
                let line_index = lines.len();
                let length = instruction.byte_len();
                address_to_line_index.set(address as usize, Some(line_index));
                lines.push(DisassemblyLine {
                    kind: DisassemblyLineKind::Instruction { instruction, target_symbol },
                    address: Some(address),
                });
                proof {
                    assert(lines_view(lines@).drop_last() =~= labelled);
                    assert forall|a: int| 0 <= a < 65536 implies match #[trigger] address_to_line_index@[a] {
                        Some(i) => instruction_line_at(lines_view(lines@), a as u16) == Some(i as int),
                        None => instruction_line_at(lines_view(lines@), a as u16) is None,
                    } by {
                        assert(instruction_line_at(labelled, a as u16) == instruction_line_at(start_lines, a as u16));
                        if a != address as int {
                            assert((a as u16) != address);
                        }
                    }
                }
                consecutive_zero_count = if counts { consecutive_zero_count + 1 } else { 0 };
                offset += length;
                proof {
                    let view = decode_view(rom@, start_offset, address);
                    let labels = match table {
                        Some(entries) => label_lines(entries_at(entries, address), address),
                        None => Seq::<LineView>::empty(),
                    };
                    let line = (LineKindView::Instruction(address, view, target_symbol_text(view.1, table)), Some(address));
                    assert(lines_view(lines@) =~= start_lines + labels + seq![line]);
                }
            }
        }
        DisassemblyView { lines, address_to_line_index }
    }

    /// The name of the symbol that `instruction` refers to, as `target_symbol_text` gives it.
    fn resolve_target_symbol(instruction: &DecodedInstruction, symbol_table: Option<&SymbolTable>) -> (symbol: Option<String>)
        ensures
            optional_text(symbol) == target_symbol_text(instruction.kind, table_view(symbol_table)),
    {
        let table = match symbol_table {
            Some(table) => table,
            None => return None,
        };
        match &instruction.kind {
            InstructionKind::Jci { target_address, .. }
            | InstructionKind::Jmi { target_address, .. }
            | InstructionKind::Jsi { target_address, .. } => {
                match table.find_nearest_symbol(*target_address) {
                    Some((symbol, offset)) => {
                        proof {
                            let i = choose|i: int| nearest_at_or_below(table@, *target_address, i) && symbol@ == table@[i]
                                && offset == *target_address - table@[i].1;
                            let chosen = choose|k: int| nearest_at_or_below(table@, *target_address, k);
                            crate::uxntal::disassembler::lemma_nearest_unique(table@, *target_address, i, chosen);
                        }
                        let mut text = String::new();
                        push_str(&mut text, symbol.name());
                        if offset != 0 {
                            push_char(&mut text, '+');
                            if offset < 16 {
                                push_char(&mut text, '0');
                            }
                            crate::uxntal::disassembler::push_hex_min(&mut text, offset as u64);
                        }
                        Some(text)
                    },
                    None => {
                        assert(!exists|i: int| nearest_at_or_below(table@, *target_address, i));
                        None
                    },
                }
            },
            InstructionKind::Lit2 { value } => {
                match table.lookup_address(*value) {
                    Some(symbol) => {
                        proof {
                            let i = choose|i: int| first_at(table@, *value, i) && symbol@ == table@[i];
                            let chosen = choose|k: int| first_at(table@, *value, k);
                            crate::uxntal::disassembler::lemma_first_at_unique(table@, *value, i, chosen);
                        }
                        let mut text = String::new();
                        push_str(&mut text, symbol.name());
                        Some(text)
                    },
                    None => None,
                }
            },
            _ => None,
        }
    }

    pub fn lines(&self) -> (lines: &[DisassemblyLine])
        ensures
            lines_view(lines@) == self.spec_lines(),
    {
        self.lines.as_slice()
    }

    pub fn line_count(&self) -> (count: usize)
        ensures
            count == self.spec_lines().len(),
    {
        self.lines.len()
    }

    /// The line of the last instruction at `address`.
    pub fn line_index_for_address(&self, address: u16) -> (index: Option<usize>)
        ensures
            match index {
                Some(i) => instruction_line_at(self.spec_lines(), address) == Some(i as int),
                None => instruction_line_at(self.spec_lines(), address) is None,
            },
    {
        proof {
            use_type_invariant(self);
            assert(self.address_to_line_index@[address as int] == self.address_to_line_index@[address as int]);
        }
        self.address_to_line_index[address as usize]
    }

    /// The address of line `line_index`, if it has one.
    pub fn address_for_line_index(&self, line_index: usize) -> (address: Option<u16>)
        ensures
            address == (if line_index < self.spec_lines().len() { self.spec_lines()[line_index as int].1 } else { None }),
    {
        if line_index < self.lines.len() {
            self.lines[line_index].address
        } else {
            None
        }
    }
}

} // verus!
