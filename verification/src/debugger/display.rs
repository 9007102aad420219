//! What the debugger's panes show: the text of each visible disassembly line, of the stacks and
//! of the console, each piece tagged with the role the theme colours it by.
use vstd::prelude::*;
use crate::uxntal::disassembler::push_hex_min;
use super::app::{App, ExecutionState};
use super::disassembly_view::{hex_two_text, line_view, lines_view, DisassemblyLine, DisassemblyLineKind, LineKindView, LineView};
use crate::uxntal::disassembler::{bytes_text, pad_right, push_padded_right, Disassembler, InstructionKind, MnemonicCategory};
use crate::text::{decimal_text, hex_text, pad_left, push_char, push_decimal, push_decimal_padded, push_hex, push_str};

verus! {

/// What a piece of text shows, for the theme to colour it.
#[derive(Debug, Clone, Copy, PartialEq, Eq, Structural)]
pub enum Role {
    Plain,
    BreakpointMarker,
    PcIndicator,
    LabelAddress,
    LabelName,
    InstructionAddress,
    InstructionBytes,
    Mnemonic(MnemonicCategory),
    JumpTarget,
    Symbol,
    Literal,
    Subtext,
    Muted,
    StackIndex,
    StackByte,
    StackDecimal,
    StackText,
    StackTopMarker,
}

/// A piece of text and its role.
#[derive(Debug, Clone, PartialEq, Eq)]
pub struct Segment {
    pub text: String,
    pub role: Role,
}

/// How a whole disassembly line is set off.
#[derive(Debug, Clone, Copy, PartialEq, Eq, Structural)]
pub enum Highlight {
    Normal,
    /// The line under the cursor.
    Selected,
    /// The instruction at the program counter.
    Current,
}

/// A visible disassembly line.
#[derive(Debug, Clone, PartialEq, Eq)]
pub struct DisplayLine {
    pub segments: Vec<Segment>,
    pub highlight: Highlight,
}

pub type SegmentView = (Seq<char>, Role);

pub open spec fn segments_view(segments: Seq<Segment>) -> Seq<SegmentView> {
    segments.map_values(|segment: Segment| (segment.text@, segment.role))
}

/// A printable ASCII character other than space.
pub open spec fn is_graphic(byte: u8) -> bool {
    0x21 <= byte <= 0x7e
}

/// The segments of a jump target and its symbol.
pub open spec fn jump_segments(address: u16, target: Option<Seq<char>>) -> Seq<SegmentView> {
    seq![(hex_text(address as nat, 4) + seq![' '], Role::JumpTarget)] + match target {
        Some(symbol) => seq![(seq!['<'] + symbol + seq!['>'], Role::Symbol)],
        None => Seq::<SegmentView>::empty(),
    }
}

/// The operand of an instruction, and its symbol where it has one.
pub open spec fn operand_segments(kind: InstructionKind, target: Option<Seq<char>>) -> Seq<SegmentView> {
    match kind {
        InstructionKind::Jci { target_address, .. } => jump_segments(target_address, target),
        InstructionKind::Jmi { target_address, .. } => jump_segments(target_address, target),
        InstructionKind::Jsi { target_address, .. } => jump_segments(target_address, target),
        InstructionKind::Lit { value } => seq![(seq!['#'] + hex_text(value as nat, 2), Role::Literal)]
            + if is_graphic(value) { seq![(seq![' ', '\'', value as char, '\''], Role::Subtext)] } else { Seq::<SegmentView>::empty() },
        InstructionKind::Lit2 { value } => seq![(seq!['#'] + hex_text(value as nat, 4), Role::Literal)] + match target {
            Some(symbol) => seq![(seq![' ', '<'] + symbol + seq!['>'], Role::Symbol)],
            None => Seq::<SegmentView>::empty(),
        },
        InstructionKind::Litr { value } => seq![(seq!['#'] + hex_text(value as nat, 2), Role::Literal)],
        InstructionKind::Lit2r { value } => seq![(seq!['#'] + hex_text(value as nat, 4), Role::Literal)],
        InstructionKind::RawByte(byte) => seq![(hex_text(byte as nat, 2), Role::Subtext)],
        _ => Seq::<SegmentView>::empty(),
    }
}

/// What a line shows after its two marker columns: a label's address and name; an instruction's
/// address, bytes, mnemonic and operand; or the dots of omitted zeroes.
pub open spec fn content_segments(kind: LineKindView) -> Seq<SegmentView> {
    match kind {
        LineKindView::Label(name, address) => seq![
            (hex_text(address as nat, 4) + seq![' '], Role::LabelAddress),
            (seq!['<'] + name + seq!['>', ':'], Role::LabelName),
        ],
        LineKindView::Instruction(address, decoded, target) => seq![
            (hex_text(address as nat, 4) + seq![':', ' '], Role::InstructionAddress),
            (pad_right(bytes_text(decoded.0), 9) + seq![' '], Role::InstructionBytes),
            (pad_right(decoded.2, 7) + seq![' '], Role::Mnemonic(decoded.3)),
        ] + operand_segments(decoded.1, target),
        LineKindView::OmittedZeroes => seq![("         ..."@, Role::Muted)],
    }
}

/// Whether the line is the instruction at `pc`.
pub open spec fn is_current(line: LineView, pc: u16) -> bool {
    line.1 == Some(pc) && line.0 is Instruction
}

/// A whole disassembly line: a breakpoint marker, the program counter arrow, then its content.
pub open spec fn line_segments(line: LineView, pc: u16, breakpoints: Set<u16>) -> Seq<SegmentView> {
    let marker = match line.1 {
        Some(address) => if breakpoints.contains(address) {
            ("\u{25cf} "@, Role::BreakpointMarker)
        } else {
            ("  "@, Role::Plain)
        },
        None => ("  "@, Role::Plain),
    };
    let arrow = if is_current(line, pc) { ("-> "@, Role::PcIndicator) } else { ("   "@, Role::Plain) };
    seq![marker, arrow] + content_segments(line.0)
}

/// The first visible line: the scroll offset, at most the number of lines.
pub open spec fn first_visible(scroll_offset: usize, total: nat) -> nat {
    if scroll_offset < total { scroll_offset as nat } else { total }
}

/// The number of lines a pane of `height` lines shows.
pub open spec fn visible_count(scroll_offset: usize, total: nat, height: usize) -> nat {
    let start = first_visible(scroll_offset, total);
    if start + height < total { height as nat } else { (total - start) as nat }
}

/// The text of the execution status badge.
pub open spec fn status_text_view(state: ExecutionState) -> Seq<char> {
    match state {
        ExecutionState::Paused => " PAUSED "@,
        ExecutionState::Running => " RUNNING "@,
        ExecutionState::Halted => " HALTED "@,
        ExecutionState::Breakpoint(address) => " BREAKPOINT 0x"@ + hex_text(address as nat, 4) + seq![' '],
    }
}

/// How a stack cell's character column shows it: a graphic character quoted, a space quoted,
/// nothing otherwise; four columns wide.
pub open spec fn cell_character(byte: u8) -> Seq<char> {
    if is_graphic(byte) {
        seq!['\'', byte as char, '\'', ' ']
    } else if byte == 0x20 {
        "' ' "@
    } else {
        "    "@
    }
}

/// The row of stack cell `index` holding `byte`; the top one is marked.
pub open spec fn stack_row(index: nat, byte: u8, top: bool) -> Seq<SegmentView> {
    seq![
        ("  ["@ + hex_two_text(index) + "] "@, Role::StackIndex),
        ("0x"@ + hex_text(byte as nat, 2) + seq![' '], Role::StackByte),
        (seq!['('] + pad_left(decimal_text(byte as nat), 3) + ") "@, Role::StackDecimal),
        (cell_character(byte), Role::StackText),
    ] + if top { seq![(" <-- top"@, Role::StackTopMarker)] } else { Seq::<SegmentView>::empty() }
}

/// The single row shown for a stack that holds no bytes.
pub open spec fn empty_stack_row() -> Seq<SegmentView> {
    seq![("  <empty>"@, Role::Muted)]
}

/// The title of a stack pane.
pub open spec fn stack_title_view(title: Seq<char>, pointer: u8) -> Seq<char> {
    title + "[sp: 0x"@ + hex_text(pointer as nat, 2) + "] "@
}

/// Whether the console has printed nothing.
pub open spec fn console_is_empty(lines: Seq<String>) -> bool {
    lines.len() == 0 || (lines.len() == 1 && lines[0]@.len() == 0)
}

/// How far the console can scroll up: all but the last screenful.
pub open spec fn console_max_scroll(lines: Seq<String>, height: usize) -> nat {
    if console_is_empty(lines) || lines.len() <= height { 0 } else { (lines.len() - height) as nat }
}

/// The title of the console pane at scroll `scroll`.
pub open spec fn console_title_view(scroll: nat) -> Seq<char> {
    if scroll > 0 { " Console Output [-"@ + decimal_text(scroll) + "] "@ } else { " Console Output "@ }
}

/// The console pane: its scroll (clamped), its title, and the lines it shows (none for an
/// empty console).
pub struct ConsoleDisplay {
    pub scroll: usize,
    pub title: String,
    pub lines: Vec<String>,
    /// Whether the console has printed nothing yet.
    pub empty: bool,
}

/// The text of the execution status badge.
pub fn status_text(state: ExecutionState) -> (text: String)
    ensures
        text@ == status_text_view(state),
{
    let mut text = String::new();
    match state {
        ExecutionState::Paused => push_str(&mut text, " PAUSED "),
        ExecutionState::Running => push_str(&mut text, " RUNNING "),
        ExecutionState::Halted => push_str(&mut text, " HALTED "),
        ExecutionState::Breakpoint(address) => {
            push_str(&mut text, " BREAKPOINT 0x");
            push_hex(&mut text, address as u64, 4);
            push_char(&mut text, ' ');
        },
    }
    text
}

fn segment(text: String, role: Role) -> (segment: Segment)
    ensures
        segment.text@ == text@,
        segment.role == role,
{
    Segment { text, role }
}

/// `text` followed by `suffix`.
fn hex_with(value: u64, width: usize, prefix: &str, suffix: &str) -> (text: String)
    requires
        width <= 16,
    ensures
        text@ == prefix@ + hex_text(value as nat, width as nat) + suffix@,
{
    let mut text = String::new();
    push_str(&mut text, prefix);
    push_hex(&mut text, value, width);
    push_str(&mut text, suffix);
    text
}

/// `<` `symbol` `>`, after `prefix`.
fn symbol_segment(prefix: &str, symbol: &String) -> (segment: Segment)
    ensures
        segment.text@ == prefix@ + seq!['<'] + symbol@ + seq!['>'],
        segment.role == Role::Symbol,
{
    let mut text = String::new();
    push_str(&mut text, prefix);
    push_char(&mut text, '<');
    push_str(&mut text, symbol.as_str());
    push_char(&mut text, '>');
    segment(text, Role::Symbol)
}

/// Appends the operand segments of an instruction.
fn push_operand_segments(segments: &mut Vec<Segment>, kind: &InstructionKind, target: &Option<String>)
    ensures
        segments_view(final(segments)@) == segments_view(old(segments)@) + operand_segments(*kind, optional_view(*target)),
{
    proof {
        reveal_strlit("");
        reveal_strlit(" ");
        reveal_strlit("#");
    }
    assert(""@ == Seq::<char>::empty());
    assert(" "@ == seq![' ']);
    assert("#"@ == seq!['#']);
    let ghost before = segments_view(segments@);
    match kind {
        InstructionKind::Jci { target_address, .. } | InstructionKind::Jmi { target_address, .. } | InstructionKind::Jsi { target_address, .. } => {
            segments.push(segment(hex_with(*target_address as u64, 4, "", " "), Role::JumpTarget));
            match target {
                Some(symbol) => segments.push(symbol_segment("", symbol)),
                None => {},
            }
            assert(segments_view(segments@) =~= before + jump_segments(*target_address, optional_view(*target)));
        },
        InstructionKind::Lit { value } => {
            segments.push(segment(hex_with(*value as u64, 2, "#", ""), Role::Literal));
            if 0x21 <= *value && *value <= 0x7e {
                let mut text = String::new();
                push_char(&mut text, ' ');
                push_char(&mut text, '\'');
                push_char(&mut text, *value as char);
                push_char(&mut text, '\'');
                assert(text@ =~= seq![' ', '\'', *value as char, '\'']);
                segments.push(segment(text, Role::Subtext));
            }
            assert(segments_view(segments@) =~= before + operand_segments(*kind, optional_view(*target)));
        },
        InstructionKind::Lit2 { value } => {
            segments.push(segment(hex_with(*value as u64, 4, "#", ""), Role::Literal));
            match target {
                Some(symbol) => {
                    let annotation = symbol_segment(" ", symbol);
                    assert(annotation.text@ =~= seq![' ', '<'] + symbol@ + seq!['>']);
                    segments.push(annotation);
                },
                None => {},
            }
            assert(segments_view(segments@) =~= before + operand_segments(*kind, optional_view(*target)));
        },
        InstructionKind::Litr { value } => {
            segments.push(segment(hex_with(*value as u64, 2, "#", ""), Role::Literal));
            assert(segments_view(segments@) =~= before + operand_segments(*kind, optional_view(*target)));
        },
        InstructionKind::Lit2r { value } => {
            segments.push(segment(hex_with(*value as u64, 4, "#", ""), Role::Literal));
            assert(segments_view(segments@) =~= before + operand_segments(*kind, optional_view(*target)));
        },
        InstructionKind::RawByte(byte) => {
            segments.push(segment(hex_with(*byte as u64, 2, "", ""), Role::Subtext));
            assert(segments_view(segments@) =~= before + operand_segments(*kind, optional_view(*target)));
        },
        _ => {
            assert(segments_view(segments@) =~= before + operand_segments(*kind, optional_view(*target)));
        },
    }
}

pub open spec fn optional_view(text: Option<String>) -> Option<Seq<char>> {
    match text {
        Some(t) => Some(t@),
        None => None,
    }
}

/// The segments of one disassembly line, `breakpoint` telling whether its address has one.
pub fn line_display(line: &DisassemblyLine, pc: u16, breakpoint: bool) -> (segments: Vec<Segment>)
    requires
        breakpoint ==> line.address is Some,
    ensures
        forall|breakpoints: Set<u16>| (match line.address {
            Some(address) => breakpoints.contains(address) == breakpoint,
            None => true,
        }) ==> segments_view(segments@) == line_segments(line_view(*line), pc, breakpoints),
{
    proof {
        reveal_strlit("");
        reveal_strlit(" ");
        reveal_strlit(": ");
    }
    assert(""@ == Seq::<char>::empty());
    assert(" "@ == seq![' ']);
    assert(": "@ == seq![':', ' ']);
    let mut segments: Vec<Segment> = Vec::new();
    let mut marker = String::new();
    if breakpoint {
        push_str(&mut marker, "\u{25cf} ");
        segments.push(segment(marker, Role::BreakpointMarker));
    } else {
        push_str(&mut marker, "  ");
        segments.push(segment(marker, Role::Plain));
    }
    let current = match (&line.kind, line.address) {
        (DisassemblyLineKind::Instruction { .. }, Some(address)) => address == pc,
        _ => false,
    };
    assert(current == is_current(line_view(*line), pc));
    let mut arrow = String::new();
    if current {
        push_str(&mut arrow, "-> ");
        segments.push(segment(arrow, Role::PcIndicator));
    } else {
        push_str(&mut arrow, "   ");
        segments.push(segment(arrow, Role::Plain));
    }
    let ghost head = segments_view(segments@);
    match &line.kind {
        DisassemblyLineKind::Label { name, address } => {
            let address_column = hex_with(*address as u64, 4, "", " ");
            assert(address_column@ =~= hex_text(*address as nat, 4) + seq![' ']);
            segments.push(segment(address_column, Role::LabelAddress));
            let mut text = String::new();
            push_char(&mut text, '<');
            push_str(&mut text, name.as_str());
            push_char(&mut text, '>');
            push_char(&mut text, ':');
            assert(text@ =~= seq!['<'] + name@ + seq!['>', ':']);
            segments.push(segment(text, Role::LabelName));
            assert(segments_view(segments@) =~= head + content_segments(line_view(*line).0));
        },
        DisassemblyLineKind::Instruction { instruction, target_symbol } => {
            let address_column = hex_with(instruction.address as u64, 4, "", ": ");
            assert(address_column@ =~= hex_text(instruction.address as nat, 4) + seq![':', ' ']);
            segments.push(segment(address_column, Role::InstructionAddress));
            let bytes = Disassembler::bytes_string(&instruction.bytes);
            let mut bytes_column = String::new();
            push_padded_right(&mut bytes_column, bytes.as_str(), 9);
            push_char(&mut bytes_column, ' ');
            assert(bytes_column@ =~= pad_right(bytes_text(instruction.bytes@), 9) + seq![' ']);
            segments.push(segment(bytes_column, Role::InstructionBytes));
            let mut mnemonic_column = String::new();
            push_padded_right(&mut mnemonic_column, instruction.mnemonic.as_str(), 7);
            push_char(&mut mnemonic_column, ' ');
            assert(mnemonic_column@ =~= pad_right(instruction.mnemonic@, 7) + seq![' ']);
            segments.push(segment(mnemonic_column, Role::Mnemonic(instruction.category)));
            let ghost columns = segments_view(segments@);
            assert(columns =~= head + seq![
                (hex_text(instruction.address as nat, 4) + seq![':', ' '], Role::InstructionAddress),
                (pad_right(bytes_text(instruction.bytes@), 9) + seq![' '], Role::InstructionBytes),
                (pad_right(instruction.mnemonic@, 7) + seq![' '], Role::Mnemonic(instruction.category)),
            ]);
            push_operand_segments(&mut segments, &instruction.kind, target_symbol);
            assert(optional_view(*target_symbol) == super::disassembly_view::optional_text(*target_symbol));
            assert(segments_view(segments@) =~= head + content_segments(line_view(*line).0));
        },
        DisassemblyLineKind::OmittedZeroes => {
            let mut text = String::new();
            push_str(&mut text, "         ...");
            segments.push(segment(text, Role::Muted));
            assert(segments_view(segments@) =~= head + content_segments(line_view(*line).0));
        },
    }
    proof {
        assert forall|breakpoints: Set<u16>| (match line.address {
            Some(address) => breakpoints.contains(address) == breakpoint,
            None => true,
        }) implies segments_view(segments@) == line_segments(line_view(*line), pc, breakpoints) by {
            let expected = line_segments(line_view(*line), pc, breakpoints);
            assert(expected.subrange(0, 2) =~= head);
            assert(segments_view(segments@) =~= expected);
        }
    }
    segments
}

/// The highlight of line `index` of the disassembly.
pub open spec fn line_highlight(index: int, selected: usize, line: LineView, pc: u16) -> Highlight {
    if index == selected {
        Highlight::Selected
    } else if is_current(line, pc) {
        Highlight::Current
    } else {
        Highlight::Normal
    }
}

/// The disassembly lines a pane of `height` lines shows, from the scroll offset on: their
/// segments (with the breakpoints and the program counter marked) and highlights.
pub fn disassembly_display(app: &App, height: usize) -> (lines: Vec<DisplayLine>)
    ensures
        lines@.len() == visible_count(app.scroll_offset, app.disassembly.spec_lines().len(), height),
        forall|k: int| 0 <= k < lines@.len() ==> {
            let index = first_visible(app.scroll_offset, app.disassembly.spec_lines().len()) + k;
            let line = app.disassembly.spec_lines()[index];
            &&& segments_view((#[trigger] lines@[k]).segments@) == line_segments(line, app.vm.memory@.pc, app.breakpoints@)
            &&& lines@[k].highlight == line_highlight(index, app.selected_line, line, app.vm.memory@.pc)
        },
{
    let all = app.disassembly.lines();
    let pc = app.vm.memory.pc();
    let total = all.len();
    let start = if app.scroll_offset < total { app.scroll_offset } else { total };
    let end = if total - start > height { start + height } else { total };
    let ghost spec_lines = app.disassembly.spec_lines();
    assert(spec_lines.len() == total);
    let mut lines: Vec<DisplayLine> = Vec::new();
    let mut index = start;
    while index < end
        invariant
            start <= index <= end <= total,
            total == all@.len(),
            lines_view(all@) == spec_lines,
            spec_lines == app.disassembly.spec_lines(),
            start == first_visible(app.scroll_offset, spec_lines.len()),
            end - start == visible_count(app.scroll_offset, spec_lines.len(), height),
            pc == app.vm.memory@.pc,
            lines@.len() == index - start,
            forall|k: int| 0 <= k < lines@.len() ==> {
                let line = spec_lines[start + k];
                &&& segments_view((#[trigger] lines@[k]).segments@) == line_segments(line, pc, app.breakpoints@)
                &&& lines@[k].highlight == line_highlight(start + k, app.selected_line, line, pc)
            },
        decreases end - index,
    {
        let line = &all[index];
        assert(spec_lines[index as int] == line_view(*line));
        let breakpoint = match line.address {
            Some(address) => app.breakpoints.contains(&address),
            None => false,
        };
        let segments = line_display(line, pc, breakpoint);
        let current = match (&line.kind, line.address) {
            (DisassemblyLineKind::Instruction { .. }, Some(address)) => address == pc,
            _ => false,
        };
        let highlight = if index == app.selected_line {
            Highlight::Selected
        } else if current {
            Highlight::Current
        } else {
            Highlight::Normal
        };
        lines.push(DisplayLine { segments, highlight });
        index += 1;
    }
    lines
}

/// `title` with the stack pointer: `title[sp: 0xNN] `.
pub fn stack_title(title: &str, pointer: u8) -> (text: String)
    ensures
        text@ == stack_title_view(title@, pointer),
{
    let mut text = String::new();
    push_str(&mut text, title);
    push_str(&mut text, "[sp: 0x");
    push_hex(&mut text, pointer as u64, 2);
    push_str(&mut text, "] ");
    text
}

/// The row of stack cell `index` holding `byte`.
fn stack_row_display(index: usize, byte: u8, top: bool) -> (segments: Vec<Segment>)
    ensures
        segments_view(segments@) == stack_row(index as nat, byte, top),
{
    proof {
        reveal_strlit(" ");
    }
    let mut segments: Vec<Segment> = Vec::new();
    let mut index_text = String::new();
    push_str(&mut index_text, "  [");
    if index < 16 {
        push_char(&mut index_text, '0');
    }
    push_hex_min(&mut index_text, index as u64);
    push_str(&mut index_text, "] ");
    assert(index_text@ =~= "  ["@ + hex_two_text(index as nat) + "] "@);
    segments.push(segment(index_text, Role::StackIndex));
    let byte_text = hex_with(byte as u64, 2, "0x", " ");
    assert(byte_text@ =~= "0x"@ + hex_text(byte as nat, 2) + seq![' ']);
    segments.push(segment(byte_text, Role::StackByte));
    let mut decimal = String::new();
    push_char(&mut decimal, '(');
    push_decimal_padded(&mut decimal, byte as usize, 3);
    push_str(&mut decimal, ") ");
    assert(decimal@ =~= seq!['('] + pad_left(decimal_text(byte as nat), 3) + ") "@);
    segments.push(segment(decimal, Role::StackDecimal));
    let mut character = String::new();
    if 0x21 <= byte && byte <= 0x7e {
        push_char(&mut character, '\'');
        push_char(&mut character, byte as char);
        push_char(&mut character, '\'');
        push_char(&mut character, ' ');
        assert(character@ =~= cell_character(byte));
    } else if byte == 0x20 {
        push_str(&mut character, "' ' ");
    } else {
        push_str(&mut character, "    ");
    }
    segments.push(segment(character, Role::StackText));
    if top {
        let mut marker = String::new();
        push_str(&mut marker, " <-- top");
        segments.push(segment(marker, Role::StackTopMarker));
    }
    assert(segments_view(segments@) =~= stack_row(index as nat, byte, top));
    segments
}

/// The rows of a stack pane `height` lines high holding `cells`: the top cells, topmost first,
/// the first marked; or one row saying the stack is empty.
pub fn stack_display(cells: &[u8], height: usize) -> (rows: Vec<Vec<Segment>>)
    ensures
        cells@.len() == 0 ==> rows@.len() == 1 && segments_view(rows@[0]@) == empty_stack_row(),
        cells@.len() > 0 ==> {
            &&& rows@.len() == if cells@.len() < height { cells@.len() } else { height as nat }
            &&& forall|k: int| 0 <= k < rows@.len() ==> segments_view((#[trigger] rows@[k])@)
                == stack_row((cells@.len() - 1 - k) as nat, cells@[cells@.len() - 1 - k], k == 0)
        },
{
    let mut rows: Vec<Vec<Segment>> = Vec::new();
    let total = cells.len();
    if total == 0 {
        let mut text = String::new();
        push_str(&mut text, "  <empty>");
        let row = vec![segment(text, Role::Muted)];
        assert(segments_view(row@) =~= empty_stack_row());
        rows.push(row);
        return rows;
    }
    let shown = if total < height { total } else { height };
    let mut k: usize = 0;
    while k < shown
        invariant
            total == cells@.len(),
            total > 0,
            shown == if total < height { total } else { height },
            k <= shown,
            rows@.len() == k,
            forall|j: int| 0 <= j < k ==> segments_view((#[trigger] rows@[j])@)
                == stack_row((total - 1 - j) as nat, cells@[total - 1 - j], j == 0),
        decreases shown - k,
    {
        let index = total - 1 - k;
        rows.push(stack_row_display(index, cells[index], k == 0));
        k += 1;
    }
    rows
}

/// The console pane for `lines` in a pane `height` lines high: the scroll clamped so that the
/// last screenful stays in view, the title (with the scroll where there is one), and the lines
/// in view.
pub fn console_display(lines: &[String], scroll: usize, height: usize) -> (display: ConsoleDisplay)
    ensures
        display.scroll == if scroll < console_max_scroll(lines@, height) { scroll as nat } else { console_max_scroll(lines@, height) },
        display.title@ == console_title_view(display.scroll as nat),
        display.empty == console_is_empty(lines@),
        console_is_empty(lines@) ==> display.lines@.len() == 0,
        !console_is_empty(lines@) ==> {
            let start = console_max_scroll(lines@, height) - display.scroll;
            let end = if start + height < lines@.len() { start + height } else { lines@.len() as int };
            &&& display.lines@.len() == end - start
            &&& forall|k: int| 0 <= k < display.lines@.len() ==> (#[trigger] display.lines@[k])@ == lines@[start + k]@
        },
{
    let total = lines.len();
    let empty = total == 0 || (total == 1 && lines[0].as_str().unicode_len() == 0);
    assert(empty == console_is_empty(lines@));
    let max_scroll = if empty || total <= height { 0 } else { total - height };
    let clamped = if scroll < max_scroll { scroll } else { max_scroll };
    let mut title = String::new();
    if clamped > 0 {
        push_str(&mut title, " Console Output [-");
        push_decimal(&mut title, clamped);
        push_str(&mut title, "] ");
    } else {
        push_str(&mut title, " Console Output ");
    }
    let mut shown: Vec<String> = Vec::new();
    if !empty {
        let start = max_scroll - clamped;
        let end = if height < total - start { start + height } else { total };
        let mut index = start;
        while index < end
            invariant
                start <= index <= end <= total,
                total == lines@.len(),
                shown@.len() == index - start,
                forall|k: int| 0 <= k < shown@.len() ==> (#[trigger] shown@[k])@ == lines@[start + k]@,
            decreases end - index,
        {
            shown.push(lines[index].clone());
            index += 1;
        }
    }
    ConsoleDisplay { scroll: clamped, title, lines: shown, empty }
}

} // verus!
