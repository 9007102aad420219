use uxr::debugger::display::{console_display, disassembly_display, stack_display, stack_title, status_text, Highlight, Role};
use uxr::debugger::{ActivePane, App, DisassemblyLineKind, DisassemblyView, ExecutionState};
use uxr::debugger::theme::{Catppuccin, CatppuccinTheme, ThemeStyle};
use uxr::debugger::keys::{key_command, DebuggerCommand, DebuggerKey};
use uxr::style::{format_disassembly, ColorMode, ColorStyle};
use uxr::uxntal::opcode::{OpCode, OpCodeModes};
use uxr::uxntal::{Disassembler, DisassemblyOptions, InstructionKind, MnemonicCategory, Number, SymbolTable};

#[test]
fn decodes_literals_and_regular_instructions() {
    let rom = [0x80, 0x12, 0xb8, 0xa0, 0x01, 0x02];
    let lit = Disassembler::decode_instruction(&rom, 0, 0x0100).unwrap();
    assert_eq!(lit.kind, InstructionKind::Lit { value: 0x12 });
    assert_eq!(lit.mnemonic, "LIT");
    assert_eq!(lit.byte_len(), 2);
    let add = Disassembler::decode_instruction(&rom, 2, 0x0102).unwrap();
    assert_eq!(add.kind, InstructionKind::Regular { opcode: OpCode::ADD, modes: OpCodeModes(0xa0) });
    assert_eq!(add.mnemonic, "ADD2k");
    assert_eq!(add.category, MnemonicCategory::Arithmetic);
    let lit2 = Disassembler::decode_instruction(&rom, 3, 0x0103).unwrap();
    assert_eq!(lit2.kind, InstructionKind::Lit2 { value: 0x0102 });
    assert_eq!(lit2.bytes, vec![0xa0, 0x01, 0x02]);
    assert!(Disassembler::decode_instruction(&rom, 6, 0x0106).is_none());
}

#[test]
fn a_truncated_literal_is_a_raw_byte() {
    let rom = [0xa0, 0x01];
    let raw = Disassembler::decode_instruction(&rom, 0, 0x0100).unwrap();
    assert_eq!(raw.kind, InstructionKind::RawByte(0xa0));
    assert_eq!(raw.mnemonic, "#a0");
}

#[test]
fn decodes_immediate_jumps() {
    let rom = [0x40, 0xff, 0xfb];
    let jump = Disassembler::decode_instruction(&rom, 0, 0x0102).unwrap();
    assert_eq!(jump.mnemonic, "JMI");
    assert_eq!(jump.byte_len(), 3);
}

#[test]
fn disassembles_a_small_program() {
    let rom = [0x80, 0x12, 0x18, 0x00];
    let text = Disassembler::disassemble(&rom, None, &DisassemblyOptions::default());
    assert_eq!(
        text,
        "  0100:\t80 12     \tLIT     #12\n  0102:\t18        \tADD     \n  0103:\t00        \tBRK     \n"
    );
}

#[test]
fn runs_of_zeroes_are_folded() {
    let rom = [0x00; 6];
    let text = Disassembler::disassemble(&rom, None, &DisassemblyOptions::default());
    assert_eq!(text.lines().count(), 4);
    assert_eq!(text.lines().last(), Some("..."));
    let options = DisassemblyOptions { base_address: 0x0100, disassemble_zeroes: true };
    assert_eq!(Disassembler::disassemble(&rom, None, &options).lines().count(), 6);
}

#[test]
fn symbols_head_their_addresses() {
    let mut table = SymbolTable::new();
    table.insert("main", 0x0100);
    let rom = [0xa0, 0x01, 0x00, 0x00];
    let text = Disassembler::disassemble(&rom, Some(&table), &DisassemblyOptions::default());
    assert!(text.starts_with("00000100 <main>:\n  0100:\ta0 01 00  \tLIT2    #0100 <main>\n"));
}

#[test]
fn colours_follow_the_mode() {
    assert!(ColorMode::Always.should_color(false));
    assert!(!ColorMode::Never.should_color(true));
    assert!(ColorMode::Auto.should_color(true));
    assert!(!ColorMode::Auto.should_color(false));
    assert_eq!(ColorMode::default(), ColorMode::Auto);
    let plain = ColorStyle::new(ColorMode::Never, true);
    assert_eq!(plain.symbol_header("x"), "x");
    let styled = ColorStyle::new(ColorMode::Always, false);
    assert_eq!(styled.symbol_header("x"), "\u{1b}[1;33mx\u{1b}[0m");
    assert_eq!(styled.mnemonic("ADD", MnemonicCategory::Arithmetic), "\u{1b}[1;32mADD\u{1b}[0m");
    let rom = [0x80, 0x12, 0x18, 0x00];
    assert_eq!(
        format_disassembly(&rom, None, 0x0100, false, &plain),
        Disassembler::disassemble(&rom, None, &DisassemblyOptions::default())
    );
}

#[test]
fn opcodes_and_modes_read_from_names() {
    assert_eq!(OpCode::from_mnemonic("ADD"), Some(OpCode::ADD));
    assert_eq!(OpCode::from_mnemonic("XYZ"), None);
    assert_eq!(OpCode::from_str_with_modes("ADD2kr"), Some((OpCode::ADD, OpCodeModes(0xe0))));
    assert_eq!(OpCode::from_str_with_modes("ADD22"), None);
    assert_eq!(OpCode::from_str_with_modes("BRKk"), None);
    assert_eq!(OpCode::ADD.as_u8(), 0x18);
    let mut modes = OpCodeModes::default();
    assert!(modes.insert('2'));
    assert!(modes.is_short());
    assert!(!modes.is_keep());
    assert!(!modes.insert('2'));
    assert!(!modes.insert('x'));
}

#[test]
fn hex_numbers() {
    assert_eq!(Number::from_hex("12"), Some(Number::Byte(0x12)));
    assert_eq!(Number::from_hex("1234"), Some(Number::Short(0x1234)));
    assert_eq!(Number::from_hex("123"), None);
    assert_eq!(Number::from_hex("zz"), None);
    assert_eq!(Number::Byte(0x12).as_short(), 0x0012);
    assert_eq!(Number::from_hex_padding("100"), Some(0x0100));
}

#[test]
fn disassembly_view_maps_lines_and_addresses() {
    let mut table = SymbolTable::new();
    table.insert("main", 0x0100);
    let rom = [0x80, 0x01, 0x00];
    let view = DisassemblyView::new(&rom, Some(&table), 0x0100);
    assert_eq!(view.line_count(), 3);
    assert!(matches!(&view.lines()[0].kind, DisassemblyLineKind::Label { name, address } if name == "main" && *address == 0x0100));
    assert_eq!(view.line_index_for_address(0x0100), Some(1));
    assert_eq!(view.line_index_for_address(0x0102), Some(2));
    assert_eq!(view.line_index_for_address(0x0101), None);
    assert_eq!(view.address_for_line_index(2), Some(0x0102));
    assert_eq!(view.address_for_line_index(9), None);
}

#[test]
fn debugger_steps_and_halts() {
    // #41 #18 DEO BRK: prints 'A' on the console
    let rom = vec![0x80, 0x41, 0x80, 0x18, 0x17, 0x00];
    let mut app = App::new(rom, "test.rom".to_string(), None).unwrap();
    assert_eq!(app.execution_state, ExecutionState::Paused);
    assert_eq!(app.selected_line, 0);
    app.step();
    assert_eq!(app.instruction_count, 1);
    assert_eq!(app.execution_state, ExecutionState::Paused);
    assert_eq!(app.selected_line, 1);
    app.continue_execution();
    assert_eq!(app.execution_state, ExecutionState::Running);
    app.tick(100);
    assert_eq!(app.execution_state, ExecutionState::Halted);
    assert_eq!(app.instruction_count, 3);
    assert_eq!(app.vm.device.console_lines()[0], "A");
    app.reset();
    assert_eq!(app.execution_state, ExecutionState::Paused);
    assert_eq!(app.instruction_count, 0);
}

#[test]
fn debugger_stops_at_breakpoints() {
    let rom = vec![0x80, 0x01, 0x80, 0x02, 0x00];
    let mut app = App::new(rom, "test.rom".to_string(), None).unwrap();
    app.cursor_down();
    assert_eq!(app.selected_line, 1);
    app.toggle_breakpoint();
    assert!(app.breakpoints.contains(&0x0102));
    app.continue_execution();
    app.tick(100);
    assert_eq!(app.execution_state, ExecutionState::Breakpoint(0x0102));
    app.continue_execution();
    assert_eq!(app.execution_state, ExecutionState::Running);
    app.tick(100);
    assert_eq!(app.execution_state, ExecutionState::Halted);
    app.toggle_breakpoint();
    app.cursor_up();
    app.cursor_up();
    assert_eq!(app.selected_line, 0);
}

#[test]
fn debugger_panes_and_scrolling() {
    let rom = vec![0x00; 2];
    let mut app = App::new(rom, "z.rom".to_string(), None).unwrap();
    assert_eq!(app.active_pane, ActivePane::Disassembly);
    app.toggle_pane();
    assert_eq!(app.active_pane, ActivePane::Console);
    app.console_scroll_up();
    app.console_page_up(10);
    assert_eq!(app.console_scroll, 11);
    app.console_page_down(20);
    assert_eq!(app.console_scroll, 0);
    app.console_scroll_down();
    assert_eq!(app.console_scroll, 0);
    app.ensure_visible(40);
    assert_eq!(app.scroll_offset, 25);
    app.ensure_visible(26);
    assert_eq!(app.scroll_offset, 23);
    app.page_down(15);
    assert_eq!(app.selected_line, 1);
    app.page_up(15);
    assert_eq!(app.selected_line, 0);
}

#[test]
fn disassembled_mnemonics_assemble_back() {
    for byte in 0u8..=255 {
        if byte & 0x1f == 0 {
            continue;
        }
        let rom = [byte];
        let decoded = Disassembler::decode_instruction(&rom, 0, 0x0100).unwrap();
        let (opcode, modes) = OpCode::from_str_with_modes(&decoded.mnemonic).unwrap();
        assert_eq!(opcode.as_u8() | modes.as_u8(), byte);
    }
}

fn texts(segments: &[uxr::debugger::display::Segment]) -> Vec<String> {
    segments.iter().map(|segment| segment.text.clone()).collect()
}

#[test]
fn debugger_display_texts() {
    assert_eq!(status_text(ExecutionState::Breakpoint(0x0102)), " BREAKPOINT 0x0102 ");
    assert_eq!(status_text(ExecutionState::Paused), " PAUSED ");
    assert_eq!(stack_title(" Working Stack (wst) ", 2), " Working Stack (wst) [sp: 0x02] ");
    let rows = stack_display(&[0x41, 0x05], 10);
    assert_eq!(rows.len(), 2);
    assert_eq!(texts(&rows[0]), vec!["  [01] ", "0x05 ", "(  5) ", "    ", " <-- top"]);
    assert_eq!(texts(&rows[1]), vec!["  [00] ", "0x41 ", "( 65) ", "'A' "]);
    assert_eq!(rows[1][0].role, Role::StackIndex);
    let empty = stack_display(&[], 5);
    assert_eq!(texts(&empty[0]), vec!["  <empty>"]);
    let lines = vec!["a".to_string(), "b".to_string(), "c".to_string()];
    let console = console_display(&lines, 5, 2);
    assert_eq!(console.scroll, 1);
    assert_eq!(console.title, " Console Output [-1] ");
    assert_eq!(console.lines, vec!["a".to_string(), "b".to_string()]);
    assert!(!console.empty);
    let quiet = console_display(&[String::new()], 3, 2);
    assert!(quiet.empty);
    assert_eq!(quiet.scroll, 0);
    assert_eq!(quiet.title, " Console Output ");
}

#[test]
fn debugger_disassembly_lines() {
    let mut table = SymbolTable::new();
    table.insert("main", 0x0100);
    let rom = vec![0x80, 0x41, 0xa0, 0x01, 0x00, 0x00];
    let mut app = App::new(rom, "t.rom".to_string(), Some(&table)).unwrap();
    app.cursor_down();
    app.toggle_breakpoint();
    let lines = disassembly_display(&app, 10);
    assert_eq!(lines.len(), 4);
    assert_eq!(texts(&lines[0].segments), vec!["  ", "   ", "0100 ", "<main>:"]);
    assert_eq!(lines[0].highlight, Highlight::Normal);
    assert_eq!(texts(&lines[1].segments), vec!["  ", "-> ", "0100: ", "80 41     ", "LIT     ", "#41", " 'A'"]);
    assert_eq!(lines[1].highlight, Highlight::Current);
    assert_eq!(texts(&lines[2].segments), vec!["\u{25cf} ", "   ", "0102: ", "a0 01 00  ", "LIT2    ", "#0100", " <main>"]);
    assert_eq!(lines[2].highlight, Highlight::Selected);
    assert_eq!(lines[1].segments[4].role, Role::Mnemonic(MnemonicCategory::Literal));
    assert_eq!(disassembly_display(&app, 2).len(), 2);
}

#[test]
fn theme_colours_follow_the_mocha_palette() {
    assert_eq!(Catppuccin::MAUVE, 0xcba6f7);
    assert_eq!(CatppuccinTheme::background_color(), Catppuccin::BASE);
    assert_eq!(CatppuccinTheme::mnemonic_color(MnemonicCategory::ControlFlow), 0xcba6f7);
    assert_eq!(CatppuccinTheme::mnemonic_color(MnemonicCategory::MemoryOrStack), Catppuccin::SAPPHIRE);
    assert_eq!(CatppuccinTheme::status_color(ExecutionState::Breakpoint(0x0100)), Catppuccin::RED);
    assert_eq!(CatppuccinTheme::status_color(ExecutionState::Paused), 0xf9e2af);
    let badge = CatppuccinTheme::status_badge_style(Catppuccin::GREEN);
    assert_eq!(badge, ThemeStyle { fg: Some(Catppuccin::CRUST), bg: Some(Catppuccin::GREEN), bold: true, italic: false });
    assert_eq!(CatppuccinTheme::border_style(false), ThemeStyle { fg: Some(0x585b70), bg: None, bold: false, italic: false });
    assert_eq!(CatppuccinTheme::role_style(Role::Muted), ThemeStyle { fg: Some(Catppuccin::OVERLAY0), bg: None, bold: false, italic: true });
    assert_eq!(CatppuccinTheme::role_style(Role::Mnemonic(MnemonicCategory::Literal)).fg, Some(Catppuccin::PEACH));
}

#[test]
fn toggling_a_breakpoint_twice_restores_the_set() {
    let rom = vec![0x80, 0x01, 0x80, 0x02, 0x00];
    let mut app = App::new(rom, "test.rom".to_string(), None).unwrap();
    app.cursor_down();
    let before = app.breakpoints.clone();
    app.toggle_breakpoint();
    assert_ne!(app.breakpoints, before);
    app.toggle_breakpoint();
    assert_eq!(app.breakpoints, before);
    assert_eq!(app.selected_line, 1);
    assert_eq!(app.instruction_count, 0);
}

#[test]
fn keys_map_to_debugger_commands() {
    let paused = ExecutionState::Paused;
    assert_eq!(key_command(DebuggerKey::Char('c'), true, paused, ActivePane::Disassembly), DebuggerCommand::Quit);
    assert_eq!(key_command(DebuggerKey::Char('c'), false, paused, ActivePane::Disassembly), DebuggerCommand::Continue);
    assert_eq!(key_command(DebuggerKey::Char(' '), false, ExecutionState::Running, ActivePane::Console), DebuggerCommand::Pause);
    assert_eq!(key_command(DebuggerKey::F(7), false, paused, ActivePane::Console), DebuggerCommand::Step);
    assert_eq!(key_command(DebuggerKey::Char('j'), false, paused, ActivePane::Console), DebuggerCommand::ConsoleScrollDown);
    assert_eq!(key_command(DebuggerKey::PageUp, false, paused, ActivePane::Disassembly), DebuggerCommand::PageUp);
    assert_eq!(key_command(DebuggerKey::Other, false, paused, ActivePane::Disassembly), DebuggerCommand::Nothing);
}

#[test]
fn line_and_address_lookups_round_trip() {
    let rom = [0x80, 0x12, 0x00, 0x00, 0x00, 0x00, 0x00, 0xa0, 0x01, 0x02, 0x18];
    let view = DisassemblyView::new(&rom, None, 0x0100);
    let mut instructions = 0;
    for (index, line) in view.lines().iter().enumerate() {
        match &line.kind {
            DisassemblyLineKind::Instruction { instruction, .. } => {
                instructions += 1;
                assert_eq!(line.address, Some(instruction.address));
                let found = view.line_index_for_address(instruction.address).unwrap();
                assert_eq!(found, index);
                assert_eq!(view.address_for_line_index(found), Some(instruction.address));
            }
            DisassemblyLineKind::OmittedZeroes => assert_eq!(line.address, None),
            DisassemblyLineKind::Label { address, .. } => assert_eq!(line.address, Some(*address)),
        }
    }
    assert!(instructions > 0);
    assert!(view.lines().iter().any(|line| line.kind == DisassemblyLineKind::OmittedZeroes));
    assert_eq!(view.line_index_for_address(0x0101), None);
    assert_eq!(view.address_for_line_index(view.line_count()), None);
}

#[test]
fn scrolling_near_the_largest_offset_stays_on_the_upper_branch() {
    let rom = vec![0x80, 0x01, 0x80, 0x02, 0x18, 0x00];
    let mut app = App::new(rom, "edge.rom".to_string(), None).unwrap();
    app.scroll_offset = usize::MAX - 5;
    app.ensure_visible(10);
    assert_eq!(app.scroll_offset, 7);
    app.scroll_offset = usize::MAX - 3;
    app.follow_pc();
    assert_eq!(app.selected_line, 0);
    assert_eq!(app.scroll_offset, 0);
    app.scroll_offset = 0;
    app.ensure_visible(25);
    assert_eq!(app.scroll_offset, 10);
    app.ensure_visible(15);
    assert_eq!(app.scroll_offset, 10);
    app.ensure_visible(12);
    assert_eq!(app.scroll_offset, 9);
}

#[test]
fn label_lines_come_right_before_their_instruction() {
    let mut table = SymbolTable::new();
    table.insert("main", 0x0100);
    table.insert("start", 0x0100);
    table.insert("loop", 0x0102);
    let rom = [0x80, 0x01, 0x06, 0x00];
    let view = DisassemblyView::new(&rom, Some(&table), 0x0100);
    let names: Vec<String> = view
        .lines()
        .iter()
        .map(|line| match &line.kind {
            DisassemblyLineKind::Label { name, .. } => format!("@{}", name),
            DisassemblyLineKind::Instruction { instruction, .. } => format!("{:04x}", instruction.address),
            DisassemblyLineKind::OmittedZeroes => "...".to_string(),
        })
        .collect();
    assert_eq!(names, vec!["@main", "@start", "0100", "@loop", "0102", "0103"]);
}
