//! The colours and styles of the debugger's user interface: the Catppuccin Mocha palette.
use vstd::prelude::*;
use super::app::ExecutionState;
use super::display::Role;
use crate::uxntal::disassembler::MnemonicCategory;

verus! {

/// A text style: foreground and background colours (`0xRRGGBB`) where set, and whether it is
/// bold or italic.
#[derive(Debug, Clone, Copy, PartialEq, Eq, Structural)]
pub struct ThemeStyle {
    pub fg: Option<u32>,
    pub bg: Option<u32>,
    pub bold: bool,
    pub italic: bool,
}

/// The colours of the Catppuccin Mocha palette, by their canonical names, as `0xRRGGBB`.
pub struct Catppuccin;

impl Catppuccin {
    pub const ROSEWATER: u32 = 0xf5e0dc;
    pub const FLAMINGO: u32 = 0xf2cdcd;
    pub const PINK: u32 = 0xf5c2e7;
    pub const MAUVE: u32 = 0xcba6f7;
    pub const RED: u32 = 0xf38ba8;
    pub const MAROON: u32 = 0xeba0ac;
    pub const PEACH: u32 = 0xfab387;
    pub const YELLOW: u32 = 0xf9e2af;
    pub const GREEN: u32 = 0xa6e3a1;
    pub const TEAL: u32 = 0x94e2d5;
    pub const SKY: u32 = 0x89dceb;
    pub const SAPPHIRE: u32 = 0x74c7ec;
    pub const BLUE: u32 = 0x89b4fa;
    pub const LAVENDER: u32 = 0xb4befe;
    pub const TEXT: u32 = 0xcdd6f4;
    pub const SUBTEXT1: u32 = 0xbac2de;
    pub const SUBTEXT0: u32 = 0xa6adc8;
    pub const OVERLAY2: u32 = 0x9399b2;
    pub const OVERLAY1: u32 = 0x7f849c;
    pub const OVERLAY0: u32 = 0x6c7086;
    pub const SURFACE2: u32 = 0x585b70;
    pub const SURFACE1: u32 = 0x45475a;
    pub const SURFACE0: u32 = 0x313244;
    pub const BASE: u32 = 0x1e1e2e;
    pub const MANTLE: u32 = 0x181825;
    pub const CRUST: u32 = 0x11111b;
}

/// A style with only a foreground colour.
pub open spec fn fg_style(color: u32) -> ThemeStyle {
    ThemeStyle { fg: Some(color), bg: None, bold: false, italic: false }
}

/// A bold style with a foreground colour, and a background colour where given.
pub open spec fn bold_style(fg: u32, bg: Option<u32>) -> ThemeStyle {
    ThemeStyle { fg: Some(fg), bg, bold: true, italic: false }
}

/// The style of a piece of text of role `role`.
pub open spec fn role_style_of(role: Role) -> ThemeStyle {
    match role {
        Role::Plain => ThemeStyle { fg: None, bg: None, bold: false, italic: false },
        Role::BreakpointMarker => bold_style(Catppuccin::RED, None),
        Role::PcIndicator => bold_style(Catppuccin::YELLOW, None),
        Role::LabelAddress => fg_style(Catppuccin::OVERLAY0),
        Role::LabelName => bold_style(Catppuccin::TEAL, None),
        Role::InstructionAddress => fg_style(Catppuccin::SKY),
        Role::InstructionBytes => fg_style(Catppuccin::OVERLAY0),
        Role::Mnemonic(category) => bold_style(mnemonic_color_of(category), None),
        Role::JumpTarget => fg_style(Catppuccin::GREEN),
        Role::Symbol => fg_style(Catppuccin::TEAL),
        Role::Literal => fg_style(Catppuccin::PEACH),
        Role::Subtext => fg_style(Catppuccin::SUBTEXT0),
        Role::Muted => ThemeStyle { fg: Some(Catppuccin::OVERLAY0), bg: None, bold: false, italic: true },
        Role::StackIndex => fg_style(Catppuccin::OVERLAY1),
        Role::StackByte => bold_style(Catppuccin::PEACH, None),
        Role::StackDecimal => fg_style(Catppuccin::GREEN),
        Role::StackText => fg_style(Catppuccin::TEXT),
        Role::StackTopMarker => bold_style(Catppuccin::MAUVE, None),
    }
}

/// The colour of a mnemonic by the kind of its instruction.
pub open spec fn mnemonic_color_of(category: MnemonicCategory) -> u32 {
    match category {
        MnemonicCategory::ControlFlow => Catppuccin::MAUVE,
        MnemonicCategory::Literal => Catppuccin::PEACH,
        MnemonicCategory::Arithmetic => Catppuccin::GREEN,
        MnemonicCategory::Comparison => Catppuccin::YELLOW,
        MnemonicCategory::MemoryOrStack => Catppuccin::SAPPHIRE,
        MnemonicCategory::Raw => Catppuccin::SUBTEXT0,
    }
}

/// The debugger's theme on the Catppuccin Mocha palette.
pub struct CatppuccinTheme;

impl CatppuccinTheme {
    /// Background of the main panes.
    pub fn background_color() -> (color: u32)
        ensures
            color == Catppuccin::BASE,
    {
        Catppuccin::BASE
    }

    /// Background of the header and footer bars.
    pub fn bar_background_color() -> (color: u32)
        ensures
            color == Catppuccin::MANTLE,
    {
        Catppuccin::MANTLE
    }

    /// Border of the header and footer bars.
    pub fn bar_border_color() -> (color: u32)
        ensures
            color == Catppuccin::SURFACE1,
    {
        Catppuccin::SURFACE1
    }

    /// Border of the stack panes.
    pub fn stack_border_color() -> (color: u32)
        ensures
            color == Catppuccin::SURFACE2,
    {
        Catppuccin::SURFACE2
    }

    /// Ordinary text.
    pub fn text_color() -> (color: u32)
        ensures
            color == Catppuccin::TEXT,
    {
        Catppuccin::TEXT
    }

    /// Dimmed text: addresses, parentheses, omission dots.
    pub fn muted_color() -> (color: u32)
        ensures
            color == Catppuccin::OVERLAY0,
    {
        Catppuccin::OVERLAY0
    }

    /// Secondary text: ASCII characters and raw bytes.
    pub fn subtext_color() -> (color: u32)
        ensures
            color == Catppuccin::SUBTEXT0,
    {
        Catppuccin::SUBTEXT0
    }

    /// Text of badges.
    pub fn badge_text_color() -> (color: u32)
        ensures
            color == Catppuccin::CRUST,
    {
        Catppuccin::CRUST
    }

    /// Status badge while paused.
    pub fn status_paused_color() -> (color: u32)
        ensures
            color == Catppuccin::YELLOW,
    {
        Catppuccin::YELLOW
    }

    /// Status badge while running.
    pub fn status_running_color() -> (color: u32)
        ensures
            color == Catppuccin::GREEN,
    {
        Catppuccin::GREEN
    }

    /// Status badge once halted.
    pub fn status_halted_color() -> (color: u32)
        ensures
            color == Catppuccin::RED,
    {
        Catppuccin::RED
    }

    /// Status badge at a breakpoint.
    pub fn status_breakpoint_color() -> (color: u32)
        ensures
            color == Catppuccin::RED,
    {
        Catppuccin::RED
    }

    /// The ROM's name in the header.
    pub fn rom_name_color() -> (color: u32)
        ensures
            color == Catppuccin::SKY,
    {
        Catppuccin::SKY
    }

    /// The program counter in the header.
    pub fn pc_color() -> (color: u32)
        ensures
            color == Catppuccin::YELLOW,
    {
        Catppuccin::YELLOW
    }

    /// The instruction count in the header.
    pub fn step_count_color() -> (color: u32)
        ensures
            color == Catppuccin::TEAL,
    {
        Catppuccin::TEAL
    }

    /// The breakpoint count in the header.
    pub fn breakpoint_color() -> (color: u32)
        ensures
            color == Catppuccin::PEACH,
    {
        Catppuccin::PEACH
    }

    /// Breakpoint marks in the disassembly.
    pub fn breakpoint_marker_color() -> (color: u32)
        ensures
            color == Catppuccin::RED,
    {
        Catppuccin::RED
    }

    /// The program counter's mark in the disassembly.
    pub fn pc_indicator_color() -> (color: u32)
        ensures
            color == Catppuccin::YELLOW,
    {
        Catppuccin::YELLOW
    }

    /// Label addresses in the disassembly.
    pub fn label_address_color() -> (color: u32)
        ensures
            color == Catppuccin::OVERLAY0,
    {
        Catppuccin::OVERLAY0
    }

    /// Label names in the disassembly.
    pub fn label_name_color() -> (color: u32)
        ensures
            color == Catppuccin::TEAL,
    {
        Catppuccin::TEAL
    }

    /// Instruction addresses in the disassembly.
    pub fn instruction_address_color() -> (color: u32)
        ensures
            color == Catppuccin::SKY,
    {
        Catppuccin::SKY
    }

    /// Instruction bytes in the disassembly.
    pub fn instruction_bytes_color() -> (color: u32)
        ensures
            color == Catppuccin::OVERLAY0,
    {
        Catppuccin::OVERLAY0
    }

    /// Jump targets in the disassembly.
    pub fn jump_target_color() -> (color: u32)
        ensures
            color == Catppuccin::GREEN,
    {
        Catppuccin::GREEN
    }

    /// Symbols in the disassembly.
    pub fn symbol_color() -> (color: u32)
        ensures
            color == Catppuccin::TEAL,
    {
        Catppuccin::TEAL
    }

    /// Literal values in the disassembly.
    pub fn literal_color() -> (color: u32)
        ensures
            color == Catppuccin::PEACH,
    {
        Catppuccin::PEACH
    }

    /// Background of the selected line.
    pub fn selected_line_background_color() -> (color: u32)
        ensures
            color == Catppuccin::SURFACE1,
    {
        Catppuccin::SURFACE1
    }

    /// Background of the program counter's line when it is not selected.
    pub fn pc_line_background_color() -> (color: u32)
        ensures
            color == Catppuccin::SURFACE0,
    {
        Catppuccin::SURFACE0
    }

    /// Stack entry indices.
    pub fn stack_index_color() -> (color: u32)
        ensures
            color == Catppuccin::OVERLAY1,
    {
        Catppuccin::OVERLAY1
    }

    /// Stack entry bytes.
    pub fn stack_byte_color() -> (color: u32)
        ensures
            color == Catppuccin::PEACH,
    {
        Catppuccin::PEACH
    }

    /// Stack entry decimal values.
    pub fn stack_decimal_color() -> (color: u32)
        ensures
            color == Catppuccin::GREEN,
    {
        Catppuccin::GREEN
    }

    /// The top-of-stack mark.
    pub fn stack_top_marker_color() -> (color: u32)
        ensures
            color == Catppuccin::MAUVE,
    {
        Catppuccin::MAUVE
    }

    /// Shortcut brackets in the footer.
    pub fn footer_bracket_color() -> (color: u32)
        ensures
            color == Catppuccin::OVERLAY0,
    {
        Catppuccin::OVERLAY0
    }

    /// Shortcut keys in the footer.
    pub fn shortcut_key_color() -> (color: u32)
        ensures
            color == Catppuccin::MAUVE,
    {
        Catppuccin::MAUVE
    }

    /// Shortcut descriptions in the footer.
    pub fn shortcut_description_color() -> (color: u32)
        ensures
            color == Catppuccin::SUBTEXT0,
    {
        Catppuccin::SUBTEXT0
    }

    /// Pane borders: bold mauve for the active pane, else surface.
    pub fn border_style(active: bool) -> (style: ThemeStyle)
        ensures
            style == if active { bold_style(Catppuccin::MAUVE, None) } else { fg_style(Catppuccin::SURFACE2) },
    {
        if active {
            ThemeStyle { fg: Some(Catppuccin::MAUVE), bg: None, bold: true, italic: false }
        } else {
            ThemeStyle { fg: Some(Catppuccin::SURFACE2), bg: None, bold: false, italic: false }
        }
    }

    /// Pane titles: bold lavender for the active pane, else subtext.
    pub fn title_style(active: bool) -> (style: ThemeStyle)
        ensures
            style == if active { bold_style(Catppuccin::LAVENDER, None) } else { fg_style(Catppuccin::SUBTEXT0) },
    {
        if active {
            ThemeStyle { fg: Some(Catppuccin::LAVENDER), bg: None, bold: true, italic: false }
        } else {
            ThemeStyle { fg: Some(Catppuccin::SUBTEXT0), bg: None, bold: false, italic: false }
        }
    }

    /// Stack pane titles.
    pub fn stack_title_style() -> (style: ThemeStyle)
        ensures
            style == fg_style(Catppuccin::LAVENDER),
    {
        ThemeStyle { fg: Some(Catppuccin::LAVENDER), bg: None, bold: false, italic: false }
    }

    /// The header's title badge.
    pub fn header_title_style() -> (style: ThemeStyle)
        ensures
            style == bold_style(Catppuccin::CRUST, Some(Catppuccin::MAUVE)),
    {
        ThemeStyle { fg: Some(Catppuccin::CRUST), bg: Some(Catppuccin::MAUVE), bold: true, italic: false }
    }

    /// The status badge's colour for an execution state.
    pub fn status_color(state: ExecutionState) -> (color: u32)
        ensures
            color == match state {
                ExecutionState::Paused => Catppuccin::YELLOW,
                ExecutionState::Running => Catppuccin::GREEN,
                ExecutionState::Halted => Catppuccin::RED,
                ExecutionState::Breakpoint(_) => Catppuccin::RED,
            },
    {
        match state {
            ExecutionState::Paused => Self::status_paused_color(),
            ExecutionState::Running => Self::status_running_color(),
            ExecutionState::Halted => Self::status_halted_color(),
            ExecutionState::Breakpoint(_) => Self::status_breakpoint_color(),
        }
    }

    /// A status badge on `status_color`.
    pub fn status_badge_style(status_color: u32) -> (style: ThemeStyle)
        ensures
            style == bold_style(Catppuccin::CRUST, Some(status_color)),
    {
        ThemeStyle { fg: Some(Self::badge_text_color()), bg: Some(status_color), bold: true, italic: false }
    }

    /// The colour of a mnemonic by the kind of its instruction.
    pub fn mnemonic_color(category: MnemonicCategory) -> (color: u32)
        ensures
            color == mnemonic_color_of(category),
    {
        match category {
            MnemonicCategory::ControlFlow => Catppuccin::MAUVE,
            MnemonicCategory::Literal => Catppuccin::PEACH,
            MnemonicCategory::Arithmetic => Catppuccin::GREEN,
            MnemonicCategory::Comparison => Catppuccin::YELLOW,
            MnemonicCategory::MemoryOrStack => Catppuccin::SAPPHIRE,
            MnemonicCategory::Raw => Catppuccin::SUBTEXT0,
        }
    }

    /// The style of a piece of text of role `role`: its colour, bold for markers, labels,
    /// mnemonics and stack bytes, italic for muted text.
    pub fn role_style(role: Role) -> (style: ThemeStyle)
        ensures
            style == role_style_of(role),
    {
        match role {
            Role::Plain => ThemeStyle { fg: None, bg: None, bold: false, italic: false },
            Role::BreakpointMarker => ThemeStyle { fg: Some(Self::breakpoint_marker_color()), bg: None, bold: true, italic: false },
            Role::PcIndicator => ThemeStyle { fg: Some(Self::pc_indicator_color()), bg: None, bold: true, italic: false },
            Role::LabelAddress => ThemeStyle { fg: Some(Self::label_address_color()), bg: None, bold: false, italic: false },
            Role::LabelName => ThemeStyle { fg: Some(Self::label_name_color()), bg: None, bold: true, italic: false },
            Role::InstructionAddress => ThemeStyle { fg: Some(Self::instruction_address_color()), bg: None, bold: false, italic: false },
            Role::InstructionBytes => ThemeStyle { fg: Some(Self::instruction_bytes_color()), bg: None, bold: false, italic: false },
            Role::Mnemonic(category) => ThemeStyle { fg: Some(Self::mnemonic_color(category)), bg: None, bold: true, italic: false },
            Role::JumpTarget => ThemeStyle { fg: Some(Self::jump_target_color()), bg: None, bold: false, italic: false },
            Role::Symbol => ThemeStyle { fg: Some(Self::symbol_color()), bg: None, bold: false, italic: false },
            Role::Literal => ThemeStyle { fg: Some(Self::literal_color()), bg: None, bold: false, italic: false },
            Role::Subtext => ThemeStyle { fg: Some(Self::subtext_color()), bg: None, bold: false, italic: false },
            Role::Muted => ThemeStyle { fg: Some(Self::muted_color()), bg: None, bold: false, italic: true },
            Role::StackIndex => ThemeStyle { fg: Some(Self::stack_index_color()), bg: None, bold: false, italic: false },
            Role::StackByte => ThemeStyle { fg: Some(Self::stack_byte_color()), bg: None, bold: true, italic: false },
            Role::StackDecimal => ThemeStyle { fg: Some(Self::stack_decimal_color()), bg: None, bold: false, italic: false },
            Role::StackText => ThemeStyle { fg: Some(Self::text_color()), bg: None, bold: false, italic: false },
            Role::StackTopMarker => ThemeStyle { fg: Some(Self::stack_top_marker_color()), bg: None, bold: true, italic: false },
        }
    }
}

} // verus!
