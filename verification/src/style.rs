//! Terminal colors for disassembly listings.
use vstd::prelude::*;
use crate::uxntal::disassembler::{category_code, colorize, listing_from, table_view, Disassembler, DisassemblyOptions, MnemonicCategory};
use crate::uxntal::symbol_table::SymbolTable;
use crate::text::{push_char, push_str};

verus! {

/// When to color a listing.
#[derive(Debug, Copy, Clone, PartialEq, Eq, Structural)]
pub enum ColorMode {
    Auto,
    Always,
    Never,
}

impl Default for ColorMode {
    fn default() -> (mode: Self)
        ensures
            mode == ColorMode::Auto,
    {
        ColorMode::Auto
    }
}

impl ColorMode {
    /// Whether to color: always, never, or in `Auto` mode when the terminal allows it (output is
    /// a terminal and `NO_COLOR` is not set).
    pub fn should_color(&self, terminal_allows_color: bool) -> (color: bool)
        ensures
            color == match *self {
                ColorMode::Always => true,
                ColorMode::Never => false,
                ColorMode::Auto => terminal_allows_color,
            },
    {
        match self {
            ColorMode::Always => true,
            ColorMode::Never => false,
            ColorMode::Auto => terminal_allows_color,
        }
    }
}

/// Applies ANSI terminal colors to the parts of a listing, or leaves them plain.
#[derive(Debug, Clone, Copy)]
pub struct ColorStyle {
    enabled: bool,
}

impl ColorStyle {
    /// Whether colors are on.
    pub closed spec fn colors(&self) -> bool {
        self.enabled
    }

    /// The style for `mode`, given whether the terminal allows color.
    pub fn new(mode: ColorMode, terminal_allows_color: bool) -> (style: Self)
        ensures
            style.colors() == match mode {
                ColorMode::Always => true,
                ColorMode::Never => false,
                ColorMode::Auto => terminal_allows_color,
            },
    {
        ColorStyle { enabled: mode.should_color(terminal_allows_color) }
    }

    fn colorize(&self, code: &str, text: &str) -> (styled: String)
        ensures
            styled@ == colorize(self.colors(), code@, text@),
    {
        let mut styled = String::new();
        if self.enabled {
            push_char(&mut styled, '\x1b');
            push_char(&mut styled, '[');
            push_str(&mut styled, code);
            push_char(&mut styled, 'm');
            push_str(&mut styled, text);
            push_char(&mut styled, '\x1b');
            push_char(&mut styled, '[');
            push_char(&mut styled, '0');
            push_char(&mut styled, 'm');
        } else {
            push_str(&mut styled, text);
        }
        styled
    }

    /// A symbol header, in bold yellow.
    pub fn symbol_header(&self, text: &str) -> (styled: String)
        ensures
            styled@ == colorize(self.colors(), "1;33"@, text@),
    {
        self.colorize("1;33", text)
    }

    /// An instruction address, in cyan.
    pub fn address(&self, text: &str) -> (styled: String)
        ensures
            styled@ == colorize(self.colors(), "36"@, text@),
    {
        self.colorize("36", text)
    }

    /// Raw instruction bytes, in dark gray.
    pub fn raw_bytes(&self, text: &str) -> (styled: String)
        ensures
            styled@ == colorize(self.colors(), "90"@, text@),
    {
        self.colorize("90", text)
    }

    /// A mnemonic, in the bold color of its category.
    pub fn mnemonic(&self, text: &str, category: MnemonicCategory) -> (styled: String)
        ensures
            styled@ == colorize(self.colors(), category_code(category), text@),
    {
        let code = match category {
            MnemonicCategory::ControlFlow => "1;35",
            MnemonicCategory::Literal => "1;36",
            MnemonicCategory::Arithmetic => "1;32",
            MnemonicCategory::Comparison => "1;33",
            MnemonicCategory::MemoryOrStack => "1;34",
            MnemonicCategory::Raw => "1;37",
        };
        self.colorize(code, text)
    }

    /// A jump target address, in green.
    pub fn target_address(&self, text: &str) -> (styled: String)
        ensures
            styled@ == colorize(self.colors(), "32"@, text@),
    {
        self.colorize("32", text)
    }

    /// A literal value, in yellow.
    pub fn literal_value(&self, text: &str) -> (styled: String)
        ensures
            styled@ == colorize(self.colors(), "33"@, text@),
    {
        self.colorize("33", text)
    }

    /// A symbol annotation, in bold cyan.
    pub fn symbol_annotation(&self, text: &str) -> (styled: String)
        ensures
            styled@ == colorize(self.colors(), "1;36"@, text@),
    {
        self.colorize("1;36", text)
    }
}

/// The listing of `rom`, styled with `style`.
pub fn format_disassembly(
    rom: &[u8],
    symbol_table: Option<&SymbolTable>,
    base_address: u16,
    disassemble_zeroes: bool,
    style: &ColorStyle,
) -> (listing: String)
    ensures
        listing@ == listing_from(
            rom@,
            table_view(symbol_table),
            DisassemblyOptions { base_address, disassemble_zeroes },
            style.colors(),
            0,
            0,
            Seq::<char>::empty(),
        ),
{
    let options = DisassemblyOptions { base_address, disassemble_zeroes };
    Disassembler::listing(rom, symbol_table, &options, style.enabled)
}

} // verus!
