use vstd::prelude::*;
use super::location::Location;
use super::opcode::{OpCode, OpCodeModes};

verus! {

/// How a reference to a label is resolved into bytes.
#[derive(Debug, Clone, Copy, PartialEq, Eq, Hash, Structural)]
pub enum ReferenceKind {
    /// `;label`: LIT2 and the absolute address (three bytes).
    LiteralAbsolute,
    /// `,label`: LIT and a relative byte offset (two bytes).
    LiteralRelative,
    /// `.label`: LIT and a zero-page address (two bytes).
    LiteralZeroPage,
    /// `=label`: the absolute address (two bytes).
    RawAbsolute,
    /// `_label`: a relative byte offset (one byte).
    RawRelative,
    /// `-label`: a zero-page address (one byte).
    RawZeroPage,
    /// `!label`: JMI and a relative short offset (three bytes).
    JumpImmediate,
    /// `?label`: JCI and a relative short offset (three bytes).
    JumpConditional,
    /// `label`: JSI and a relative short offset (three bytes).
    JumpStash,
}

/// The number of ROM bytes a reference of this kind occupies.
pub open spec fn reference_len(kind: ReferenceKind) -> u16 {
    match kind {
        ReferenceKind::RawRelative | ReferenceKind::RawZeroPage => 1,
        ReferenceKind::LiteralRelative | ReferenceKind::LiteralZeroPage | ReferenceKind::RawAbsolute => 2,
        ReferenceKind::LiteralAbsolute
        | ReferenceKind::JumpImmediate
        | ReferenceKind::JumpConditional
        | ReferenceKind::JumpStash => 3,
    }
}

/// The rune that introduces a reference of this kind; a bare name has none.
pub open spec fn reference_rune(kind: ReferenceKind) -> Option<char> {
    match kind {
        ReferenceKind::LiteralAbsolute => Some(';'),
        ReferenceKind::LiteralRelative => Some(','),
        ReferenceKind::LiteralZeroPage => Some('.'),
        ReferenceKind::RawAbsolute => Some('='),
        ReferenceKind::RawRelative => Some('_'),
        ReferenceKind::RawZeroPage => Some('-'),
        ReferenceKind::JumpImmediate => Some('!'),
        ReferenceKind::JumpConditional => Some('?'),
        ReferenceKind::JumpStash => None,
    }
}

impl ReferenceKind {
    /// The number of ROM bytes this reference occupies.
    pub fn byte_len(&self) -> (len: u16)
        ensures
            len == reference_len(*self),
    {
        match self {
            ReferenceKind::RawRelative | ReferenceKind::RawZeroPage => 1,
            ReferenceKind::LiteralRelative | ReferenceKind::LiteralZeroPage | ReferenceKind::RawAbsolute => 2,
            ReferenceKind::LiteralAbsolute
            | ReferenceKind::JumpImmediate
            | ReferenceKind::JumpConditional
            | ReferenceKind::JumpStash => 3,
        }
    }

    /// The rune that introduces this reference, if any.
    pub fn rune(&self) -> (rune: Option<char>)
        ensures
            rune == reference_rune(*self),
    {
        match self {
            ReferenceKind::LiteralAbsolute => Some(';'),
            ReferenceKind::LiteralRelative => Some(','),
            ReferenceKind::LiteralZeroPage => Some('.'),
            ReferenceKind::RawAbsolute => Some('='),
            ReferenceKind::RawRelative => Some('_'),
            ReferenceKind::RawZeroPage => Some('-'),
            ReferenceKind::JumpImmediate => Some('!'),
            ReferenceKind::JumpConditional => Some('?'),
            ReferenceKind::JumpStash => None,
        }
    }
}

/// What a statement of the intermediate representation does.
#[derive(Debug, Clone, PartialEq, Eq)]
pub enum StatementKind {
    PadAbsolute(u16),
    PadRelative(u16),
    Label(String),
    Sublabel(String),
    Instruction(OpCode, OpCodeModes),
    LiteralByte(u8),
    LiteralShort(u16),
    RawBytes(Vec<u8>),
    Reference { kind: ReferenceKind, target: String },
}

/// The number of ROM bytes a statement occupies (a raw run's length is taken modulo 65536).
pub open spec fn statement_len(kind: StatementKind) -> u16 {
    match kind {
        StatementKind::PadAbsolute(_) | StatementKind::PadRelative(_) => 0,
        StatementKind::Label(_) | StatementKind::Sublabel(_) => 0,
        StatementKind::Instruction(..) => 1,
        StatementKind::LiteralByte(_) => 2,
        StatementKind::LiteralShort(_) => 3,
        StatementKind::RawBytes(bytes) => bytes@.len() as u16,
        StatementKind::Reference { kind, .. } => reference_len(kind),
    }
}

impl StatementKind {
    /// The number of ROM bytes this statement occupies.
    pub fn byte_len(&self) -> (len: u16)
        ensures
            len == statement_len(*self),
    {
        match self {
            StatementKind::PadAbsolute(_) | StatementKind::PadRelative(_) => 0,
            StatementKind::Label(_) | StatementKind::Sublabel(_) => 0,
            StatementKind::Instruction(..) => 1,
            StatementKind::LiteralByte(_) => 2,
            StatementKind::LiteralShort(_) => 3,
            StatementKind::RawBytes(bytes) => bytes.len() as u16,
            StatementKind::Reference { kind, .. } => kind.byte_len(),
        }
    }

    /// This kind placed at `location`.
    pub fn at(self, location: Location) -> (statement: Statement)
        ensures
            statement == (Statement { kind: self, location }),
    {
        Statement::new(self, location)
    }

    /// Whether this statement only moves the write position or names it.
    pub fn is_memory_directive(&self) -> (directive: bool)
        ensures
            directive == (self is PadAbsolute || self is PadRelative || self is Label || self is Sublabel),
    {
        match self {
            StatementKind::PadAbsolute(_) | StatementKind::PadRelative(_) | StatementKind::Label(_)
            | StatementKind::Sublabel(_) => true,
            _ => false,
        }
    }

    pub fn is_reference(&self) -> (reference: bool)
        ensures
            reference == self is Reference,
    {
        match self {
            StatementKind::Reference { .. } => true,
            _ => false,
        }
    }
}

/// A statement of the intermediate representation with the place it came from.
#[derive(Debug, Clone, PartialEq, Eq)]
pub struct Statement {
    pub kind: StatementKind,
    pub location: Location,
}

impl Statement {
    pub fn new(kind: StatementKind, location: Location) -> (statement: Self)
        ensures
            statement == (Statement { kind, location }),
    {
        Statement { kind, location }
    }

    /// The number of ROM bytes this statement occupies.
    pub fn byte_len(&self) -> (len: u16)
        ensures
            len == statement_len(self.kind),
    {
        self.kind.byte_len()
    }
}

} // verus!
