use vstd::prelude::*;
use crate::text::chars_of;

verus! {

/// The thirty-two base operations of the Uxn instruction set, and `LIT`.
#[derive(Debug, Copy, Clone, PartialEq, Eq, Structural)]
pub enum OpCode {
    BRK,
    LIT,
    INC,
    POP,
    NIP,
    SWP,
    ROT,
    DUP,
    OVR,
    EQU,
    NEQ,
    GTH,
    LTH,
    JMP,
    JCN,
    JSR,
    STH,
    LDZ,
    STZ,
    LDR,
    STR,
    LDA,
    STA,
    DEI,
    DEO,
    ADD,
    SUB,
    MUL,
    DIV,
    AND,
    ORA,
    EOR,
    SFT,
}

/// The three letters of an opcode's mnemonic.
pub open spec fn opcode_letters(op: OpCode) -> (char, char, char) {
    match op {
        OpCode::BRK => ('B', 'R', 'K'),
        OpCode::LIT => ('L', 'I', 'T'),
        OpCode::INC => ('I', 'N', 'C'),
        OpCode::POP => ('P', 'O', 'P'),
        OpCode::NIP => ('N', 'I', 'P'),
        OpCode::SWP => ('S', 'W', 'P'),
        OpCode::ROT => ('R', 'O', 'T'),
        OpCode::DUP => ('D', 'U', 'P'),
        OpCode::OVR => ('O', 'V', 'R'),
        OpCode::EQU => ('E', 'Q', 'U'),
        OpCode::NEQ => ('N', 'E', 'Q'),
        OpCode::GTH => ('G', 'T', 'H'),
        OpCode::LTH => ('L', 'T', 'H'),
        OpCode::JMP => ('J', 'M', 'P'),
        OpCode::JCN => ('J', 'C', 'N'),
        OpCode::JSR => ('J', 'S', 'R'),
        OpCode::STH => ('S', 'T', 'H'),
        OpCode::LDZ => ('L', 'D', 'Z'),
        OpCode::STZ => ('S', 'T', 'Z'),
        OpCode::LDR => ('L', 'D', 'R'),
        OpCode::STR => ('S', 'T', 'R'),
        OpCode::LDA => ('L', 'D', 'A'),
        OpCode::STA => ('S', 'T', 'A'),
        OpCode::DEI => ('D', 'E', 'I'),
        OpCode::DEO => ('D', 'E', 'O'),
        OpCode::ADD => ('A', 'D', 'D'),
        OpCode::SUB => ('S', 'U', 'B'),
        OpCode::MUL => ('M', 'U', 'L'),
        OpCode::DIV => ('D', 'I', 'V'),
        OpCode::AND => ('A', 'N', 'D'),
        OpCode::ORA => ('O', 'R', 'A'),
        OpCode::EOR => ('E', 'O', 'R'),
        OpCode::SFT => ('S', 'F', 'T'),
    }
}

/// The mnemonic of an opcode, such as `ADD`.
pub open spec fn opcode_mnemonic(op: OpCode) -> Seq<char> {
    let (a, b, c) = opcode_letters(op);
    seq![a, b, c]
}

/// The opcode spelled by `s`, if any.
pub open spec fn mnemonic_opcode(s: Seq<char>) -> Option<OpCode> {
    if exists|op: OpCode| opcode_mnemonic(op) == s {
        Some(choose|op: OpCode| opcode_mnemonic(op) == s)
    } else {
        None
    }
}

/// The byte that encodes an opcode with no mode flags.
pub open spec fn opcode_byte(op: OpCode) -> u8 {
    match op {
        OpCode::BRK => 0x00,
        OpCode::LIT => 0x80,
        OpCode::INC => 0x01,
        OpCode::POP => 0x02,
        OpCode::NIP => 0x03,
        OpCode::SWP => 0x04,
        OpCode::ROT => 0x05,
        OpCode::DUP => 0x06,
        OpCode::OVR => 0x07,
        OpCode::EQU => 0x08,
        OpCode::NEQ => 0x09,
        OpCode::GTH => 0x0a,
        OpCode::LTH => 0x0b,
        OpCode::JMP => 0x0c,
        OpCode::JCN => 0x0d,
        OpCode::JSR => 0x0e,
        OpCode::STH => 0x0f,
        OpCode::LDZ => 0x10,
        OpCode::STZ => 0x11,
        OpCode::LDR => 0x12,
        OpCode::STR => 0x13,
        OpCode::LDA => 0x14,
        OpCode::STA => 0x15,
        OpCode::DEI => 0x16,
        OpCode::DEO => 0x17,
        OpCode::ADD => 0x18,
        OpCode::SUB => 0x19,
        OpCode::MUL => 0x1a,
        OpCode::DIV => 0x1b,
        OpCode::AND => 0x1c,
        OpCode::ORA => 0x1d,
        OpCode::EOR => 0x1e,
        OpCode::SFT => 0x1f,
    }
}

proof fn lemma_triple_seq(a: char, b: char, c: char, x: char, y: char, z: char)
    ensures
        (seq![a, b, c] == seq![x, y, z]) <==> (a == x && b == y && c == z),
{
    if seq![a, b, c] == seq![x, y, z] {
        assert(seq![a, b, c][0] == seq![x, y, z][0]);
        assert(seq![a, b, c][1] == seq![x, y, z][1]);
        assert(seq![a, b, c][2] == seq![x, y, z][2]);
    }
    if a == x && b == y && c == z {
        assert(seq![a, b, c] =~= seq![x, y, z]);
    }
}

/// No two opcodes share a mnemonic.
pub proof fn lemma_mnemonic_injective(op1: OpCode, op2: OpCode)
    ensures
        opcode_mnemonic(op1) == opcode_mnemonic(op2) ==> op1 == op2,
{
    let (a, b, c) = opcode_letters(op1);
    let (x, y, z) = opcode_letters(op2);
    lemma_triple_seq(a, b, c, x, y, z);
}

/// Reading an opcode's mnemonic gives back the opcode.
pub proof fn lemma_mnemonic_roundtrip(op: OpCode)
    ensures
        mnemonic_opcode(opcode_mnemonic(op)) == Some(op),
{
    let s = opcode_mnemonic(op);
    assert(exists|o: OpCode| opcode_mnemonic(o) == s);
    let chosen = choose|o: OpCode| opcode_mnemonic(o) == s;
    lemma_mnemonic_injective(chosen, op);
}

/// No two opcodes share an encoding byte.
pub proof fn lemma_opcode_byte_injective(op1: OpCode, op2: OpCode)
    ensures
        opcode_byte(op1) == opcode_byte(op2) ==> op1 == op2,
{
}

fn letters_opcode(a: char, b: char, c: char) -> (result: Option<OpCode>)
    ensures
        match result {
            Some(op) => opcode_letters(op) == (a, b, c),
            None => forall|op: OpCode| opcode_letters(op) != (a, b, c),
        },
{
    match (a, b, c) {
        ('B', 'R', 'K') => Some(OpCode::BRK),
        ('L', 'I', 'T') => Some(OpCode::LIT),
        ('I', 'N', 'C') => Some(OpCode::INC),
        ('P', 'O', 'P') => Some(OpCode::POP),
        ('N', 'I', 'P') => Some(OpCode::NIP),
        ('S', 'W', 'P') => Some(OpCode::SWP),
        ('R', 'O', 'T') => Some(OpCode::ROT),
        ('D', 'U', 'P') => Some(OpCode::DUP),
        ('O', 'V', 'R') => Some(OpCode::OVR),
        ('E', 'Q', 'U') => Some(OpCode::EQU),
        ('N', 'E', 'Q') => Some(OpCode::NEQ),
        ('G', 'T', 'H') => Some(OpCode::GTH),
        ('L', 'T', 'H') => Some(OpCode::LTH),
        ('J', 'M', 'P') => Some(OpCode::JMP),
        ('J', 'C', 'N') => Some(OpCode::JCN),
        ('J', 'S', 'R') => Some(OpCode::JSR),
        ('S', 'T', 'H') => Some(OpCode::STH),
        ('L', 'D', 'Z') => Some(OpCode::LDZ),
        ('S', 'T', 'Z') => Some(OpCode::STZ),
        ('L', 'D', 'R') => Some(OpCode::LDR),
        ('S', 'T', 'R') => Some(OpCode::STR),
        ('L', 'D', 'A') => Some(OpCode::LDA),
        ('S', 'T', 'A') => Some(OpCode::STA),
        ('D', 'E', 'I') => Some(OpCode::DEI),
        ('D', 'E', 'O') => Some(OpCode::DEO),
        ('A', 'D', 'D') => Some(OpCode::ADD),
        ('S', 'U', 'B') => Some(OpCode::SUB),
        ('M', 'U', 'L') => Some(OpCode::MUL),
        ('D', 'I', 'V') => Some(OpCode::DIV),
        ('A', 'N', 'D') => Some(OpCode::AND),
        ('O', 'R', 'A') => Some(OpCode::ORA),
        ('E', 'O', 'R') => Some(OpCode::EOR),
        ('S', 'F', 'T') => Some(OpCode::SFT),
        _ => None,
    }
}

impl OpCode {
    /// The opcode whose mnemonic is exactly `mnemonic`.
    pub fn from_mnemonic(mnemonic: &str) -> (result: Option<OpCode>)
        ensures
            result == mnemonic_opcode(mnemonic@),
    {
        let chars = chars_of(mnemonic);
        if chars.len() != 3 {
            assert forall|op: OpCode| opcode_mnemonic(op) != mnemonic@ by {
                assert(opcode_mnemonic(op).len() == 3);
            }
            return None;
        }
        let result = letters_opcode(chars[0], chars[1], chars[2]);
        proof {
            assert(mnemonic@ =~= seq![chars@[0], chars@[1], chars@[2]]);
            match result {
                Some(op) => {
                    lemma_mnemonic_roundtrip(op);
                },
                None => {
                    assert forall|op: OpCode| opcode_mnemonic(op) != mnemonic@ by {
                        let (x, y, z) = opcode_letters(op);
                        lemma_triple_seq(x, y, z, chars@[0], chars@[1], chars@[2]);
                    }
                },
            }
        }
        result
    }

    /// The three letters of this opcode's mnemonic.
    pub fn letters(&self) -> (letters: (char, char, char))
        ensures
            letters == opcode_letters(*self),
    {
        match self {
            OpCode::BRK => ('B', 'R', 'K'),
            OpCode::LIT => ('L', 'I', 'T'),
            OpCode::INC => ('I', 'N', 'C'),
            OpCode::POP => ('P', 'O', 'P'),
            OpCode::NIP => ('N', 'I', 'P'),
            OpCode::SWP => ('S', 'W', 'P'),
            OpCode::ROT => ('R', 'O', 'T'),
            OpCode::DUP => ('D', 'U', 'P'),
            OpCode::OVR => ('O', 'V', 'R'),
            OpCode::EQU => ('E', 'Q', 'U'),
            OpCode::NEQ => ('N', 'E', 'Q'),
            OpCode::GTH => ('G', 'T', 'H'),
            OpCode::LTH => ('L', 'T', 'H'),
            OpCode::JMP => ('J', 'M', 'P'),
            OpCode::JCN => ('J', 'C', 'N'),
            OpCode::JSR => ('J', 'S', 'R'),
            OpCode::STH => ('S', 'T', 'H'),
            OpCode::LDZ => ('L', 'D', 'Z'),
            OpCode::STZ => ('S', 'T', 'Z'),
            OpCode::LDR => ('L', 'D', 'R'),
            OpCode::STR => ('S', 'T', 'R'),
            OpCode::LDA => ('L', 'D', 'A'),
            OpCode::STA => ('S', 'T', 'A'),
            OpCode::DEI => ('D', 'E', 'I'),
            OpCode::DEO => ('D', 'E', 'O'),
            OpCode::ADD => ('A', 'D', 'D'),
            OpCode::SUB => ('S', 'U', 'B'),
            OpCode::MUL => ('M', 'U', 'L'),
            OpCode::DIV => ('D', 'I', 'V'),
            OpCode::AND => ('A', 'N', 'D'),
            OpCode::ORA => ('O', 'R', 'A'),
            OpCode::EOR => ('E', 'O', 'R'),
            OpCode::SFT => ('S', 'F', 'T'),
        }
    }

    /// The byte that encodes this opcode with no mode flags.
    pub fn as_u8(&self) -> (byte: u8)
        ensures
            byte == opcode_byte(*self),
    {
        match self {
            OpCode::BRK => 0x00,
            OpCode::LIT => 0x80,
            OpCode::INC => 0x01,
            OpCode::POP => 0x02,
            OpCode::NIP => 0x03,
            OpCode::SWP => 0x04,
            OpCode::ROT => 0x05,
            OpCode::DUP => 0x06,
            OpCode::OVR => 0x07,
            OpCode::EQU => 0x08,
            OpCode::NEQ => 0x09,
            OpCode::GTH => 0x0a,
            OpCode::LTH => 0x0b,
            OpCode::JMP => 0x0c,
            OpCode::JCN => 0x0d,
            OpCode::JSR => 0x0e,
            OpCode::STH => 0x0f,
            OpCode::LDZ => 0x10,
            OpCode::STZ => 0x11,
            OpCode::LDR => 0x12,
            OpCode::STR => 0x13,
            OpCode::LDA => 0x14,
            OpCode::STA => 0x15,
            OpCode::DEI => 0x16,
            OpCode::DEO => 0x17,
            OpCode::ADD => 0x18,
            OpCode::SUB => 0x19,
            OpCode::MUL => 0x1a,
            OpCode::DIV => 0x1b,
            OpCode::AND => 0x1c,
            OpCode::ORA => 0x1d,
            OpCode::EOR => 0x1e,
            OpCode::SFT => 0x1f,
        }
    }
}

/// The mode flags of an instruction: short (`2`), return (`r`) and keep (`k`).
#[derive(Debug, Copy, Clone, PartialEq, Eq, Structural)]
pub struct OpCodeModes(pub u8);

/// The flag bit that a mode character sets, if it is one.
pub open spec fn mode_flag(c: char) -> Option<u8> {
    if c == '2' {
        Some(0x20)
    } else if c == 'r' {
        Some(0x40)
    } else if c == 'k' {
        Some(0x80)
    } else {
        None
    }
}

/// Adds the flag of `c` to `bits`: `None` when `c` is no mode character or its flag is already set.
pub open spec fn add_mode(bits: u8, c: char) -> Option<u8> {
    match mode_flag(c) {
        Some(flag) => if bits & flag != 0 {
            None
        } else {
            Some(bits | flag)
        },
        None => None,
    }
}

/// The flags spelled by the mode suffix `s`, read from the left, starting from no flags.
pub open spec fn modes_of(s: Seq<char>) -> Option<u8>
    decreases s.len(),
{
    if s.len() == 0 {
        Some(0)
    } else {
        match modes_of(s.drop_last()) {
            Some(bits) => add_mode(bits, s.last()),
            None => None,
        }
    }
}

/// The opcode and modes that an instruction name such as `ADD2k` spells.
pub open spec fn opcode_with_modes(name: Seq<char>) -> Option<(OpCode, OpCodeModes)> {
    if name.len() < 3 {
        None
    } else {
        match mnemonic_opcode(name.take(3)) {
            None => None,
            Some(op) => if name.len() == 3 {
                Some((op, OpCodeModes(0)))
            } else if op == OpCode::BRK || name.len() > 6 {
                None
            } else {
                match modes_of(name.skip(3)) {
                    Some(bits) => Some((op, OpCodeModes(bits))),
                    None => None,
                }
            },
        }
    }
}

proof fn lemma_modes_of_failed(s: Seq<char>, k: int)
    requires
        0 <= k <= s.len(),
        modes_of(s.take(k)) is None,
    ensures
        modes_of(s) is None,
    decreases s.len() - k,
{
    if k < s.len() {
        assert(s.take(k + 1).drop_last() =~= s.take(k));
        lemma_modes_of_failed(s, k + 1);
    } else {
        assert(s.take(k) =~= s);
    }
}

impl OpCode {
    /// Parses an instruction name: a mnemonic followed by up to three distinct mode characters.
    pub fn from_str_with_modes(name: &str) -> (result: Option<(OpCode, OpCodeModes)>)
        ensures
            result == opcode_with_modes(name@),
    {
        let chars = chars_of(name);
        if chars.len() < 3 {
            return None;
        }
        let base = letters_opcode(chars[0], chars[1], chars[2]);
        let ghost prefix = name@.take(3);
        proof {
            assert(prefix =~= seq![chars@[0], chars@[1], chars@[2]]);
            match base {
                Some(op) => {
                    lemma_mnemonic_roundtrip(op);
                },
                None => {
                    assert forall|op: OpCode| opcode_mnemonic(op) != prefix by {
                        let (x, y, z) = opcode_letters(op);
                        lemma_triple_seq(x, y, z, chars@[0], chars@[1], chars@[2]);
                    }
                },
            }
        }
        let base_opcode = match base {
            Some(op) => op,
            None => return None,
        };
        if chars.len() == 3 {
            return Some((base_opcode, OpCodeModes::default()));
        }
        if base_opcode == OpCode::BRK || chars.len() > 6 {
            return None;
        }
        let mut modes = OpCodeModes::default();
        let ghost suffix = name@.skip(3);
        let mut index: usize = 3;
        while index < chars.len()
            invariant
                3 <= index <= chars@.len(),
                chars@ == name@,
                suffix == name@.skip(3),
                modes_of(suffix.take(index - 3)) == Some(modes.0),
            decreases chars@.len() - index,
        {
            let ghost before = modes.0;
            let inserted = modes.insert(chars[index]);
            proof {
                assert(suffix.take(index - 2).drop_last() =~= suffix.take(index - 3));
                assert(suffix.take(index - 2).last() == chars@[index as int]);
            }
            if !inserted {
                proof {
                    lemma_modes_of_failed(suffix, index - 2);
                }
                return None;
            }
            index += 1;
        }
        assert(suffix.take(index - 3) =~= suffix);
        Some((base_opcode, modes))
    }
}

impl OpCodeModes {
    /// Adds the mode named by `chr`; false, and nothing changed, when it is no mode or already set.
    pub fn insert(&mut self, chr: char) -> (inserted: bool)
        ensures
            inserted == (add_mode(old(self).0, chr) is Some),
            inserted ==> final(self).0 == add_mode(old(self).0, chr)->0,
            !inserted ==> *final(self) == *old(self),
    {
        let flag: u8 = if chr == '2' {
            0x20
        } else if chr == 'r' {
            0x40
        } else if chr == 'k' {
            0x80
        } else {
            return false;
        };
        if self.0 & flag != 0 {
            return false;
        }
        self.0 = self.0 | flag;
        true
    }

    pub fn is_short(&self) -> (short: bool)
        ensures
            short == (self.0 & 0x20 != 0),
    {
        self.0 & 0x20 != 0
    }

    pub fn is_return(&self) -> (ret: bool)
        ensures
            ret == (self.0 & 0x40 != 0),
    {
        self.0 & 0x40 != 0
    }

    pub fn is_keep(&self) -> (keep: bool)
        ensures
            keep == (self.0 & 0x80 != 0),
    {
        self.0 & 0x80 != 0
    }

    pub fn as_u8(&self) -> (byte: u8)
        ensures
            byte == self.0,
    {
        self.0
    }
}

impl Default for OpCodeModes {
    fn default() -> (modes: Self)
        ensures
            modes.0 == 0,
    {
        OpCodeModes(0)
    }
}

impl From<OpCodeModes> for u8 {
    fn from(modes: OpCodeModes) -> (byte: u8) {
        modes.0
    }
}

impl vstd::std_specs::convert::FromSpecImpl<OpCodeModes> for u8 {
    open spec fn obeys_from_spec() -> bool {
        true
    }

    open spec fn from_spec(modes: OpCodeModes) -> u8 {
        modes.0
    }
}

impl From<u8> for OpCodeModes {
    fn from(byte: u8) -> (modes: Self) {
        OpCodeModes(byte)
    }
}

impl vstd::std_specs::convert::FromSpecImpl<u8> for OpCodeModes {
    open spec fn obeys_from_spec() -> bool {
        true
    }

    open spec fn from_spec(byte: u8) -> OpCodeModes {
        OpCodeModes(byte)
    }
}

} // verus!
