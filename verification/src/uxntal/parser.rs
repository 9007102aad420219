use vstd::prelude::*;
use vstd::utf8::encode_utf8;
use super::location::Location;
use super::number::{hex_number, hex_padding, Number};
use super::opcode::{opcode_with_modes, OpCode, OpCodeModes};
use super::source_map::SourceMap;
use super::statement::{ReferenceKind, Statement, StatementKind};
use super::token::{Token, TokenKind};
use crate::text::{chars_of, push_str, string_from_chars};

verus! {

/// Characters that start a rune and so cannot start a label name.
pub open spec fn is_rune(c: char) -> bool {
    c == '|' || c == '$' || c == '@' || c == '&' || c == '%' || c == '(' || c == ',' || c == '_' || c == '.'
        || c == '-' || c == ';' || c == '=' || c == '?' || c == '!' || c == '#' || c == '}' || c == '~'
        || c == '[' || c == ']' || c == '"'
}

fn is_rune_char(c: char) -> (rune: bool)
    ensures
        rune == is_rune(c),
{
    c == '|' || c == '$' || c == '@' || c == '&' || c == '%' || c == '(' || c == ',' || c == '_' || c == '.'
        || c == '-' || c == ';' || c == '=' || c == '?' || c == '!' || c == '#' || c == '}' || c == '~'
        || c == '[' || c == ']' || c == '"'
}

/// A sublabel name: not empty, no `/`, and no rune in front.
pub open spec fn valid_sublabel_name(name: Seq<char>) -> bool {
    name.len() > 0 && !name.contains('/') && !is_rune(name[0])
}

/// A scope name: a valid sublabel name that is neither a hex number nor an instruction name.
pub open spec fn valid_scope_name(name: Seq<char>) -> bool {
    valid_sublabel_name(name) && hex_number(name) is None && opcode_with_modes(name) is None
}

/// The position of the first `/` in `name`, if any.
pub open spec fn first_slash(name: Seq<char>) -> Option<int> {
    if name.contains('/') {
        Some(choose|i: int| 0 <= i < name.len() && name[i] == '/' && forall|j: int| 0 <= j < i ==> name[j] != '/')
    } else {
        None
    }
}

/// A label name: for a sublabel, a valid sublabel name; otherwise a scope name, or a scope name,
/// a `/` and a sublabel name.
pub open spec fn valid_label_name(name: Seq<char>, is_sublabel: bool) -> bool {
    if is_sublabel {
        valid_sublabel_name(name)
    } else {
        match first_slash(name) {
            Some(i) => valid_scope_name(name.take(i)) && valid_sublabel_name(name.skip(i + 1)),
            None => valid_scope_name(name),
        }
    }
}

/// A reference target: `&name` and `/name` name a sublabel of the current scope.
pub open spec fn valid_reference_name(name: Seq<char>) -> bool {
    if name.len() > 0 && (name[0] == '&' || name[0] == '/') {
        valid_label_name(name.skip(1), true)
    } else {
        valid_label_name(name, false)
    }
}

fn contains_slash(name: &[char]) -> (found: Option<usize>)
    ensures
        match found {
            Some(i) => i < name@.len() && name@[i as int] == '/' && forall|j: int| 0 <= j < i ==> name@[j] != '/',
            None => !name@.contains('/'),
        },
{
    let mut index: usize = 0;
    while index < name.len()
        invariant
            index <= name@.len(),
            forall|j: int| 0 <= j < index ==> name@[j] != '/',
        decreases name@.len() - index,
    {
        if name[index] == '/' {
            return Some(index);
        }
        index += 1;
    }
    None
}

proof fn lemma_first_slash(name: Seq<char>, i: int)
    requires
        0 <= i < name.len(),
        name[i] == '/',
        forall|j: int| 0 <= j < i ==> name[j] != '/',
    ensures
        first_slash(name) == Some(i),
{
    assert(name.contains('/'));
    let k = choose|k: int| 0 <= k < name.len() && name[k] == '/' && forall|j: int| 0 <= j < k ==> name[j] != '/';
    if k < i {
        assert(name[k] != '/');
    } else if k > i {
        assert(name[i] != '/');
    }
}

fn is_valid_sublabel_name(name: &[char]) -> (valid: bool)
    ensures
        valid == valid_sublabel_name(name@),
{
    name.len() > 0 && contains_slash(name).is_none() && !is_rune_char(name[0])
}

fn is_valid_scope_name(name: &[char]) -> (valid: bool)
    ensures
        valid == valid_scope_name(name@),
{
    if !is_valid_sublabel_name(name) {
        return false;
    }
    let text = string_from_chars(name);
    Number::from_hex(text.as_str()).is_none() && OpCode::from_str_with_modes(text.as_str()).is_none()
}

fn is_valid_label_name(name: &[char], is_sublabel: bool) -> (valid: bool)
    ensures
        valid == valid_label_name(name@, is_sublabel),
{
    if is_sublabel {
        return is_valid_sublabel_name(name);
    }
    let length = name.len();
    match contains_slash(name) {
        Some(i) => {
            proof {
                lemma_first_slash(name@, i as int);
            }
            let scope = vstd::slice::slice_subrange(name, 0, i);
            let sublabel = vstd::slice::slice_subrange(name, i + 1, name.len());
            assert(scope@ =~= name@.take(i as int));
            assert(sublabel@ =~= name@.skip(i + 1));
            is_valid_scope_name(scope) && is_valid_sublabel_name(sublabel)
        },
        None => is_valid_scope_name(name),
    }
}

fn is_valid_reference_name(name: &[char]) -> (valid: bool)
    ensures
        valid == valid_reference_name(name@),
{
    if name.len() > 0 && (name[0] == '&' || name[0] == '/') {
        let rest = vstd::slice::slice_subrange(name, 1, name.len());
        assert(rest@ =~= name@.skip(1));
        is_valid_label_name(rest, true)
    } else {
        is_valid_label_name(name, false)
    }
}

pub open spec fn token_kind_name(kind: TokenKind) -> Seq<char> {
    match kind {
        TokenKind::Include => "Include"@,
        TokenKind::BraceOpen => "BraceOpen"@,
        TokenKind::BraceClose => "BraceClose"@,
        TokenKind::BracketOpen => "BracketOpen"@,
        TokenKind::BracketClose => "BracketClose"@,
        TokenKind::MacroDefinition => "MacroDefinition"@,
        TokenKind::Number => "Number"@,
        TokenKind::HexLiteral => "HexLiteral"@,
        TokenKind::OpCode => "OpCode"@,
        TokenKind::RawString => "RawString"@,
        TokenKind::Identifier => "Identifier"@,
        TokenKind::PadAbsolute => "PadAbsolute"@,
        TokenKind::PadRelative => "PadRelative"@,
        TokenKind::Label => "Label"@,
        TokenKind::Sublabel => "Sublabel"@,
        TokenKind::JumpImmediate => "JumpImmediate"@,
        TokenKind::JumpConditional => "JumpConditional"@,
        TokenKind::LiteralAbsolute => "LiteralAbsolute"@,
        TokenKind::LiteralZeroPage => "LiteralZeroPage"@,
        TokenKind::LiteralRelative => "LiteralRelative"@,
        TokenKind::RawAbsolute => "RawAbsolute"@,
        TokenKind::RawZeroPage => "RawZeroPage"@,
        TokenKind::RawRelative => "RawRelative"@,
        TokenKind::Unknown => "Unknown"@,
    }
}

fn push_token_kind_name(out: &mut String, kind: TokenKind)
    ensures
        final(out)@ == old(out)@ + token_kind_name(kind),
{
    match kind {
        TokenKind::Include => push_str(out, "Include"),
        TokenKind::BraceOpen => push_str(out, "BraceOpen"),
        TokenKind::BraceClose => push_str(out, "BraceClose"),
        TokenKind::BracketOpen => push_str(out, "BracketOpen"),
        TokenKind::BracketClose => push_str(out, "BracketClose"),
        TokenKind::MacroDefinition => push_str(out, "MacroDefinition"),
        TokenKind::Number => push_str(out, "Number"),
        TokenKind::HexLiteral => push_str(out, "HexLiteral"),
        TokenKind::OpCode => push_str(out, "OpCode"),
        TokenKind::RawString => push_str(out, "RawString"),
        TokenKind::Identifier => push_str(out, "Identifier"),
        TokenKind::PadAbsolute => push_str(out, "PadAbsolute"),
        TokenKind::PadRelative => push_str(out, "PadRelative"),
        TokenKind::Label => push_str(out, "Label"),
        TokenKind::Sublabel => push_str(out, "Sublabel"),
        TokenKind::JumpImmediate => push_str(out, "JumpImmediate"),
        TokenKind::JumpConditional => push_str(out, "JumpConditional"),
        TokenKind::LiteralAbsolute => push_str(out, "LiteralAbsolute"),
        TokenKind::LiteralZeroPage => push_str(out, "LiteralZeroPage"),
        TokenKind::LiteralRelative => push_str(out, "LiteralRelative"),
        TokenKind::RawAbsolute => push_str(out, "RawAbsolute"),
        TokenKind::RawZeroPage => push_str(out, "RawZeroPage"),
        TokenKind::RawRelative => push_str(out, "RawRelative"),
        TokenKind::Unknown => push_str(out, "Unknown"),
    }
}

/// What went wrong while parsing.
#[derive(Debug, Clone, Copy, PartialEq, Eq, Structural)]
pub enum ParserErrorKind {
    LabelRedefinition,
    InvalidOpCode,
    InvalidLabelName,
    WriteToZeroPage,
    MemoryOverwrite,
    InvalidHexLiteral,
    UnexpectedToken { expected: TokenKind, actual: TokenKind },
    Unimplemented { kind: TokenKind },
    UnexpectedEof,
}

/// The message of a parse error.
pub open spec fn parser_error_text(kind: ParserErrorKind) -> Seq<char> {
    match kind {
        ParserErrorKind::LabelRedefinition => "A label with this name already exists"@,
        ParserErrorKind::InvalidOpCode => "Invalid opcode"@,
        ParserErrorKind::InvalidLabelName => "Invalid label name"@,
        ParserErrorKind::WriteToZeroPage => "Writing in zero-page"@,
        ParserErrorKind::MemoryOverwrite => "Memory overwrite"@,
        ParserErrorKind::InvalidHexLiteral => "Invalid hex number"@,
        ParserErrorKind::UnexpectedToken { expected, actual } =>
            "Unexpected token type - expected: "@ + token_kind_name(expected) + ", got "@ + token_kind_name(actual),
        ParserErrorKind::Unimplemented { kind } => "Token type "@ + token_kind_name(kind) + " not implemented"@,
        ParserErrorKind::UnexpectedEof => "Unexpected end of input"@,
    }
}

impl ParserErrorKind {
    /// This error placed at `location`.
    pub fn at(self, location: Location) -> (error: ParserError)
        ensures
            error@ == (self, location),
    {
        ParserError { kind: self, location }
    }

    /// The error's message.
    pub fn to_string(&self) -> (text: String)
        ensures
            text@ == parser_error_text(*self),
    {
        let mut text = String::new();
        match self {
            ParserErrorKind::LabelRedefinition => push_str(&mut text, "A label with this name already exists"),
            ParserErrorKind::InvalidOpCode => push_str(&mut text, "Invalid opcode"),
            ParserErrorKind::InvalidLabelName => push_str(&mut text, "Invalid label name"),
            ParserErrorKind::WriteToZeroPage => push_str(&mut text, "Writing in zero-page"),
            ParserErrorKind::MemoryOverwrite => push_str(&mut text, "Memory overwrite"),
            ParserErrorKind::InvalidHexLiteral => push_str(&mut text, "Invalid hex number"),
            ParserErrorKind::UnexpectedToken { expected, actual } => {
                push_str(&mut text, "Unexpected token type - expected: ");
                push_token_kind_name(&mut text, *expected);
                push_str(&mut text, ", got ");
                push_token_kind_name(&mut text, *actual);
            },
            ParserErrorKind::Unimplemented { kind } => {
                push_str(&mut text, "Token type ");
                push_token_kind_name(&mut text, *kind);
                push_str(&mut text, " not implemented");
            },
            ParserErrorKind::UnexpectedEof => push_str(&mut text, "Unexpected end of input"),
        }
        text
    }
}

/// A parse error and the location of the token that caused it.
#[derive(Debug, PartialEq, Eq)]
pub struct ParserError {
    kind: ParserErrorKind,
    location: Location,
}

impl View for ParserError {
    type V = (ParserErrorKind, Location);

    closed spec fn view(&self) -> (ParserErrorKind, Location) {
        (self.kind, self.location)
    }
}

impl ParserError {
    pub fn new(kind: ParserErrorKind, location: Location) -> (error: Self)
        ensures
            error@ == (kind, location),
    {
        ParserError { kind, location }
    }

    pub fn location(&self) -> (location: Location)
        ensures
            location == self@.1,
    {
        self.location
    }

    pub fn kind(&self) -> (kind: &ParserErrorKind)
        ensures
            *kind == self@.0,
    {
        &self.kind
    }

    /// The error's message: that of its kind.
    pub fn to_string(&self) -> (text: String)
        ensures
            text@ == parser_error_text(self@.0),
    {
        self.kind.to_string()
    }

    /// A full report of this error with the file and source registered in `source_map`.
    pub fn format_error(&self, source_map: &SourceMap) -> (report: String)
        ensures
            report@ == super::source_map::error_report_text(source_map@, self@.1, parser_error_text(self@.0)),
    {
        let message = self.to_string();
        source_map.format_error(self.location, message.as_str())
    }
}

/// The view of a statement kind, with text and bytes as sequences.
pub enum StatementView {
    PadAbsolute(u16),
    PadRelative(u16),
    Label(Seq<char>),
    Sublabel(Seq<char>),
    Instruction(OpCode, OpCodeModes),
    LiteralByte(u8),
    LiteralShort(u16),
    RawBytes(Seq<u8>),
    Reference(ReferenceKind, Seq<char>),
}

pub open spec fn statement_view(kind: StatementKind) -> StatementView {
    match kind {
        StatementKind::PadAbsolute(address) => StatementView::PadAbsolute(address),
        StatementKind::PadRelative(offset) => StatementView::PadRelative(offset),
        StatementKind::Label(name) => StatementView::Label(name@),
        StatementKind::Sublabel(name) => StatementView::Sublabel(name@),
        StatementKind::Instruction(opcode, modes) => StatementView::Instruction(opcode, modes),
        StatementKind::LiteralByte(byte) => StatementView::LiteralByte(byte),
        StatementKind::LiteralShort(short) => StatementView::LiteralShort(short),
        StatementKind::RawBytes(bytes) => StatementView::RawBytes(bytes@),
        StatementKind::Reference { kind, target } => StatementView::Reference(kind, target@),
    }
}

/// The reference kind a token kind stands for, if it is one of the reference runes.
pub open spec fn reference_kind_of(kind: TokenKind) -> Option<ReferenceKind> {
    match kind {
        TokenKind::JumpImmediate => Some(ReferenceKind::JumpImmediate),
        TokenKind::JumpConditional => Some(ReferenceKind::JumpConditional),
        TokenKind::LiteralAbsolute => Some(ReferenceKind::LiteralAbsolute),
        TokenKind::LiteralRelative => Some(ReferenceKind::LiteralRelative),
        TokenKind::LiteralZeroPage => Some(ReferenceKind::LiteralZeroPage),
        TokenKind::RawAbsolute => Some(ReferenceKind::RawAbsolute),
        TokenKind::RawRelative => Some(ReferenceKind::RawRelative),
        TokenKind::RawZeroPage => Some(ReferenceKind::RawZeroPage),
        _ => None,
    }
}

/// A token the parser can read: for kinds whose rune it strips, with a one-byte (ASCII) rune in
/// front. Tokens of kinds it does not parse are refused as unimplemented.
pub open spec fn parsable_token(token: Token) -> bool {
    &&& (token.kind is RawString ==> token.value@.len() > 0)
    &&& (token.kind is HexLiteral || token.kind is Label || token.kind is Sublabel || token.kind is PadAbsolute
        || token.kind is PadRelative || reference_kind_of(token.kind) is Some) ==> token.value@.len() > 0
        && (token.value@[0] as u32) < 0x80
}

/// Every token the tokenizer makes (every well-formed token) is one the parser can read.
pub proof fn lemma_well_formed_parsable(tokens: Seq<Token>)
    requires
        super::token::all_well_formed(tokens),
    ensures
        forall|k: int| 0 <= k < tokens.len() ==> parsable_token(#[trigger] tokens[k]),
{
    assert forall|k: int| 0 <= k < tokens.len() implies parsable_token(#[trigger] tokens[k]) by {
        assert(super::token::well_formed_token(super::token::token_view(tokens[k])));
    }
}

/// The statement a token stands for, or why it is refused.
pub open spec fn token_statement(token: Token) -> Result<StatementView, ParserErrorKind> {
    let value = token.value@;
    let rest = value.skip(1);
    match token.kind {
        TokenKind::Number => match hex_number(value) {
            Some(Number::Byte(byte)) => Ok(StatementView::RawBytes(seq![byte])),
            Some(Number::Short(short)) => Ok(StatementView::RawBytes(seq![crate::uxn::bytes::high_byte(short), crate::uxn::bytes::low_byte(short)])),
            None => Err(ParserErrorKind::InvalidHexLiteral),
        },
        TokenKind::RawString => Ok(StatementView::RawBytes(encode_utf8(value).skip(1))),
        TokenKind::Identifier => {
            let valid = if value.len() > 0 && value[0] == '/' {
                valid_label_name(rest, true)
            } else {
                valid_label_name(value, false)
            };
            if valid {
                Ok(StatementView::Reference(ReferenceKind::JumpStash, value))
            } else {
                Err(ParserErrorKind::InvalidLabelName)
            }
        },
        TokenKind::HexLiteral => match hex_number(rest) {
            Some(Number::Byte(byte)) => Ok(StatementView::LiteralByte(byte)),
            Some(Number::Short(short)) => Ok(StatementView::LiteralShort(short)),
            None => Err(ParserErrorKind::InvalidHexLiteral),
        },
        TokenKind::Label => if valid_label_name(rest, false) {
            Ok(StatementView::Label(rest))
        } else {
            Err(ParserErrorKind::InvalidLabelName)
        },
        TokenKind::Sublabel => if valid_label_name(rest, true) {
            Ok(StatementView::Sublabel(rest))
        } else {
            Err(ParserErrorKind::InvalidLabelName)
        },
        TokenKind::OpCode => match opcode_with_modes(value) {
            Some((opcode, modes)) => Ok(StatementView::Instruction(opcode, modes)),
            None => Err(ParserErrorKind::InvalidOpCode),
        },
        TokenKind::PadAbsolute => match hex_padding(rest) {
            Some(amount) => Ok(StatementView::PadAbsolute(amount)),
            None => Err(ParserErrorKind::InvalidHexLiteral),
        },
        TokenKind::PadRelative => match hex_padding(rest) {
            Some(amount) => Ok(StatementView::PadRelative(amount)),
            None => Err(ParserErrorKind::InvalidHexLiteral),
        },
        _ => match reference_kind_of(token.kind) {
            Some(kind) => if valid_reference_name(rest) {
                Ok(StatementView::Reference(kind, rest))
            } else {
                Err(ParserErrorKind::InvalidLabelName)
            },
            None => Err(ParserErrorKind::Unimplemented { kind: token.kind }),
        },
    }
}

/// The statements of `tokens` with their locations, brackets skipped; or the first error.
pub open spec fn parse_tokens(tokens: Seq<Token>) -> Result<Seq<(StatementView, Location)>, (ParserErrorKind, Location)>
    decreases tokens.len(),
{
    if tokens.len() == 0 {
        Ok(seq![])
    } else {
        match parse_tokens(tokens.drop_last()) {
            Err(error) => Err(error),
            Ok(done) => {
                let token = tokens.last();
                if token.kind is BracketOpen || token.kind is BracketClose {
                    Ok(done)
                } else {
                    match token_statement(token) {
                        Ok(view) => Ok(done.push((view, token.location))),
                        Err(kind) => Err((kind, token.location)),
                    }
                }
            },
        }
    }
}

/// `statements` are the statements that `views` describe.
pub open spec fn statements_match(statements: Seq<Statement>, views: Seq<(StatementView, Location)>) -> bool {
    &&& statements.len() == views.len()
    &&& forall|k: int| 0 <= k < statements.len() ==>
        (statement_view((#[trigger] statements[k]).kind), statements[k].location) == views[k]
}

/// The characters of `value` after its first one.
fn after_rune(value: &str) -> (rest: Vec<char>)
    requires
        value@.len() > 0,
    ensures
        rest@ == value@.skip(1),
{
    let chars = chars_of(value);
    let mut rest: Vec<char> = Vec::new();
    let mut index: usize = 1;
    while index < chars.len()
        invariant
            1 <= index <= chars@.len(),
            chars@ == value@,
            rest@ == value@.subrange(1, index as int),
        decreases chars@.len() - index,
    {
        rest.push(chars[index]);
        index += 1;
        assert(rest@ =~= value@.subrange(1, index as int));
    }
    assert(rest@ =~= value@.skip(1));
    rest
}

/// Parses a sequence of tokens into statements.
pub struct Parser<'t> {
    tokens: &'t [Token],
}

impl<'t> Parser<'t> {
    /// The tokens still to parse.
    pub closed spec fn pending_tokens(&self) -> Seq<Token> {
        self.tokens@
    }

    /// The statements of `tokens`, brackets skipped, or the first error.
    pub fn parse(tokens: &'t [Token]) -> (result: Result<Vec<Statement>, ParserError>)
        requires
            forall|k: int| 0 <= k < tokens@.len() ==> parsable_token(#[trigger] tokens@[k]),
        ensures
            match parse_tokens(tokens@) {
                Ok(views) => result matches Ok(statements) && statements_match(statements@, views),
                Err(error) => result matches Err(e) && e@ == error,
            },
    {
        let parser = Self::new(tokens);
        parser.parse_program()
    }

    pub fn new(tokens: &'t [Token]) -> (parser: Self)
        ensures
            parser.pending_tokens() == tokens@,
    {
        Parser { tokens }
    }

    fn parse_program(&self) -> (result: Result<Vec<Statement>, ParserError>)
        requires
            forall|k: int| 0 <= k < self.tokens@.len() ==> parsable_token(#[trigger] self.tokens@[k]),
        ensures
            match parse_tokens(self.tokens@) {
                Ok(views) => result matches Ok(statements) && statements_match(statements@, views),
                Err(error) => result matches Err(e) && e@ == error,
            },
    {
        let mut statements: Vec<Statement> = Vec::new();
        let mut index: usize = 0;
        while index < self.tokens.len()
            invariant
                index <= self.tokens@.len(),
                forall|k: int| 0 <= k < self.tokens@.len() ==> parsable_token(#[trigger] self.tokens@[k]),
                parse_tokens(self.tokens@.take(index as int)) matches Ok(views) && statements_match(statements@, views),
            decreases self.tokens@.len() - index,
        {
            let token = &self.tokens[index];
            assert(self.tokens@.take(index + 1).drop_last() =~= self.tokens@.take(index as int));
            assert(parsable_token(self.tokens@[index as int]));
            let ghost views = parse_tokens(self.tokens@.take(index as int))->Ok_0;
            if token.kind == TokenKind::BracketOpen || token.kind == TokenKind::BracketClose {
                index += 1;
                continue;
            }
            match Self::parse_token(token) {
                Ok(statement) => {
                    let ghost before = statements@;
                    statements.push(statement);
                    proof {
                        let extended = views.push((statement_view(statement.kind), statement.location));
                        assert(statements_match(statements@, extended)) by {
                            assert forall|k: int| 0 <= k < statements@.len() implies
                                (statement_view((#[trigger] statements@[k]).kind), statements@[k].location) == extended[k] by {
                                if k < statements@.len() - 1 {
                                    assert(statements@[k] == before[k]);
                                }
                            }
                        }
                    }
                },
                Err(error) => {
                    proof {
                        lemma_parse_error(self.tokens@, index + 1);
                    }
                    return Err(error);
                },
            }
            index += 1;
        }
        assert(self.tokens@.take(index as int) =~= self.tokens@);
        Ok(statements)
    }

    /// The statement of one token that is not a bracket.
    fn parse_token(token: &Token) -> (result: Result<Statement, ParserError>)
        requires
            parsable_token(*token),
            !(token.kind is BracketOpen || token.kind is BracketClose),
        ensures
            match token_statement(*token) {
                Ok(view) => result matches Ok(statement) && statement_view(statement.kind) == view
                    && statement.location == token.location,
                Err(kind) => result matches Err(error) && error@ == (kind, token.location),
            },
    {
        match token.kind {
            TokenKind::Number => Self::parse_number(token),
            TokenKind::RawString => Self::parse_raw_string(token),
            TokenKind::Identifier => Self::parse_identifier(token),
            TokenKind::HexLiteral => Self::parse_hex_literal(token),
            TokenKind::Label | TokenKind::Sublabel => Self::parse_label(token),
            TokenKind::OpCode => Self::parse_opcode(token),
            TokenKind::PadAbsolute | TokenKind::PadRelative => Self::parse_padding(token),
            TokenKind::Include | TokenKind::BraceOpen | TokenKind::BraceClose | TokenKind::MacroDefinition
            | TokenKind::Unknown | TokenKind::BracketOpen | TokenKind::BracketClose => {
                Err(ParserErrorKind::Unimplemented { kind: token.kind }.at(token.location))
            },
            _ => Self::parse_reference(token),
        }
    }

    /// Raw bytes from a number of two or four hexadecimal digits.
    fn parse_number(token: &Token) -> (result: Result<Statement, ParserError>)
        requires
            parsable_token(*token),
            token.kind is Number,
        ensures
            match token_statement(*token) {
                Ok(view) => result matches Ok(statement) && statement_view(statement.kind) == view
                    && statement.location == token.location,
                Err(kind) => result matches Err(error) && error@ == (kind, token.location),
            },
    {
        let location = token.location;
        match Number::from_hex(token.value.as_str()) {
            Some(Number::Byte(value)) => {
                let bytes = vec![value];
                assert(bytes@ =~= seq![value]);
                Ok(Statement::new(StatementKind::RawBytes(bytes), location))
            },
            Some(Number::Short(value)) => {
                let bytes = vec![crate::uxn::bytes::short_high(value), crate::uxn::bytes::short_low(value)];
                assert(bytes@ =~= seq![crate::uxn::bytes::high_byte(value), crate::uxn::bytes::low_byte(value)]);
                Ok(Statement::new(StatementKind::RawBytes(bytes), location))
            },
            None => Err(ParserErrorKind::InvalidHexLiteral.at(location)),
        }
    }

    /// The UTF-8 bytes of a raw string, without its rune.
    fn parse_raw_string(token: &Token) -> (result: Result<Statement, ParserError>)
        requires
            parsable_token(*token),
            token.kind is RawString,
        ensures
            match token_statement(*token) {
                Ok(view) => result matches Ok(statement) && statement_view(statement.kind) == view
                    && statement.location == token.location,
                Err(kind) => result matches Err(error) && error@ == (kind, token.location),
            },
    {
        let location = token.location;
        let all = token.value.as_str().as_bytes();
        let bytes = vstd::slice::slice_to_vec(vstd::slice::slice_subrange(all, 1, all.len()));
        assert(bytes@ =~= encode_utf8(token.value@).skip(1));
        Ok(Statement::new(StatementKind::RawBytes(bytes), location))
    }

    /// A subroutine call (JSI) to the label a bare word names.
    fn parse_identifier(token: &Token) -> (result: Result<Statement, ParserError>)
        requires
            parsable_token(*token),
            token.kind is Identifier,
        ensures
            match token_statement(*token) {
                Ok(view) => result matches Ok(statement) && statement_view(statement.kind) == view
                    && statement.location == token.location,
                Err(kind) => result matches Err(error) && error@ == (kind, token.location),
            },
    {
        let location = token.location;
        let chars = chars_of(token.value.as_str());
        let valid = if chars.len() > 0 && chars[0] == '/' {
            let rest = vstd::slice::slice_subrange(chars.as_slice(), 1, chars.len());
            assert(rest@ =~= token.value@.skip(1));
            is_valid_label_name(rest, true)
        } else {
            is_valid_label_name(chars.as_slice(), false)
        };
        if !valid {
            return Err(ParserErrorKind::InvalidLabelName.at(location));
        }
        Ok(Statement::new(StatementKind::Reference { kind: ReferenceKind::JumpStash, target: token.value.clone() }, location))
    }

    /// A byte or short literal (`#12`, `#1234`).
    fn parse_hex_literal(token: &Token) -> (result: Result<Statement, ParserError>)
        requires
            parsable_token(*token),
            token.kind is HexLiteral,
        ensures
            match token_statement(*token) {
                Ok(view) => result matches Ok(statement) && statement_view(statement.kind) == view
                    && statement.location == token.location,
                Err(kind) => result matches Err(error) && error@ == (kind, token.location),
            },
    {
        let location = token.location;
        let rest = string_from_chars(after_rune(token.value.as_str()).as_slice());
        match Number::from_hex(rest.as_str()) {
            Some(Number::Byte(value)) => Ok(Statement::new(StatementKind::LiteralByte(value), location)),
            Some(Number::Short(value)) => Ok(Statement::new(StatementKind::LiteralShort(value), location)),
            None => Err(ParserErrorKind::InvalidHexLiteral.at(location)),
        }
    }

    /// A label (`@name`) or sublabel (`&name`) definition.
    fn parse_label(token: &Token) -> (result: Result<Statement, ParserError>)
        requires
            parsable_token(*token),
            token.kind is Label || token.kind is Sublabel,
        ensures
            match token_statement(*token) {
                Ok(view) => result matches Ok(statement) && statement_view(statement.kind) == view
                    && statement.location == token.location,
                Err(kind) => result matches Err(error) && error@ == (kind, token.location),
            },
    {
        let location = token.location;
        let rest = after_rune(token.value.as_str());
        let is_sublabel = token.kind == TokenKind::Sublabel;
        if !is_valid_label_name(rest.as_slice(), is_sublabel) {
            return Err(ParserErrorKind::InvalidLabelName.at(location));
        }
        let name = string_from_chars(rest.as_slice());
        if is_sublabel {
            Ok(Statement::new(StatementKind::Sublabel(name), location))
        } else {
            Ok(Statement::new(StatementKind::Label(name), location))
        }
    }

    /// An instruction: an opcode mnemonic with its mode flags.
    fn parse_opcode(token: &Token) -> (result: Result<Statement, ParserError>)
        requires
            parsable_token(*token),
            token.kind is OpCode,
        ensures
            match token_statement(*token) {
                Ok(view) => result matches Ok(statement) && statement_view(statement.kind) == view
                    && statement.location == token.location,
                Err(kind) => result matches Err(error) && error@ == (kind, token.location),
            },
    {
        let location = token.location;
        match OpCode::from_str_with_modes(token.value.as_str()) {
            Some((opcode, modes)) => Ok(Statement::new(StatementKind::Instruction(opcode, modes), location)),
            None => Err(ParserErrorKind::InvalidOpCode.at(location)),
        }
    }

    /// An absolute (`|0100`) or relative (`$10`) padding.
    fn parse_padding(token: &Token) -> (result: Result<Statement, ParserError>)
        requires
            parsable_token(*token),
            token.kind is PadAbsolute || token.kind is PadRelative,
        ensures
            match token_statement(*token) {
                Ok(view) => result matches Ok(statement) && statement_view(statement.kind) == view
                    && statement.location == token.location,
                Err(kind) => result matches Err(error) && error@ == (kind, token.location),
            },
    {
        let location = token.location;
        let rest = string_from_chars(after_rune(token.value.as_str()).as_slice());
        match Number::from_hex_padding(rest.as_str()) {
            Some(amount) => {
                if token.kind == TokenKind::PadAbsolute {
                    Ok(Statement::new(StatementKind::PadAbsolute(amount), location))
                } else {
                    Ok(Statement::new(StatementKind::PadRelative(amount), location))
                }
            },
            None => Err(ParserErrorKind::InvalidHexLiteral.at(location)),
        }
    }

    /// A reference statement for a token whose rune names a reference kind.
    fn parse_reference(token: &Token) -> (result: Result<Statement, ParserError>)
        requires
            parsable_token(*token),
            reference_kind_of(token.kind) is Some,
        ensures
            match token_statement(*token) {
                Ok(view) => result matches Ok(statement) && statement_view(statement.kind) == view
                    && statement.location == token.location,
                Err(kind) => result matches Err(error) && error@ == (kind, token.location),
            },
    {
        let location = token.location;
        let rest = after_rune(token.value.as_str());
        if !is_valid_reference_name(rest.as_slice()) {
            return Err(ParserErrorKind::InvalidLabelName.at(location));
        }
        let kind = match token.kind {
            TokenKind::JumpImmediate => ReferenceKind::JumpImmediate,
            TokenKind::JumpConditional => ReferenceKind::JumpConditional,
            TokenKind::LiteralAbsolute => ReferenceKind::LiteralAbsolute,
            TokenKind::LiteralRelative => ReferenceKind::LiteralRelative,
            TokenKind::LiteralZeroPage => ReferenceKind::LiteralZeroPage,
            TokenKind::RawAbsolute => ReferenceKind::RawAbsolute,
            TokenKind::RawRelative => ReferenceKind::RawRelative,
            _ => ReferenceKind::RawZeroPage,
        };
        let target = string_from_chars(rest.as_slice());
        Ok(Statement::new(StatementKind::Reference { kind, target }, location))
    }
}

proof fn lemma_parse_error(tokens: Seq<Token>, k: int)
    requires
        0 <= k <= tokens.len(),
        parse_tokens(tokens.take(k)) is Err,
    ensures
        parse_tokens(tokens) == parse_tokens(tokens.take(k)),
    decreases tokens.len() - k,
{
    if k < tokens.len() {
        assert(tokens.take(k + 1).drop_last() =~= tokens.take(k));
        lemma_parse_error(tokens, k + 1);
    } else {
        assert(tokens.take(k) =~= tokens);
    }
}

} // verus!
