use vstd::prelude::*;

pub mod number;
pub use number::Number;

pub mod opcode;
pub use opcode::{OpCode, OpCodeModes};

pub mod source_map;
pub use source_map::{FileId, SourceFile, SourceMap};

pub mod location;
pub use location::Location;

pub mod label;
pub use label::Label;

pub mod statement;
pub use statement::{ReferenceKind, Statement, StatementKind};

pub mod token;
pub use token::{Token, TokenKind};

pub mod symbol_table;
pub use symbol_table::{Symbol, SymbolTable, SymbolTableError};

pub mod disassembler;
pub use disassembler::{DecodedInstruction, Disassembler, DisassemblyOptions, InstructionKind, MnemonicCategory};

pub mod assembler;
pub use assembler::{AssembledProgram, Assembler, AssemblerError, AssemblerErrorKind};

pub mod tokenizer;
pub use tokenizer::Tokenizer;

pub mod parser;
pub use parser::{Parser, ParserError, ParserErrorKind};

pub mod preprocessor;
pub use preprocessor::{Preprocessor, PreprocessorError, PreprocessorErrorKind};

verus! {

/// An error from any stage of assembly.
#[derive(Debug, PartialEq, Eq)]
pub enum UxntalError {
    Preprocessor(PreprocessorError),
    Parser(ParserError),
    Assembler(AssemblerError),
}

/// Where an error happened.
pub open spec fn uxntal_error_location(error: UxntalError) -> Location {
    match error {
        UxntalError::Preprocessor(e) => e@.1,
        UxntalError::Parser(e) => e@.1,
        UxntalError::Assembler(e) => e@.1,
    }
}

/// The message of an error: that of the stage's error.
pub open spec fn uxntal_error_text(error: UxntalError) -> Seq<char> {
    match error {
        UxntalError::Preprocessor(e) => preprocessor::preprocessor_fault_text(e@.0),
        UxntalError::Parser(e) => parser::parser_error_text(e@.0),
        UxntalError::Assembler(e) => assembler::fault_text(e@.0),
    }
}

impl UxntalError {
    pub fn location(&self) -> (location: Location)
        ensures
            location == uxntal_error_location(*self),
    {
        match self {
            UxntalError::Preprocessor(e) => e.location(),
            UxntalError::Parser(e) => e.location(),
            UxntalError::Assembler(e) => e.location(),
        }
    }

    /// The error's message.
    pub fn to_string(&self) -> (text: String)
        ensures
            text@ == uxntal_error_text(*self),
    {
        match self {
            UxntalError::Preprocessor(e) => e.to_string(),
            UxntalError::Parser(e) => e.to_string(),
            UxntalError::Assembler(e) => e.to_string(),
        }
    }

    /// A full report of this error with the files registered in `source_map`.
    pub fn format_error(&self, source_map: &SourceMap) -> (report: String)
        ensures
            report@ == source_map::error_report_text(source_map@, uxntal_error_location(*self), uxntal_error_text(*self)),
    {
        let message = self.to_string();
        source_map.format_error(self.location(), message.as_str())
    }

    /// A full report of this error for the file `file_path` with text `source`.
    pub fn format_error_with_source(&self, file_path: &str, source: &str) -> (report: String)
        ensures
            report@ == location::error_text(
                location::editor_link_text(uxntal_error_location(*self), file_path@),
                uxntal_error_text(*self),
                location::context_text(source@, uxntal_error_location(*self).line as nat, uxntal_error_location(*self).column as nat, 2),
            ),
    {
        let message = self.to_string();
        self.location().format_error(file_path, source, message.as_str())
    }
}

impl From<PreprocessorError> for UxntalError {
    fn from(error: PreprocessorError) -> (wrapped: Self) {
        UxntalError::Preprocessor(error)
    }
}

impl vstd::std_specs::convert::FromSpecImpl<PreprocessorError> for UxntalError {
    open spec fn obeys_from_spec() -> bool {
        true
    }

    open spec fn from_spec(error: PreprocessorError) -> UxntalError {
        UxntalError::Preprocessor(error)
    }
}

impl From<ParserError> for UxntalError {
    fn from(error: ParserError) -> (wrapped: Self) {
        UxntalError::Parser(error)
    }
}

impl vstd::std_specs::convert::FromSpecImpl<ParserError> for UxntalError {
    open spec fn obeys_from_spec() -> bool {
        true
    }

    open spec fn from_spec(error: ParserError) -> UxntalError {
        UxntalError::Parser(error)
    }
}

impl From<AssemblerError> for UxntalError {
    fn from(error: AssemblerError) -> (wrapped: Self) {
        UxntalError::Assembler(error)
    }
}

impl vstd::std_specs::convert::FromSpecImpl<AssemblerError> for UxntalError {
    open spec fn obeys_from_spec() -> bool {
        true
    }

    open spec fn from_spec(error: AssemblerError) -> UxntalError {
        UxntalError::Assembler(error)
    }
}

} // verus!
