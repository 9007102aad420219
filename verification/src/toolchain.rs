//! The steps of the command-line tools that compute: assembling a source file, the hex dump of
//! a ROM, and reading a hexadecimal address argument.
use vstd::prelude::*;
use crate::shared::file_io::FileLoader;
use crate::uxntal::assembler::{assembly, AssembledProgram, Assembler};
use crate::uxntal::parser::{lemma_well_formed_parsable, parse_tokens, statements_match, Parser};
use crate::uxntal::preprocessor::{
    expansion, include_result, lemma_registration_view, preprocessed, reads_exactly, without_includes, MacroTable, Preprocessor,
    PreprocessorFailure, Reply, read_by,
};
use crate::uxntal::source_map::{files_view, id_for, registered, SourceMap};
use crate::uxntal::statement::Statement;
use crate::uxntal::token::{tokens_view, Token, TokenView};
use crate::uxntal::tokenizer::{lemma_source_tokens, lemma_tokens_well_formed, registered_id, source_tokens, tokens_of, Tokenizer};
use crate::uxntal::UxntalError;
use crate::uxntal::disassembler::{hex_min_text, push_hex_min};
use crate::text::{chars_of, hex_digit, hex_text, push_char, push_hex, push_str};

verus! {

/// What the parser and the assembler make of the preprocessed tokens `expanded`.
pub open spec fn parsed_and_assembled(expanded: Seq<Token>, result: Result<AssembledProgram, UxntalError>) -> bool {
    match parse_tokens(expanded) {
        Err(failure) => result matches Err(UxntalError::Parser(error)) && error@ == failure,
        Ok(views) => exists|statements: Seq<Statement>| {
            &&& statements_match(statements, views)
            &&& match assembly(statements) {
                Ok((rom, symbols)) => result matches Ok(program) && program.rom@ == rom && program.symbols@ == symbols,
                Err(fault) => result matches Err(UxntalError::Assembler(error)) && error@ == fault,
            }
        },
    }
}

/// What assembling the tokens `tokens` of a source gives, when they include no other file: the
/// preprocessor's error, or the outcome of parsing and assembling what it expanded them to.
pub open spec fn assembled_tokens(tokens: Seq<Token>, result: Result<AssembledProgram, UxntalError>) -> bool {
    match expansion(tokens_view(tokens), MacroTable::empty(), "on-reset"@, 0) {
        Err(failure) => result matches Err(UxntalError::Preprocessor(error)) && error@ == failure,
        Ok(expanded) => exists|expanded_tokens: Seq<Token>|
            tokens_view(expanded_tokens) == expanded && parsed_and_assembled(expanded_tokens, result),
    }
}

/// What assembling gives once preprocessing gave `preprocessed`: its failure, or the parsing and
/// assembly of the tokens it expanded to.
pub open spec fn assembled_from(preprocessed: Result<Seq<TokenView>, PreprocessorFailure>, result: Result<AssembledProgram, UxntalError>) -> bool {
    match preprocessed {
        Err(failure) => result matches Err(UxntalError::Preprocessor(error)) && error@ == failure,
        Ok(expanded) => exists|expanded_tokens: Seq<Token>|
            tokens_view(expanded_tokens) == expanded && parsed_and_assembled(expanded_tokens, result),
    }
}

/// What assembling a source whose tokens are `tokens` gives. Without includes, the outcome is
/// fixed by the tokens; with them, whatever was not a preprocessor error is the parsing and
/// assembly of the expansion of some include-free tokens.
pub open spec fn source_outcome(tokens: Seq<Token>, result: Result<AssembledProgram, UxntalError>) -> bool {
    &&& without_includes(tokens_view(tokens)) ==> assembled_tokens(tokens, result)
    &&& match result {
        Err(UxntalError::Preprocessor(_)) => true,
        _ => exists|included: Seq<TokenView>, expanded_tokens: Seq<Token>| {
            &&& without_includes(included)
            &&& expansion(included, MacroTable::empty(), "on-reset"@, 0)
                == Ok::<Seq<TokenView>, PreprocessorFailure>(tokens_view(expanded_tokens))
            &&& parsed_and_assembled(expanded_tokens, result)
        },
    }
}

/// Assembles `source`, registered in `source_map` under `file_path`: tokenizes it, expands
/// includes (read through `file_loader`), macros and lambdas, parses the tokens and assembles the
/// statements into a ROM and its symbols.
pub fn assemble<L: FileLoader>(
    source_map: &mut SourceMap,
    file_path: &str,
    source: &str,
    file_loader: L,
) -> (result: Result<AssembledProgram, UxntalError>)
    ensures
        exists|tokens: Seq<Token>|
            tokens_of(tokens, registered_id(old(source_map)@, file_path@), source@) && #[trigger] source_outcome(tokens, result),
        exists|used: Seq<Reply>, included: Result<Seq<TokenView>, PreprocessorFailure>|
            #[trigger] reads_exactly(
                source_tokens(id_for(files_view(old(source_map)@), file_path@), source@),
                registered(files_view(old(source_map)@), file_path@, source@),
                usize::MAX as nat,
                used,
                included,
                files_view(final(source_map)@),
            ) && read_by::<L>(used) && assembled_from(preprocessed(included, MacroTable::empty(), "on-reset"@, 0), result),
{
    let ghost files = source_map@;
    let _ = source_map.files();
    let tokens = Tokenizer::tokenize(source_map, file_path, source);
    proof {
        lemma_tokens_well_formed(tokens@, registered_id(files, file_path@), source@);
        lemma_source_tokens(tokens@, registered_id(files, file_path@), source@);
        lemma_registration_view(files, source_map@, file_path@, source@);
    }
    let ghost registered_files = files_view(source_map@);
    let ghost id = registered_id(files, file_path@);
    assert(tokens_of(tokens@, id, source@));
    let preprocessing = Preprocessor::preprocess(source_map, tokens.as_slice(), file_loader);
    let ghost (used, include_outcome) = choose|used: Seq<Reply>, included: Result<Seq<TokenView>, PreprocessorFailure>|
        #[trigger] reads_exactly(tokens_view(tokens@), registered_files, usize::MAX as nat, used, included, files_view(source_map@))
        && read_by::<L>(used) && include_result(preprocessing) == preprocessed(included, MacroTable::empty(), "on-reset"@, 0);
    assert(reads_exactly(tokens_view(tokens@), registered_files, usize::MAX as nat, used, include_outcome, files_view(source_map@)));
    let expanded = match preprocessing {
        Ok(expanded) => expanded,
        Err(error) => {
            let result = Err(UxntalError::Preprocessor(error));
            assert(source_outcome(tokens@, result));
            assert(assembled_from(preprocessed(include_outcome, MacroTable::empty(), "on-reset"@, 0), result));
            return result;
        },
    };
    let ghost included = choose|included: Seq<TokenView>| without_includes(included)
        && expansion(included, MacroTable::empty(), "on-reset"@, 0) == Ok::<Seq<TokenView>, PreprocessorFailure>(tokens_view(expanded@));
    proof {
        lemma_well_formed_parsable(expanded@);
    }
    let statements = match Parser::parse(expanded.as_slice()) {
        Ok(statements) => statements,
        Err(error) => {
            let result = Err(UxntalError::Parser(error));
            assert(parsed_and_assembled(expanded@, result));
            assert(source_outcome(tokens@, result));
            assert(assembled_from(preprocessed(include_outcome, MacroTable::empty(), "on-reset"@, 0), result));
            return result;
        },
    };
    let result = match Assembler::assemble_with_symbols(statements.as_slice()) {
        Ok(program) => Ok(program),
        Err(error) => Err(UxntalError::Assembler(error)),
    };
    assert(parsed_and_assembled(expanded@, result)) by {
        assert(statements_match(statements@, parse_tokens(expanded@)->Ok_0));
    }
    assert(source_outcome(tokens@, result));
    assert(assembled_from(preprocessed(include_outcome, MacroTable::empty(), "on-reset"@, 0), result));
    result
}

/// `address` as the hex dump writes it: four hexadecimal digits, more where it needs them.
pub open spec fn dump_address_text(address: nat) -> Seq<char> {
    if address < 0x10000 {
        hex_text(address, 4)
    } else {
        hex_min_text(address)
    }
}

/// The space before column `index` of a line, doubled before the ninth column.
pub open spec fn column_gap(index: int) -> Seq<char> {
    if index == 8 {
        seq![' ', ' ']
    } else {
        seq![' ']
    }
}

/// The bytes of `chunk` in two hexadecimal digits each, each after its column's gap.
pub open spec fn dump_bytes(chunk: Seq<u8>) -> Seq<char>
    decreases chunk.len(),
{
    if chunk.len() == 0 {
        seq![]
    } else {
        dump_bytes(chunk.drop_last()) + column_gap(chunk.len() - 1) + hex_text(chunk.last() as nat, 2)
    }
}

/// The blank columns `from` up to `to` of a short last line.
pub open spec fn dump_padding(from: int, to: int) -> Seq<char>
    decreases to - from,
{
    if to <= from {
        seq![]
    } else {
        dump_padding(from, to - 1) + column_gap(to - 1) + seq![' ', ' ']
    }
}

/// A byte as the text column shows it: itself where it is printable ASCII, `.` otherwise.
pub open spec fn printable(byte: u8) -> char {
    if 0x20 <= byte <= 0x7e {
        byte as char
    } else {
        '.'
    }
}

/// The text column of `chunk`.
pub open spec fn dump_ascii(chunk: Seq<u8>) -> Seq<char>
    decreases chunk.len(),
{
    if chunk.len() == 0 {
        seq![]
    } else {
        dump_ascii(chunk.drop_last()).push(printable(chunk.last()))
    }
}

/// One line of the hex dump: the address, the bytes of `chunk` (at most 16), blank columns up
/// to 16, and the text column between bars.
pub open spec fn dump_line(address: nat, chunk: Seq<u8>) -> Seq<char> {
    dump_address_text(address) + seq![':'] + dump_bytes(chunk) + dump_padding(chunk.len() as int, 16)
        + seq![' ', ' ', '|'] + dump_ascii(chunk) + seq!['|', '\n']
}

/// The `index`-th chunk of 16 bytes of `rom` (the last may be shorter).
pub open spec fn dump_chunk(rom: Seq<u8>, index: nat) -> Seq<u8> {
    let start = 16 * index;
    if start + 16 <= rom.len() {
        rom.subrange(start as int, (start + 16) as int)
    } else {
        rom.subrange(start as int, rom.len() as int)
    }
}

/// The lines of the first `count` chunks of `rom`.
pub open spec fn dump_lines(rom: Seq<u8>, count: nat) -> Seq<char>
    decreases count,
{
    if count == 0 {
        seq![]
    } else {
        dump_lines(rom, (count - 1) as nat) + dump_line(16 * (count - 1) as nat, dump_chunk(rom, (count - 1) as nat))
    }
}

/// The number of lines in the hex dump of `length` bytes.
pub open spec fn dump_line_count(length: nat) -> nat {
    ((length + 15) / 16) as nat
}

/// The hex dump of `rom`: 16 bytes a line.
pub open spec fn hex_dump_text(rom: Seq<u8>) -> Seq<char> {
    dump_lines(rom, dump_line_count(rom.len()))
}

/// Appends the hex dump line for `chunk` at `address`.
fn push_dump_line(text: &mut String, address: usize, chunk: &[u8])
    requires
        chunk@.len() <= 16,
    ensures
        final(text)@ == old(text)@ + dump_line(address as nat, chunk@),
{
    if address < 0x10000 {
        push_hex(text, address as u64, 4);
    } else {
        push_hex_min(text, address as u64);
    }
    push_char(text, ':');
    let ghost head = text@;
    let mut index: usize = 0;
    while index < chunk.len()
        invariant
            index <= chunk@.len(),
            text@ == head + dump_bytes(chunk@.take(index as int)),
        decreases chunk@.len() - index,
    {
        if index == 8 {
            push_char(text, ' ');
        }
        push_char(text, ' ');
        push_hex(text, chunk[index] as u64, 2);
        proof {
            assert(chunk@.take(index + 1).drop_last() == chunk@.take(index as int));
        }
        index += 1;
    }
    assert(chunk@.take(chunk@.len() as int) == chunk@);
    let ghost bytes_done = text@;
    let mut column: usize = chunk.len();
    while column < 16
        invariant
            chunk@.len() <= column <= 16,
            text@ == bytes_done + dump_padding(chunk@.len() as int, column as int),
        decreases 16 - column,
    {
        if column == 8 {
            push_char(text, ' ');
        }
        push_char(text, ' ');
        push_char(text, ' ');
        push_char(text, ' ');
        column += 1;
    }
    push_char(text, ' ');
    push_char(text, ' ');
    push_char(text, '|');
    let ghost before_ascii = text@;
    let mut index: usize = 0;
    while index < chunk.len()
        invariant
            index <= chunk@.len(),
            text@ == before_ascii + dump_ascii(chunk@.take(index as int)),
        decreases chunk@.len() - index,
    {
        let byte = chunk[index];
        if 0x20 <= byte && byte <= 0x7e {
            push_char(text, byte as char);
        } else {
            push_char(text, '.');
        }
        proof {
            assert(chunk@.take(index + 1).drop_last() == chunk@.take(index as int));
        }
        index += 1;
    }
    push_char(text, '|');
    push_char(text, '\n');
}

/// The hex dump of `rom`: for each 16 bytes, the address, the bytes in hexadecimal (in two groups
/// of eight) and the printable ones as text.
pub fn hex_dump(rom: &[u8]) -> (text: String)
    ensures
        text@ == hex_dump_text(rom@),
{
    let length = rom.len();
    let count: usize = length / 16 + if length % 16 == 0 { 0 } else { 1 };
    assert(count == dump_line_count(length as nat));
    let mut text = String::new();
    let mut index: usize = 0;
    while index < count
        invariant
            index <= count,
            count == dump_line_count(rom@.len()),
            length == rom@.len(),
            text@ == dump_lines(rom@, index as nat),
        decreases count - index,
    {
        let start = index * 16;
        let end = if length - start > 16 { start + 16 } else { length };
        let chunk = vstd::slice::slice_subrange(rom, start, end);
        assert(chunk@ == dump_chunk(rom@, index as nat));
        push_dump_line(&mut text, start, chunk);
        index += 1;
    }
    text
}

/// `text` without the `0x` prefixes it starts with, however many.
pub open spec fn without_hex_prefixes(text: Seq<char>) -> Seq<char>
    decreases text.len(),
{
    if text.len() >= 2 && text[0] == '0' && text[1] == 'x' {
        without_hex_prefixes(text.skip(2))
    } else {
        text
    }
}

/// `text` without the `$` signs it starts with, however many.
pub open spec fn without_dollars(text: Seq<char>) -> Seq<char>
    decreases text.len(),
{
    if text.len() >= 1 && text[0] == '$' {
        without_dollars(text.skip(1))
    } else {
        text
    }
}

/// The value of the hexadecimal digit `c` (either case), if it is one.
pub open spec fn hex_digit_value(c: char) -> Option<nat> {
    if '0' <= c <= '9' {
        Some((c as nat - '0' as nat) as nat)
    } else if 'a' <= c <= 'f' {
        Some((c as nat - 'a' as nat + 10) as nat)
    } else if 'A' <= c <= 'F' {
        Some((c as nat - 'A' as nat + 10) as nat)
    } else {
        None
    }
}

/// How an unsigned integer fails to parse, in the words of its error message.
pub open spec fn empty_number_text() -> Seq<char> {
    "cannot parse integer from empty string"@
}

pub open spec fn invalid_digit_text() -> Seq<char> {
    "invalid digit found in string"@
}

pub open spec fn too_large_text() -> Seq<char> {
    "number too large to fit in target type"@
}

/// Reads the hexadecimal `digits` left to right onto `value`: the first character that is not a
/// digit, or the first digit that takes the value past 16 bits, stops it.
pub open spec fn hex_digits_value(digits: Seq<char>, value: nat) -> Result<nat, Seq<char>>
    decreases digits.len(),
{
    if digits.len() == 0 {
        Ok(value)
    } else {
        match hex_digit_value(digits[0]) {
            None => Err(invalid_digit_text()),
            Some(digit) => if value * 16 + digit > 0xffff {
                Err(too_large_text())
            } else {
                hex_digits_value(digits.skip(1), value * 16 + digit)
            },
        }
    }
}

/// `text` read as a 16-bit unsigned hexadecimal number, with an optional `+` in front.
pub open spec fn u16_from_hex(text: Seq<char>) -> Result<u16, Seq<char>> {
    if text.len() == 0 {
        Err(empty_number_text())
    } else if text.len() == 1 && (text[0] == '+' || text[0] == '-') {
        Err(invalid_digit_text())
    } else {
        let digits = if text[0] == '+' { text.skip(1) } else { text };
        match hex_digits_value(digits, 0) {
            Ok(value) => Ok(value as u16),
            Err(message) => Err(message),
        }
    }
}

/// An address argument read as hexadecimal after dropping leading `0x` and then `$` prefixes, or
/// the message that says why it is not one.
pub open spec fn hex_address(value: Seq<char>) -> Result<u16, Seq<char>> {
    match u16_from_hex(without_dollars(without_hex_prefixes(value))) {
        Ok(address) => Ok(address),
        Err(message) => Err("Invalid hexadecimal address '"@ + value + "': "@ + message),
    }
}

/// The value of the hexadecimal digit `c`, if it is one.
fn hex_digit_of(c: char) -> (digit: Option<u32>)
    ensures
        match hex_digit_value(c) {
            Some(value) => digit == Some(value as u32),
            None => digit is None,
        },
{
    if '0' <= c && c <= '9' {
        Some((c as u32) - ('0' as u32))
    } else if 'a' <= c && c <= 'f' {
        Some((c as u32) - ('a' as u32) + 10)
    } else if 'A' <= c && c <= 'F' {
        Some((c as u32) - ('A' as u32) + 10)
    } else {
        None
    }
}

/// Parses a hexadecimal address argument such as `0100`, `0x0100` or `$100`.
pub fn parse_hex_u16(value: &str) -> (result: Result<u16, String>)
    ensures
        match hex_address(value@) {
            Ok(address) => result == Ok::<u16, String>(address),
            Err(message) => result matches Err(text) && text@ == message,
        },
{
    let chars = chars_of(value);
    let length = chars.len();
    let mut start: usize = 0;
    assert(value@.skip(0) == value@);
    while length - start >= 2 && chars[start] == '0' && chars[start + 1] == 'x'
        invariant
            start <= length,
            length == chars@.len(),
            chars@ == value@,
            without_hex_prefixes(value@) == without_hex_prefixes(value@.skip(start as int)),
        decreases length - start,
    {
        assert(value@.skip(start as int).skip(2) == value@.skip(start + 2));
        start += 2;
    }
    assert(without_hex_prefixes(value@) == value@.skip(start as int));
    while start < length && chars[start] == '$'
        invariant
            start <= length,
            length == chars@.len(),
            chars@ == value@,
            without_dollars(without_hex_prefixes(value@)) == without_dollars(value@.skip(start as int)),
        decreases length - start,
    {
        assert(value@.skip(start as int).skip(1) == value@.skip(start + 1));
        start += 1;
    }
    let ghost cleaned = value@.skip(start as int);
    assert(without_dollars(without_hex_prefixes(value@)) == cleaned);
    let outcome: Result<u16, &str> = if start == length {
        Err("cannot parse integer from empty string")
    } else if start + 1 == length && (chars[start] == '+' || chars[start] == '-') {
        Err("invalid digit found in string")
    } else {
        let mut index = start;
        if chars[start] == '+' {
            index = start + 1;
        }
        let ghost digits = value@.skip(index as int);
        assert(digits == if cleaned[0] == '+' { cleaned.skip(1) } else { cleaned });
        let mut number: u32 = 0;
        let mut failure: Option<&str> = None;
        while index < length
            invariant_except_break
                failure is None,
            invariant
                start <= index <= length,
                length == chars@.len(),
                chars@ == value@,
                number <= 0xffff,
                hex_digits_value(digits, 0) == match failure {
                    None => hex_digits_value(value@.skip(index as int), number as nat),
                    Some(message) => Err::<nat, Seq<char>>(message@),
                },
            ensures
                failure is None ==> index == length,
            decreases length - index,
        {
            let ghost rest = value@.skip(index as int);
            assert(rest[0] == chars@[index as int]);
            assert(rest.skip(1) == value@.skip(index + 1));
            match hex_digit_of(chars[index]) {
                None => {
                    failure = Some("invalid digit found in string");
                    break;
                },
                Some(digit) => {
                    if number * 16 + digit > 0xffff {
                        failure = Some("number too large to fit in target type");
                        break;
                    }
                    number = number * 16 + digit;
                },
            }
            index += 1;
        }
        match failure {
            None => {
                assert(value@.skip(index as int).len() == 0);
                Ok(number as u16)
            },
            Some(message) => Err(message),
        }
    };
    match outcome {
        Ok(address) => Ok(address),
        Err(message) => {
            let mut text = String::new();
            push_str(&mut text, "Invalid hexadecimal address '");
            push_str(&mut text, value);
            push_str(&mut text, "': ");
            push_str(&mut text, message);
            Err(text)
        },
    }
}

/// A hexadecimal digit reads back as its value.
proof fn lemma_hex_digit_value(value: int)
    requires
        0 <= value < 16,
    ensures
        hex_digit_value(hex_digit(value)) == Some(value as nat),
        hex_digit(value) != 'x',
        hex_digit(value) != '$',
        hex_digit(value) != '+',
        hex_digit(value) != '-',
{
}

/// An address written with four hexadecimal digits, as the disassembler and the hex dump write
/// addresses, reads back as the same address.
pub proof fn lemma_hex_address_roundtrip(address: u16)
    ensures
        hex_address(hex_text(address as nat, 4)) == Ok::<u16, Seq<char>>(address),
{
    let a = address as nat;
    let d3 = (a / 4096) as int;
    let d2 = ((a / 256) % 16) as int;
    let d1 = ((a / 16) % 16) as int;
    let d0 = (a % 16) as int;
    assert(a / 16 / 16 == a / 256 && a / 256 / 16 == a / 4096 && a / 4096 / 16 == 0 && (a / 4096) % 16 == a / 4096
        && a / 4096 < 16 && d3 * 16 + d2 == a / 256 && (a / 256) * 16 + d1 == a / 16 && (a / 16) * 16 + d0 == a)
        by (nonlinear_arith)
        requires
            a < 65536,
            d2 == (a / 256) % 16,
            d1 == (a / 16) % 16,
            d0 == a % 16,
            d3 == a / 4096;
    reveal_with_fuel(hex_text, 5);
    let text = hex_text(a, 4);
    assert(text =~= seq![hex_digit(d3), hex_digit(d2), hex_digit(d1), hex_digit(d0)]);
    lemma_hex_digit_value(d3);
    lemma_hex_digit_value(d2);
    lemma_hex_digit_value(d1);
    lemma_hex_digit_value(d0);
    assert(without_hex_prefixes(text) == text);
    assert(without_dollars(text) == text);
    let rest1 = text.skip(1);
    let rest2 = rest1.skip(1);
    let rest3 = rest2.skip(1);
    let rest4 = rest3.skip(1);
    assert(rest1 =~= seq![hex_digit(d2), hex_digit(d1), hex_digit(d0)]);
    assert(rest2 =~= seq![hex_digit(d1), hex_digit(d0)]);
    assert(rest3 =~= seq![hex_digit(d0)]);
    assert(rest4 =~= Seq::<char>::empty());
    assert(hex_digits_value(rest4, a) == Ok::<nat, Seq<char>>(a));
    assert(hex_digits_value(rest3, a / 16) == Ok::<nat, Seq<char>>(a));
    assert(hex_digits_value(rest2, a / 256) == Ok::<nat, Seq<char>>(a));
    assert(hex_digits_value(rest1, a / 4096) == Ok::<nat, Seq<char>>(a));
    assert(hex_digits_value(text, 0) == Ok::<nat, Seq<char>>(a));
}

} // verus!
