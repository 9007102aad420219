use uxr::shared::file_io::{FileLoader, NullFileLoader};
use uxr::toolchain::{assemble, hex_dump, parse_hex_u16};
use uxr::uxntal::assembler::AssemblerErrorKind;
use uxr::uxntal::parser::ParserErrorKind;
use uxr::uxntal::preprocessor::PreprocessorErrorKind;
use uxr::uxntal::{AssembledProgram, Location, Preprocessor, SourceMap, SymbolTable, TokenKind, Tokenizer, UxntalError};
use uxr::uxntal::source_map::FileId;

fn assemble_text(source: &str) -> Result<AssembledProgram, UxntalError> {
    let mut source_map = SourceMap::new();
    assemble(&mut source_map, "test.tal", source, NullFileLoader)
}

#[test]
fn assembles_literals_and_opcodes() {
    let program = assemble_text("|0100 #12 #34 ADD BRK").unwrap();
    assert_eq!(program.rom, vec![0x80, 0x12, 0x80, 0x34, 0x18, 0x00]);
    assert!(program.symbols.is_empty());
}

#[test]
fn assembles_short_literals_and_modes() {
    let program = assemble_text("#1234 #0001 ADD2k INCr POP2kr").unwrap();
    assert_eq!(program.rom, vec![0xa0, 0x12, 0x34, 0xa0, 0x00, 0x01, 0xb8, 0x41, 0xe2]);
}

#[test]
fn assembles_labels_and_jumps() {
    let program = assemble_text("|0100 @main #01 !main").unwrap();
    assert_eq!(program.rom, vec![0x80, 0x01, 0x40, 0xff, 0xfb]);
    assert_eq!(program.symbols.len(), 1);
    assert_eq!(program.symbols.lookup_name("main"), Some(0x0100));
}

#[test]
fn sublabels_take_the_scope_of_the_last_label() {
    let program = assemble_text("|0100 @main &loop ;&loop BRK").unwrap();
    assert_eq!(program.rom, vec![0xa0, 0x01, 0x00, 0x00]);
    assert_eq!(program.symbols.lookup_name("main/loop"), Some(0x0100));
}

#[test]
fn zero_page_and_relative_references() {
    let program = assemble_text("|0000 @port $2 |0100 .port ,next @next BRK").unwrap();
    assert_eq!(program.rom, vec![0x80, 0x00, 0x80, 0xff, 0x00]);
    assert_eq!(program.symbols.lookup_name("port"), Some(0x0000));
    assert_eq!(program.symbols.lookup_name("next"), Some(0x0104));
}

#[test]
fn raw_strings_and_numbers() {
    let program = assemble_text("\"Hi 00 ff abcd").unwrap();
    assert_eq!(program.rom, vec![b'H', b'i', 0x00, 0xff, 0xab, 0xcd]);
}

#[test]
fn macros_expand_their_bodies() {
    let program = assemble_text("%double { DUP ADD } |0100 #02 double BRK").unwrap();
    assert_eq!(program.rom, vec![0x80, 0x02, 0x06, 0x18, 0x00]);
}

#[test]
fn lambdas_become_anonymous_sublabels() {
    let program = assemble_text("@main #01 ?{ #02 } BRK").unwrap();
    // LIT 01, JCI over the lambda body to the label after it, LIT 02, BRK
    assert_eq!(program.rom, vec![0x80, 0x01, 0x20, 0x00, 0x02, 0x80, 0x02, 0x00]);
    assert_eq!(program.symbols.lookup_name("main/anon_1__"), Some(0x0107));
}

#[test]
fn undefined_label_is_an_assembler_error() {
    let error = assemble_text("|0100 ;missing").unwrap_err();
    match &error {
        UxntalError::Assembler(e) => {
            assert_eq!(e.kind(), &AssemblerErrorKind::UndefinedLabel { name: "missing".to_string() });
            assert_eq!(e.to_string(), "Label 'missing' not found");
        },
        _ => panic!("expected an assembler error"),
    }
    assert_eq!(error.location(), Location::new(FileId(0), 6, 1, 7));
}

#[test]
fn writing_in_zero_page_is_an_error() {
    let error = assemble_text("|0000 #01").unwrap_err();
    match error {
        UxntalError::Assembler(e) => assert_eq!(e.kind(), &AssemblerErrorKind::WriteToZeroPage),
        _ => panic!("expected an assembler error"),
    }
}

#[test]
fn duplicate_labels_are_an_error() {
    let error = assemble_text("@a BRK @a").unwrap_err();
    match error {
        UxntalError::Assembler(e) => {
            assert_eq!(e.kind(), &AssemblerErrorKind::DuplicateLabel { name: "a".to_string() });
            assert_eq!(e.to_string(), "Label 'a' already defined");
        },
        _ => panic!("expected an assembler error"),
    }
}

#[test]
fn memory_overwrite_is_an_error() {
    let error = assemble_text("|0100 #01 |0100 #02").unwrap_err();
    match error {
        UxntalError::Assembler(e) => assert_eq!(e.kind(), &AssemblerErrorKind::MemoryOverwrite),
        _ => panic!("expected an assembler error"),
    }
}

#[test]
fn relative_reference_too_far_is_an_error() {
    let error = assemble_text("|0100 ,far |0200 @far").unwrap_err();
    match error {
        UxntalError::Assembler(e) => {
            assert_eq!(e.kind(), &AssemblerErrorKind::RelativeReferenceTooFar { name: "far".to_string() });
        },
        _ => panic!("expected an assembler error"),
    }
}

#[test]
fn invalid_hex_literal_is_a_parser_error() {
    let source = "|0100 #1";
    let error = assemble_text(source).unwrap_err();
    match &error {
        UxntalError::Parser(e) => assert_eq!(e.kind(), &ParserErrorKind::InvalidHexLiteral),
        _ => panic!("expected a parser error"),
    }
    assert_eq!(error.to_string(), "Invalid hex number");
    assert_eq!(
        error.format_error_with_source("test.tal", source),
        "test.tal:1:7: error: Invalid hex number\n 1 | |0100 #1\n   |       ^"
    );
}

#[test]
fn unknown_opcode_is_a_parser_error() {
    let error = assemble_text("ADDx").unwrap_err();
    match error {
        UxntalError::Parser(e) => assert_eq!(e.kind(), &ParserErrorKind::InvalidOpCode),
        _ => panic!("expected a parser error"),
    }
}

#[test]
fn unbalanced_braces_are_preprocessor_errors() {
    match assemble_text("BRK }").unwrap_err() {
        UxntalError::Preprocessor(e) => assert_eq!(e.kind(), &PreprocessorErrorKind::UnexpectedClosingBrace),
        _ => panic!("expected a preprocessor error"),
    }
    match assemble_text("{ BRK").unwrap_err() {
        UxntalError::Preprocessor(e) => assert_eq!(e.kind(), &PreprocessorErrorKind::MissingClosingBrace),
        _ => panic!("expected a preprocessor error"),
    }
}

#[test]
fn includes_go_through_the_file_loader() {
    match assemble_text("~other.tal").unwrap_err() {
        UxntalError::Preprocessor(e) => {
            assert_eq!(
                e.kind(),
                &PreprocessorErrorKind::FailedToReadFile {
                    path: "other.tal".to_string(),
                    message: "file loading not configured; cannot read 'other.tal'".to_string(),
                }
            );
        },
        _ => panic!("expected a preprocessor error"),
    }
}

#[test]
fn macro_redefinition_is_an_error() {
    match assemble_text("%m { BRK } %m { BRK }").unwrap_err() {
        UxntalError::Preprocessor(e) => {
            assert_eq!(e.kind(), &PreprocessorErrorKind::MacroRedefinition { name: "m".to_string() })
        },
        _ => panic!("expected a preprocessor error"),
    }
}

#[test]
fn tokenizer_splits_words_and_skips_comments() {
    let tokens = Tokenizer::tokenize_str("|0100 ( a comment ) @main\n  #12 ADD");
    let kinds: Vec<TokenKind> = tokens.iter().map(|t| t.kind).collect();
    assert_eq!(kinds, vec![TokenKind::PadAbsolute, TokenKind::Label, TokenKind::HexLiteral, TokenKind::OpCode]);
    let values: Vec<&str> = tokens.iter().map(|t| t.value.as_str()).collect();
    assert_eq!(values, vec!["|0100", "@main", "#12", "ADD"]);
    assert_eq!(tokens[2].location, Location::new(FileId(0), 28, 2, 3));
}

#[test]
fn source_map_registers_each_path_once() {
    let mut source_map = SourceMap::new();
    let first = source_map.add_file("a.tal", "BRK");
    let second = source_map.add_file("b.tal", "BRK");
    let again = source_map.add_file("a.tal", "other");
    assert_eq!(first, FileId(0));
    assert_eq!(second, FileId(1));
    assert_eq!(again, first);
    assert_eq!(source_map.get_path(first), Some("a.tal"));
    assert_eq!(source_map.get_source(first), Some("BRK"));
    assert_eq!(source_map.files().len(), 2);
}

#[test]
fn symbol_table_bytes_round_trip() {
    let mut table = SymbolTable::new();
    table.insert("main", 0x0100);
    table.insert("main/loop", 0x0104);
    let bytes = table.to_bytes();
    assert_eq!(&bytes[0..7], &[0x01, 0x00, b'm', b'a', b'i', b'n', 0x00]);
    let back = SymbolTable::from_bytes(&bytes).unwrap();
    assert_eq!(back.len(), 2);
    assert_eq!(back.lookup_name("main/loop"), Some(0x0104));
    assert_eq!(back.lookup_address(0x0100).unwrap().name(), "main");
    let nearest = back.find_nearest_symbol(0x0106).unwrap();
    assert_eq!(nearest.0.name(), "main/loop");
    assert_eq!(nearest.1, 2);
}

#[test]
fn truncated_symbol_file_is_refused() {
    assert!(SymbolTable::from_bytes(&[0x01]).is_err());
    assert!(SymbolTable::from_bytes(&[0x01, 0x00, b'a']).is_err());
    assert!(SymbolTable::from_bytes(&[0x01, 0x00, 0xff, 0x00]).is_err());
    assert_eq!(SymbolTable::from_bytes(&[]).unwrap().len(), 0);
}

#[test]
fn hex_dump_of_a_short_rom() {
    let text = hex_dump(&[0x48, 0x69, 0x00]);
    let expected = format!("0000: 48 69 00{}  |Hi.|\n", "   ".repeat(13) + " ");
    assert_eq!(text, expected);
}

#[test]
fn hex_dump_of_two_lines() {
    let rom: Vec<u8> = (0u8..17).collect();
    let text = hex_dump(&rom);
    let lines: Vec<&str> = text.lines().collect();
    assert_eq!(lines.len(), 2);
    assert_eq!(lines[0], "0000: 00 01 02 03 04 05 06 07  08 09 0a 0b 0c 0d 0e 0f  |................|");
    assert!(lines[1].starts_with("0010: 10   "));
    assert!(lines[1].ends_with("  |.|"));
    assert_eq!(hex_dump(&[]), "");
}

#[test]
fn parse_hex_addresses() {
    assert_eq!(parse_hex_u16("0100"), Ok(0x0100));
    assert_eq!(parse_hex_u16("0x0100"), Ok(0x0100));
    assert_eq!(parse_hex_u16("$100"), Ok(0x0100));
    assert_eq!(parse_hex_u16("FfFf"), Ok(0xffff));
    assert_eq!(parse_hex_u16("+ff"), Ok(0xff));
    assert_eq!(
        parse_hex_u16(""),
        Err("Invalid hexadecimal address '': cannot parse integer from empty string".to_string())
    );
    assert_eq!(
        parse_hex_u16("0xzz"),
        Err("Invalid hexadecimal address '0xzz': invalid digit found in string".to_string())
    );
    assert_eq!(
        parse_hex_u16("10000"),
        Err("Invalid hexadecimal address '10000': number too large to fit in target type".to_string())
    );
    assert_eq!(
        parse_hex_u16("-1"),
        Err("Invalid hexadecimal address '-1': invalid digit found in string".to_string())
    );
}

#[test]
fn four_digit_addresses_read_back() {
    for value in [0x0000u16, 0x0100, 0x0abc, 0xabcd, 0xffff] {
        assert_eq!(parse_hex_u16(&format!("{value:04x}")), Ok(value));
    }
}

#[test]
fn lambda_expansion_leaves_no_braces() {
    let tokens = Tokenizer::tokenize_str("{ #01 ?{ BRK } } !{ }");
    let mut preprocessor = Preprocessor::new(NullFileLoader);
    let expanded = preprocessor.expand_lambdas(&tokens).unwrap();
    assert!(expanded.iter().all(|t| t.kind != TokenKind::BraceOpen && t.kind != TokenKind::BraceClose));
    let values: Vec<&str> = expanded.iter().map(|t| t.value.as_str()).collect();
    assert_eq!(values, vec!["/anon_1__", "#01", "?&anon_2__", "BRK", "&anon_2__", "&anon_1__", "!&anon_3__", "&anon_3__"]);
    assert_eq!(preprocessor.lambda_counter(), 3);
}

struct TableLoader {
    files: Vec<(&'static str, &'static str)>,
}

impl FileLoader for TableLoader {
    fn read(&mut self, path: &str) -> Result<String, String> {
        match self.files.iter().find(|(name, _)| *name == path) {
            Some((_, text)) => Ok(text.to_string()),
            None => Err(format!("no file '{path}'")),
        }
    }
}

#[test]
fn nested_includes_are_expanded_in_place_and_registered() {
    let loader = TableLoader {
        files: vec![("a.tal", "#01 ~b.tal #03"), ("b.tal", "#02")]
    };
    let mut source_map = SourceMap::new();
    let tokens = Tokenizer::tokenize(&mut source_map, "main.tal", "~a.tal BRK ~b.tal");
    let mut preprocessor = Preprocessor::new(loader);
    let expanded = preprocessor.parse_includes(&mut source_map, &tokens).unwrap();
    let values: Vec<&str> = expanded.iter().map(|t| t.value.as_str()).collect();
    assert_eq!(values, vec!["#01", "#02", "#03", "BRK", "#02"]);
    let files: Vec<(usize, &str)> = expanded.iter().map(|t| (t.location.file_id.index(), t.value.as_str())).collect();
    assert_eq!(files, vec![(1, "#01"), (2, "#02"), (1, "#03"), (0, "BRK"), (2, "#02")]);
    let paths: Vec<&str> = source_map.files().iter().map(|f| f.path()).collect();
    assert_eq!(paths, vec!["main.tal", "a.tal", "b.tal"]);
}

#[test]
fn a_failed_include_read_names_the_path_and_message() {
    let loader = TableLoader { files: vec![("a.tal", "#01 ~missing.tal")] };
    let mut source_map = SourceMap::new();
    let tokens = Tokenizer::tokenize(&mut source_map, "main.tal", "BRK ~a.tal");
    let mut preprocessor = Preprocessor::new(loader);
    let error = preprocessor.parse_includes(&mut source_map, &tokens).unwrap_err();
    assert_eq!(
        error.kind(),
        &PreprocessorErrorKind::FailedToReadFile { path: "missing.tal".to_string(), message: "no file 'missing.tal'".to_string() }
    );
    assert_eq!(error.location().file_id, FileId(1));
    assert_eq!(error.location().column, 5);
}

#[test]
fn included_macros_assemble_with_the_includer() {
    let loader = TableLoader { files: vec![("lib.tal", "%twice { DUP ADD }")] };
    let mut source_map = SourceMap::new();
    let program = assemble(&mut source_map, "main.tal", "~lib.tal #02 twice", loader).unwrap();
    assert_eq!(program.rom, vec![0x80, 0x02, 0x06, 0x18]);
}

#[test]
fn a_refusing_loader_fails_the_include_and_registers_nothing() {
    let mut preprocessor = Preprocessor::new(NullFileLoader);
    let mut source_map = SourceMap::new();
    let tokens = Tokenizer::tokenize_str("~lib.tal");
    let error = preprocessor.parse_includes(&mut source_map, &tokens).unwrap_err();
    assert_eq!(
        error.kind(),
        &PreprocessorErrorKind::FailedToReadFile {
            path: "lib.tal".to_string(),
            message: "file loading not configured; cannot read 'lib.tal'".to_string(),
        }
    );
    assert_eq!(error.location(), Location::default());
    assert!(source_map.files().is_empty());
}

#[test]
fn lambda_counter_moves_on_by_one_per_opener() {
    let tokens = Tokenizer::tokenize_str("|0100 { ;a } @a ?{ #01 } !{ }");
    let mut preprocessor = Preprocessor::new(NullFileLoader);
    let first = preprocessor.expand_lambdas(&tokens).unwrap();
    assert_eq!(first.len(), tokens.len());
    assert_eq!(preprocessor.lambda_counter(), 3);
    assert_eq!(first[0].value, "|0100");
    assert_eq!(first[1].value, "/anon_1__");
    assert_eq!(first[2].value, ";a");
    assert_eq!(first[4].value, "@a");
    assert_eq!(first[5].value, "?&anon_2__");
    assert_eq!(first[8].value, "!&anon_3__");
    let second = preprocessor.expand_lambdas(&Tokenizer::tokenize_str("{ }")).unwrap();
    assert_eq!(second[0].value, "/anon_4__");
    assert_eq!(preprocessor.lambda_counter(), 4);
}

#[test]
fn running_the_preprocessor_chains_its_passes() {
    let source = "%twice { { #01 } } ~lib.tal twice !{ }";
    let chained = {
        let loader = TableLoader { files: vec![("lib.tal", "@lib { BRK }")] };
        let mut source_map = SourceMap::new();
        let tokens = Tokenizer::tokenize(&mut source_map, "main.tal", source);
        let mut preprocessor = Preprocessor::new(loader);
        let included = preprocessor.parse_includes(&mut source_map, &tokens).unwrap();
        let expanded = preprocessor.expand_macros(&included).unwrap();
        let output = preprocessor.expand_lambdas(&expanded).unwrap();
        (output, preprocessor.lambda_counter(), preprocessor.macros().len(), source_map.files().len())
    };
    let run = {
        let loader = TableLoader { files: vec![("lib.tal", "@lib { BRK }")] };
        let mut source_map = SourceMap::new();
        let tokens = Tokenizer::tokenize(&mut source_map, "main.tal", source);
        let mut preprocessor = Preprocessor::new(loader);
        let output = preprocessor.run(&mut source_map, &tokens).unwrap();
        (output, preprocessor.lambda_counter(), preprocessor.macros().len(), source_map.files().len())
    };
    let values: Vec<&str> = run.0.iter().map(|t| t.value.as_str()).collect();
    assert_eq!(values, vec!["@lib", "/anon_1__", "BRK", "&anon_1__", "/anon_2__", "#01", "&anon_2__", "!&anon_3__", "&anon_3__"]);
    assert_eq!(run.0, chained.0);
    assert_eq!(run.1, 3);
    assert_eq!(run.1, chained.1);
    assert_eq!(run.2, 1);
    assert_eq!(run.2, chained.2);
    assert_eq!(run.3, chained.3);
}
