//! Unit tests for the two lexers and the parser's recovery.

use sheetcalc::lexer::{Lexer, Operation};
use sheetcalc::parser::Parser;
use sheetcalc::token::TokenKind;
use sheetcalc::ast::Node;

fn formula_kinds(text: &str) -> Vec<TokenKind> {
    Operation::new(text.as_bytes().to_vec())
        .lex()
        .iter()
        .map(|t| t.kind)
        .collect()
}

fn doc_kinds(text: &str) -> Vec<TokenKind> {
    Lexer::new(text.as_bytes().to_vec())
        .lex()
        .iter()
        .map(|t| t.kind)
        .collect()
}

#[test]
fn formula_tokens_of_a_call() {
    assert_eq!(
        formula_kinds("SUM(A1,2)"),
        vec![
            TokenKind::Operation_Sum,
            TokenKind::Op_Paren_o,
            TokenKind::Notation,
            TokenKind::Comma,
            TokenKind::Int,
            TokenKind::Op_Paren_c,
        ]
    );
}

#[test]
fn formula_keywords_are_case_insensitive() {
    assert_eq!(formula_kinds("sum"), vec![TokenKind::Operation_Sum]);
    assert_eq!(formula_kinds("Multiply"), vec![TokenKind::Operation_Multiply]);
    assert_eq!(formula_kinds("TRUE"), vec![TokenKind::Bool]);
}

#[test]
fn formula_address_notation_needs_a_letter_then_a_digit() {
    assert_eq!(formula_kinds("B12"), vec![TokenKind::Notation]);
    // An identifier holding the pattern anywhere counts as notation.
    assert_eq!(formula_kinds("xA1"), vec![TokenKind::Notation]);
    // A plain identifier makes no token at all.
    assert_eq!(formula_kinds("hello"), Vec::<TokenKind>::new());
}

#[test]
fn formula_numbers_split_into_int_and_float() {
    assert_eq!(formula_kinds("12"), vec![TokenKind::Int]);
    assert_eq!(formula_kinds("3.5"), vec![TokenKind::Double]);
    let toks = Operation::new(b"3.5".to_vec()).lex();
    assert_eq!(toks[0].literal, b"3.5".to_vec());
}

#[test]
fn formula_strings_keep_their_quotes() {
    let toks = Operation::new(b"\\\"foo\\\"".to_vec()).lex();
    assert_eq!(toks.len(), 1);
    assert_eq!(toks[0].kind, TokenKind::Str);
    assert_eq!(toks[0].literal, b"\"foo\"".to_vec());
}

#[test]
fn document_stream_ends_with_the_marker() {
    let kinds = doc_kinds("{}");
    assert_eq!(
        kinds,
        vec![TokenKind::OP_Brace_o, TokenKind::OP_Brace_c, TokenKind::Eof]
    );
}

#[test]
fn document_keywords_and_strings() {
    let kinds = doc_kinds(r#"data: "x", id"#);
    assert_eq!(
        kinds,
        vec![
            TokenKind::Data,
            TokenKind::Punc,
            TokenKind::Str,
            TokenKind::Comma,
            TokenKind::Id,
            TokenKind::Eof,
        ]
    );
}

#[test]
fn document_string_literals_drop_their_quotes() {
    let toks = Lexer::new(b"\"hello\"".to_vec()).lex();
    assert_eq!(toks[0].kind, TokenKind::Str);
    assert_eq!(toks[0].literal, b"hello".to_vec());
}

#[test]
fn embedded_formula_tokens_are_spliced() {
    let kinds = doc_kinds(r#"["=SUM(1,2)"]"#);
    assert_eq!(
        kinds,
        vec![
            TokenKind::Arr_o,
            TokenKind::Operation_Sum,
            TokenKind::Op_Paren_o,
            TokenKind::Int,
            TokenKind::Comma,
            TokenKind::Int,
            TokenKind::Op_Paren_c,
            TokenKind::Arr_c,
            TokenKind::Eof,
        ]
    );
}

#[test]
fn unterminated_string_skips_the_token_not_the_pass() {
    let kinds = doc_kinds("[\"abc\n, 1]");
    assert_eq!(
        kinds,
        vec![TokenKind::Arr_o, TokenKind::Comma, TokenKind::Int, TokenKind::Arr_c, TokenKind::Eof]
    );
}

#[test]
fn unrecognized_bytes_are_skipped() {
    let kinds = doc_kinds("@ 1 #");
    assert_eq!(kinds, vec![TokenKind::Int, TokenKind::Eof]);
}

#[test]
fn parser_assigns_grid_slots() {
    let doc = r#"{"submissionUrl": "u", "sheets": [{"id": "s", "data": [[1, 2], [3]]}]}"#;
    let lexer = Lexer::new(doc.as_bytes().to_vec());
    let mut parser = Parser::new(lexer.lex());
    let root = parser.parse_all().expect("parses");
    let Node::Evaluator(ev) = &root else {
        panic!("expected the submission root");
    };
    let Node::Spreadsheet(sp) = &ev.values[0] else {
        panic!("expected a spreadsheet");
    };
    let Node::Sheet(sheet) = &sp.values[0] else {
        panic!("expected a sheet");
    };
    let Node::DataCells(grid) = &sheet.values[0] else {
        panic!("expected a grid");
    };
    assert_eq!(grid.values.len(), 2);
    let Node::CellSequence(row1) = &grid.values[0] else {
        panic!("expected a row");
    };
    let Node::CellSequence(row2) = &grid.values[1] else {
        panic!("expected a row");
    };
    let slots1: Vec<&[u8]> = row1
        .values
        .iter()
        .map(|n| match n {
            Node::IntLit(l) => l.slot.as_slice(),
            _ => panic!("expected a literal"),
        })
        .collect();
    assert_eq!(slots1, vec![b"A1".as_slice(), b"B1".as_slice()]);
    let slots2: Vec<&[u8]> = row2
        .values
        .iter()
        .map(|n| match n {
            Node::IntLit(l) => l.slot.as_slice(),
            _ => panic!("expected a literal"),
        })
        .collect();
    assert_eq!(slots2, vec![b"A2".as_slice()]);
}

#[test]
fn nested_operands_get_lower_case_slots() {
    let doc = r#"{"submissionUrl": "u", "sheets": [{"id": "s", "data": [["=SUM(1,2)"]]}]}"#;
    let lexer = Lexer::new(doc.as_bytes().to_vec());
    let mut parser = Parser::new(lexer.lex());
    let root = parser.parse_all().expect("parses");
    let Node::Evaluator(ev) = &root else {
        panic!("expected the submission root");
    };
    let Node::Spreadsheet(sp) = &ev.values[0] else {
        panic!("expected a spreadsheet");
    };
    let Node::Sheet(sheet) = &sp.values[0] else {
        panic!("expected a sheet");
    };
    let Node::DataCells(grid) = &sheet.values[0] else {
        panic!("expected a grid");
    };
    let Node::CellSequence(row) = &grid.values[0] else {
        panic!("expected a row");
    };
    let Node::OperationSum(sum) = &row.values[0] else {
        panic!("expected a sum");
    };
    assert_eq!(sum.slot, b"A1".to_vec());
    let Node::IntLit(first) = &sum.values[0] else {
        panic!("expected a literal operand");
    };
    let Node::IntLit(second) = &sum.values[1] else {
        panic!("expected a literal operand");
    };
    assert_eq!(first.slot, b"b1".to_vec());
    assert_eq!(second.slot, b"c1".to_vec());
}

#[test]
fn garbage_between_sheets_is_skipped() {
    let doc = r#"{"submissionUrl": "u", "sheets": [7, {"id": "s", "data": [[1]]}]}"#;
    let lexer = Lexer::new(doc.as_bytes().to_vec());
    let mut parser = Parser::new(lexer.lex());
    assert!(parser.parse_all().is_some());
}
