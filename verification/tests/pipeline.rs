//! End-to-end tests: document text through lexer, parser, and resolver.

use sheetcalc::ast::Response;
use sheetcalc::lexer::Lexer;
use sheetcalc::parser::Parser;
use sheetcalc::ast::{LitNode, Node as N, OpTag, SumNode};
use sheetcalc::eval::Interpreter;
use sheetcalc::token::{Token, TokenKind};

const TYPE_ERR: &str = "ERROR: type does not match";

fn run(doc: &str) -> Option<Response> {
    let lexer = Lexer::new(doc.as_bytes().to_vec());
    let tokens = lexer.lex();
    let mut parser = Parser::new(tokens);
    let root = parser.parse_all().expect("nonempty documents parse");
    *root.resolver()
}

/// The cell results of sheet `j` of spreadsheet `i`.
fn sheet_cells(resp: &Option<Response>, i: usize, j: usize) -> Vec<Vec<u8>> {
    let Some(Response::Evaluator(ev)) = resp else {
        panic!("expected a submission response");
    };
    let Some(Response::Spreadsheet(spreads)) = ev.values.as_ref() else {
        panic!("expected a spreadsheet list");
    };
    let Some(Response::Spreadsheet(sheets)) = spreads.values[i].as_ref() else {
        panic!("expected a sheet list");
    };
    let Some(Response::Sheet(sheet)) = sheets.values[j].as_ref() else {
        panic!("expected a sheet");
    };
    let Some(Response::DataCells(data)) = sheet.values.as_ref() else {
        panic!("expected grid results");
    };
    data.cells.clone()
}

fn strings(cells: &[Vec<u8>]) -> Vec<String> {
    cells
        .iter()
        .map(|c| String::from_utf8(c.clone()).unwrap())
        .collect()
}

#[test]
fn reference_to_a_literal_cell_resolves() {
    let doc = r#"{"submissionUrl": "http://example", "sheets": [{"id": "s1", "data": [[3], ["=SUM(A1,2)"]]}]}"#;
    let resp = run(doc);
    let cells = sheet_cells(&resp, 0, 0);
    assert_eq!(strings(&cells), vec!["3", "5"]);
}

#[test]
fn literal_rows_pass_through() {
    let doc = r#"{"submissionUrl": "u", "sheets": [{"id": "s", "data": [[1, 2], [true, "hi"]]}]}"#;
    let resp = run(doc);
    let cells = sheet_cells(&resp, 0, 0);
    assert_eq!(strings(&cells), vec!["1", "2", "true", "hi"]);
}

#[test]
fn formulas_evaluate_per_cell() {
    let doc = r#"{"submissionUrl": "u", "sheets": [{"id": "s", "data": [["=SUM(1,2,3)", "=MULTIPLY(2,3)"], ["=CONCAT(\"foo\",\"bar\")", "=GT(5,3)"]]}]}"#;
    let resp = run(doc);
    let cells = sheet_cells(&resp, 0, 0);
    assert_eq!(strings(&cells), vec!["6", "6", "foobar", "true"]);
}

#[test]
fn if_selects_for_literal_and_nested_operands() {
    let doc = r#"{"submissionUrl": "u", "sheets": [{"id": "s", "data": [["=IF(true,1,2)", "=IF(false,CONCAT(\"x\",\"y\"),GT(5,3))"]]}]}"#;
    let resp = run(doc);
    let cells = sheet_cells(&resp, 0, 0);
    assert_eq!(strings(&cells), vec!["1", "true"]);
}

#[test]
fn type_mismatch_yields_the_sentinel_in_place() {
    let doc = r#"{"submissionUrl": "u", "sheets": [{"id": "s", "data": [["=GT(\"a\",\"b\")", 9]]}]}"#;
    let resp = run(doc);
    let cells = sheet_cells(&resp, 0, 0);
    assert_eq!(strings(&cells), vec![TYPE_ERR, "9"]);
}

#[test]
fn unbalanced_parentheses_never_crash_the_pipeline() {
    // A formula of stray parentheses contributes nothing; the other
    // cell of the row is unaffected.
    let doc = r#"{"submissionUrl": "u", "sheets": [{"id": "s", "data": [["=)((", 7]]}]}"#;
    let resp = run(doc);
    let cells = sheet_cells(&resp, 0, 0);
    assert_eq!(strings(&cells), vec!["7"]);
    // An unclosed call is closed, best effort, at the end of its row:
    // the values that follow it are taken as its remaining arguments.
    let doc2 = r#"{"submissionUrl": "u", "sheets": [{"id": "s", "data": [["=SUM(1,2", 7]]}]}"#;
    let resp2 = run(doc2);
    let cells2 = sheet_cells(&resp2, 0, 0);
    assert_eq!(strings(&cells2), vec!["10"]);
}

#[test]
fn response_shape_follows_the_source() {
    let doc = r#"{"submissionUrl": "u", "sheets": [{"id": "a", "data": [[1], [2, 3]]}, {"id": "b", "data": [[4]]}]}"#;
    let resp = run(doc);
    let Some(Response::Evaluator(ev)) = &resp else {
        panic!("expected a submission response");
    };
    let Some(Response::Spreadsheet(spreads)) = ev.values.as_ref() else {
        panic!("expected a spreadsheet list");
    };
    assert_eq!(spreads.values.len(), 1);
    let Some(Response::Spreadsheet(sheets)) = spreads.values[0].as_ref() else {
        panic!("expected a sheet list");
    };
    assert_eq!(sheets.values.len(), 2);
    let Some(Response::Sheet(first)) = sheets.values[0].as_ref() else {
        panic!("expected a sheet");
    };
    assert_eq!(first.id, b"a".to_vec());
    assert_eq!(sheet_cells(&resp, 0, 0).len(), 3);
    assert_eq!(sheet_cells(&resp, 0, 1).len(), 1);
}

#[test]
fn empty_input_fails_the_overall_parse_only() {
    let lexer = Lexer::new(Vec::new());
    let tokens = lexer.lex();
    // The stream still carries the end-of-stream marker.
    assert_eq!(tokens.len(), 1);
    let mut parser = Parser::new(Vec::new());
    assert!(parser.parse_all().is_none());
}

#[test]
fn a_cell_may_hold_several_expressions() {
    let doc = r#"{"submissionUrl": "u", "sheets": [{"id": "s", "data": [["=SUM(1,2)", 5, "=NOT(false)"]]}]}"#;
    let resp = run(doc);
    let cells = sheet_cells(&resp, 0, 0);
    assert_eq!(strings(&cells), vec!["3", "5", "true"]);
}

#[test]
fn flattening_then_evaluating_matches_direct_reduction() {
    let node = N::OperationSum(SumNode {
        values: vec![
            N::IntLit(LitNode {
                token: Token::new(TokenKind::Int, b"1".to_vec()),
                slot: b"a1".to_vec(),
            }),
            N::IntLit(LitNode {
                token: Token::new(TokenKind::Int, b"2".to_vec()),
                slot: b"b1".to_vec(),
            }),
        ],
        token: Token::new(TokenKind::Operation_Sum, b"SUM".to_vec()),
        slot: b"A1".to_vec(),
        mem: None,
    });
    let probe = N::Spreadsheet(sheetcalc::ast::SpreadsheetNode { values: Vec::new() });
    let flat = probe.eval_expr(&vec![node]);
    assert_eq!(
        flat.mem,
        vec![b"A1".to_vec(), b"a1".to_vec(), b"b1".to_vec(), b"END_SUM".to_vec()]
    );
    assert_eq!(
        flat.val,
        vec![b"SUM".to_vec(), b"1".to_vec(), b"2".to_vec(), b"0000".to_vec()]
    );
    // Direct reduction of the operand values agrees with evaluating
    // the expression whose encoding this is.
    let it = Interpreter::new(flat.mem, flat.val);
    let direct = it.exec_one(OpTag::Sum, &vec![b"1".to_vec(), b"2".to_vec()]);
    assert_eq!(direct, b"3".to_vec());
}

#[test]
fn a_formula_string_cell_loses_its_quotes() {
    let doc = r#"{"submissionUrl": "u", "sheets": [{"id": "s", "data": [["=\"hi\"", "=CONCAT(\"a\",1)"]]}]}"#;
    let resp = run(doc);
    let cells = sheet_cells(&resp, 0, 0);
    assert_eq!(strings(&cells), vec!["hi", "a1"]);
}
