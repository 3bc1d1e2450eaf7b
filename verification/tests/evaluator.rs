//! Scenario tests for the operator reduction table.

use sheetcalc::ast::OpTag;
use sheetcalc::eval::Interpreter;
use sheetcalc::ast::{LitNode, Node, NotationNode};
use sheetcalc::token::{Token, TokenKind};

fn bare() -> Interpreter {
    Interpreter::new(Vec::new(), Vec::new())
}

fn args(xs: &[&str]) -> Vec<Vec<u8>> {
    xs.iter().map(|x| x.as_bytes().to_vec()).collect()
}

const TYPE_ERR: &str = "ERROR: type does not match";

#[test]
fn sum_is_order_independent() {
    let it = bare();
    let a = it.exec_one(OpTag::Sum, &args(&["1", "2", "3"]));
    let b = it.exec_one(OpTag::Sum, &args(&["3", "2", "1"]));
    assert_eq!(a, b"6".to_vec());
    assert_eq!(b, b"6".to_vec());
}

#[test]
fn sum_rejects_non_numeric() {
    let it = bare();
    let r = it.exec_one(OpTag::Sum, &args(&["1", "true"]));
    assert_eq!(r, TYPE_ERR.as_bytes().to_vec());
}

#[test]
fn sum_overflow_is_an_error() {
    let it = bare();
    let r = it.exec_one(OpTag::Sum, &args(&["18446744073709551615", "1"]));
    assert_eq!(r, TYPE_ERR.as_bytes().to_vec());
}

#[test]
fn sum_canonicalizes_leading_zeros() {
    let it = bare();
    let r = it.exec_one(OpTag::Sum, &args(&["007"]));
    assert_eq!(r, b"7".to_vec());
}

#[test]
fn multiply_reduces_product() {
    let it = bare();
    let r = it.exec_one(OpTag::Multiply, &args(&["4", "5", "2"]));
    assert_eq!(r, b"40".to_vec());
}

#[test]
fn multiply_zero_swallows_overflow() {
    let it = bare();
    let r = it.exec_one(
        OpTag::Multiply,
        &args(&["18446744073709551615", "18446744073709551615", "0"]),
    );
    assert_eq!(r, b"0".to_vec());
}

#[test]
fn multiply_overflow_is_an_error() {
    let it = bare();
    let r = it.exec_one(OpTag::Multiply, &args(&["18446744073709551615", "2"]));
    assert_eq!(r, TYPE_ERR.as_bytes().to_vec());
}

#[test]
fn divide_truncates() {
    let it = bare();
    let r = it.exec_one(OpTag::Divide, &args(&["7", "2"]));
    assert_eq!(r, b"3".to_vec());
}

#[test]
fn divide_by_zero_is_an_error() {
    let it = bare();
    let r = it.exec_one(OpTag::Divide, &args(&["7", "0"]));
    assert_eq!(r, TYPE_ERR.as_bytes().to_vec());
}

#[test]
fn divide_needs_two_numbers() {
    let it = bare();
    assert_eq!(
        it.exec_one(OpTag::Divide, &args(&["7"])),
        TYPE_ERR.as_bytes().to_vec()
    );
    assert_eq!(
        it.exec_one(OpTag::Divide, &args(&["7", "\"a\""])),
        TYPE_ERR.as_bytes().to_vec()
    );
}

#[test]
fn concat_strips_quotes() {
    let it = bare();
    let r = it.exec_one(OpTag::Concat, &args(&["\"foo\"", "\"bar\""]));
    assert_eq!(r, b"foobar".to_vec());
}

#[test]
fn concat_joins_numbers_verbatim() {
    let it = bare();
    let r = it.exec_one(OpTag::Concat, &args(&["12", "34"]));
    assert_eq!(r, b"1234".to_vec());
}

#[test]
fn concat_refuses_the_sentinel() {
    let it = bare();
    let r = it.exec_one(OpTag::Concat, &args(&["\"a\"", TYPE_ERR]));
    assert_eq!(r, TYPE_ERR.as_bytes().to_vec());
}

#[test]
fn and_all_true() {
    let it = bare();
    assert_eq!(
        it.exec_one(OpTag::And, &args(&["true", "true"])),
        b"true".to_vec()
    );
    assert_eq!(
        it.exec_one(OpTag::And, &args(&["true", "false"])),
        b"false".to_vec()
    );
    assert_eq!(
        it.exec_one(OpTag::And, &args(&["true", "1"])),
        TYPE_ERR.as_bytes().to_vec()
    );
}

#[test]
fn or_any_true() {
    let it = bare();
    assert_eq!(
        it.exec_one(OpTag::Or, &args(&["false", "true"])),
        b"true".to_vec()
    );
    assert_eq!(
        it.exec_one(OpTag::Or, &args(&["false", "false"])),
        b"false".to_vec()
    );
    assert_eq!(
        it.exec_one(OpTag::Or, &args(&["x", "true"])),
        TYPE_ERR.as_bytes().to_vec()
    );
}

#[test]
fn not_negates() {
    let it = bare();
    assert_eq!(it.exec_one(OpTag::Not, &args(&["true"])), b"false".to_vec());
    assert_eq!(it.exec_one(OpTag::Not, &args(&["false"])), b"true".to_vec());
    assert_eq!(
        it.exec_one(OpTag::Not, &args(&["5"])),
        TYPE_ERR.as_bytes().to_vec()
    );
}

#[test]
fn gt_orders_numerically() {
    let it = bare();
    assert_eq!(it.exec_one(OpTag::Gt, &args(&["5", "3"])), b"true".to_vec());
    assert_eq!(it.exec_one(OpTag::Gt, &args(&["3", "5"])), b"false".to_vec());
    assert_eq!(
        it.exec_one(OpTag::Gt, &args(&["\"a\"", "\"b\""])),
        TYPE_ERR.as_bytes().to_vec()
    );
    assert_eq!(it.exec_one(OpTag::Gt, &args(&["10", "9"])), b"true".to_vec());
}

#[test]
fn eq_compares_exactly() {
    let it = bare();
    assert_eq!(it.exec_one(OpTag::Eq, &args(&["1", "1"])), b"true".to_vec());
    assert_eq!(it.exec_one(OpTag::Eq, &args(&["1", "2"])), b"false".to_vec());
}

#[test]
fn nested_boolean_equality() {
    let it = bare();
    let inner = it.exec_one(OpTag::Eq, &args(&["1", "1"]));
    let outer = it.exec_one(OpTag::Eq, &vec![inner, b"true".to_vec()]);
    assert_eq!(outer, b"true".to_vec());
}

#[test]
fn if_selects_branches() {
    let it = bare();
    assert_eq!(
        it.exec_one(OpTag::If, &args(&["true", "1", "2"])),
        b"1".to_vec()
    );
    assert_eq!(
        it.exec_one(OpTag::If, &args(&["false", "1", "2"])),
        b"2".to_vec()
    );
    assert_eq!(
        it.exec_one(OpTag::If, &args(&["7", "1", "2"])),
        TYPE_ERR.as_bytes().to_vec()
    );
}

#[test]
fn float_text_is_not_numeric() {
    let it = bare();
    let r = it.exec_one(OpTag::Sum, &args(&["3.5", "1"]));
    assert_eq!(r, TYPE_ERR.as_bytes().to_vec());
}

#[test]
fn address_resolution_takes_the_first_label() {
    let labels = vec![b"A1".to_vec(), b"B1".to_vec(), b"A1".to_vec()];
    let symbols = vec![b"3".to_vec(), b"4".to_vec(), b"5".to_vec()];
    let it = Interpreter::new(labels, symbols);
    let reference = Node::Notation(NotationNode {
        token: Token::new(TokenKind::Notation, b"A1".to_vec()),
        slot: b"a1".to_vec(),
    });
    assert_eq!(it.eval_value(&reference), b"3".to_vec());
    let dangling = Node::Notation(NotationNode {
        token: Token::new(TokenKind::Notation, b"Z9".to_vec()),
        slot: b"a1".to_vec(),
    });
    assert_eq!(it.eval_value(&dangling), TYPE_ERR.as_bytes().to_vec());
    let lit = Node::IntLit(LitNode {
        token: Token::new(TokenKind::Int, b"41".to_vec()),
        slot: b"A1".to_vec(),
    });
    assert_eq!(it.eval_value(&lit), b"41".to_vec());
}
