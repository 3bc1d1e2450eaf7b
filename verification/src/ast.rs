//! The expression tree: document structure (submission, spreadsheets,
//! sheets, grids, cells) and formula structure (operators, literals,
//! address references), plus the response tree that mirrors it with
//! evaluated scalar results.

use vstd::prelude::*;
use crate::token::Token;

verus! {

/// The operator of a formula node.
#[derive(Clone, Copy, Debug, PartialEq, Eq, Structural)]
pub enum OpTag {
    Sum,
    Multiply,
    Divide,
    Concat,
    And,
    Or,
    Not,
    Gt,
    Eq,
    If,
}

/// A literal leaf: its source token and its assigned slot label.
#[derive(Debug)]
pub struct LitNode {
    pub token: Token,
    pub slot: Vec<u8>,
}

/// An address-reference leaf such as `A1`.
#[derive(Debug)]
pub struct NotationNode {
    pub token: Token,
    pub slot: Vec<u8>,
}

/// A `SUM` node: ordered operands, source token, slot label, and the
/// optional flattened encoding remembered for the node.
#[derive(Debug)]
pub struct SumNode {
    pub values: Vec<Node>,
    pub token: Token,
    pub slot: Vec<u8>,
    pub mem: Option<Vec<Vec<u8>>>,
}

/// An `EQ` node.
#[derive(Debug)]
pub struct EqNode {
    pub values: Vec<Node>,
    pub token: Token,
    pub slot: Vec<u8>,
    pub mem: Option<Vec<Vec<u8>>>,
}

/// A `NOT` node.
#[derive(Debug)]
pub struct NotNode {
    pub values: Vec<Node>,
    pub token: Token,
    pub slot: Vec<u8>,
    pub mem: Option<Vec<Vec<u8>>>,
}

/// An `OR` node.
#[derive(Debug)]
pub struct OrNode {
    pub values: Vec<Node>,
    pub token: Token,
    pub slot: Vec<u8>,
    pub mem: Option<Vec<Vec<u8>>>,
}

/// A `DIVIDE` node.
#[derive(Debug)]
pub struct DivideNode {
    pub values: Vec<Node>,
    pub token: Token,
    pub slot: Vec<u8>,
    pub mem: Option<Vec<Vec<u8>>>,
}

/// A `CONCAT` node.
#[derive(Debug)]
pub struct ConcatNode {
    pub values: Vec<Node>,
    pub token: Token,
    pub slot: Vec<u8>,
    pub mem: Option<Vec<Vec<u8>>>,
}

/// A `MULTIPLY` node.
#[derive(Debug)]
pub struct MultiplyNode {
    pub values: Vec<Node>,
    pub token: Token,
    pub slot: Vec<u8>,
    pub mem: Option<Vec<Vec<u8>>>,
}

/// An `AND` node.
#[derive(Debug)]
pub struct AndNode {
    pub values: Vec<Node>,
    pub token: Token,
    pub slot: Vec<u8>,
    pub mem: Option<Vec<Vec<u8>>>,
}

/// A `GT` node.
#[derive(Debug)]
pub struct GtNode {
    pub values: Vec<Node>,
    pub token: Token,
    pub slot: Vec<u8>,
    pub mem: Option<Vec<Vec<u8>>>,
}

/// An `IF` node.
#[derive(Debug)]
pub struct IfNode {
    pub values: Vec<Node>,
    pub token: Token,
    pub slot: Vec<u8>,
    pub mem: Option<Vec<Vec<u8>>>,
}

/// One cell of a row: the ordered expression roots the cell holds.
#[derive(Debug)]
pub struct CellSequenceNode {
    pub values: Vec<Node>,
    pub mem: Option<Vec<Vec<u8>>>,
}

/// One grid of cells: the ordered rows of a sheet.
#[derive(Debug)]
pub struct DataNode {
    pub values: Vec<Node>,
    pub mem: Option<Vec<Vec<u8>>>,
}

/// One sheet: its identifier token and its grid.
#[derive(Debug)]
pub struct SheetNode {
    pub id: Token,
    pub values: Vec<Node>,
}

/// One spreadsheet: its ordered sheets.
#[derive(Debug)]
pub struct SpreadsheetNode {
    pub values: Vec<Node>,
}

/// The submission root: its URL token and its ordered spreadsheets.
#[derive(Debug)]
pub struct EvaluatorNode {
    pub url: Token,
    pub values: Vec<Node>,
}

/// A node of the expression tree. Nodes are produced once by the parser
/// and are read-only thereafter.
#[derive(Debug)]
pub enum Node {
    BoolLit(LitNode),
    StringLit(LitNode),
    IntLit(LitNode),
    FloatLit(LitNode),
    Notation(NotationNode),
    OperationSum(SumNode),
    OperationEq(EqNode),
    OperationGt(GtNode),
    OperationMultiply(MultiplyNode),
    OperationAnd(AndNode),
    OperationNot(NotNode),
    OperationOr(OrNode),
    OperationIf(IfNode),
    OperationConcat(ConcatNode),
    OperationDivide(DivideNode),
    CellSequence(CellSequenceNode),
    DataCells(DataNode),
    Sheet(SheetNode),
    Spreadsheet(SpreadsheetNode),
    Evaluator(EvaluatorNode),
}

/// A structural size of a node, used as a termination measure for
/// recursive walks of the tree.
pub open spec fn node_size(n: Node) -> nat
    decreases n,
{
    match n {
        Node::BoolLit(_) => 1,
        Node::StringLit(_) => 1,
        Node::IntLit(_) => 1,
        Node::FloatLit(_) => 1,
        Node::Notation(_) => 1,
        Node::OperationSum(x) => 1 + forest_size(x.values@),
        Node::OperationEq(x) => 1 + forest_size(x.values@),
        Node::OperationGt(x) => 1 + forest_size(x.values@),
        Node::OperationMultiply(x) => 1 + forest_size(x.values@),
        Node::OperationAnd(x) => 1 + forest_size(x.values@),
        Node::OperationNot(x) => 1 + forest_size(x.values@),
        Node::OperationOr(x) => 1 + forest_size(x.values@),
        Node::OperationIf(x) => 1 + forest_size(x.values@),
        Node::OperationConcat(x) => 1 + forest_size(x.values@),
        Node::OperationDivide(x) => 1 + forest_size(x.values@),
        Node::CellSequence(x) => 1 + forest_size(x.values@),
        Node::DataCells(x) => 1 + forest_size(x.values@),
        Node::Sheet(x) => 1 + forest_size(x.values@),
        Node::Spreadsheet(x) => 1 + forest_size(x.values@),
        Node::Evaluator(x) => 1 + forest_size(x.values@),
    }
}

/// The size of an ordered forest of nodes.
pub open spec fn forest_size(ns: Seq<Node>) -> nat
    decreases ns,
{
    if ns.len() == 0 {
        0
    } else {
        1 + node_size(ns[0]) + forest_size(ns.subrange(1, ns.len() as int))
    }
}

/// Every member of a forest is strictly smaller than the forest.
pub proof fn lemma_forest_size_elem(ns: Seq<Node>, i: int)
    requires
        0 <= i < ns.len(),
    ensures
        node_size(ns[i]) < forest_size(ns),
    decreases ns.len(),
{
    if i > 0 {
        lemma_forest_size_elem(ns.subrange(1, ns.len() as int), i - 1);
    }
}

impl CellSequenceNode {
    /// Records a flattened encoding on the cell.
    pub fn add_mem(&mut self, mem: Vec<Vec<u8>>)
        ensures
            final(self).values == old(self).values,
            final(self).mem == Some(mem),
    {
        self.mem = Some(mem);
    }
}

/// A flattened expression: index-aligned slot labels (`mem`) and symbols
/// (`val`).
#[derive(Debug)]
pub struct Mem {
    pub mem: Vec<Vec<u8>>,
    pub val: Vec<Vec<u8>>,
}

impl Mem {
    /// Pairs a label sequence with its symbol sequence.
    pub fn new(mem: Vec<Vec<u8>>, val: Vec<Vec<u8>>) -> (m: Mem)
        ensures
            m.mem == mem,
            m.val == val,
    {
        Mem { mem, val }
    }
}

/// The evaluated results of one grid: one scalar string per expression,
/// in row-major cell order.
#[derive(Debug)]
pub struct ResultsData {
    pub data: Vec<u8>,
    pub cells: Vec<Vec<u8>>,
}

/// The evaluated results of one sheet.
#[derive(Debug)]
pub struct ResultsSheet {
    pub id: Vec<u8>,
    pub values: Box<Option<Response>>,
}

/// The evaluated results of one spreadsheet, or of the list of
/// spreadsheets of a submission.
#[derive(Debug)]
pub struct SpreadsheetResponseNode {
    pub values: Vec<Box<Option<Response>>>,
}

/// The evaluated results of a whole submission.
#[derive(Debug)]
pub struct EvaluatorResponseNode {
    pub values: Box<Option<Response>>,
}

/// The response tree: it mirrors the expression tree, with each cell's
/// expressions replaced by their evaluated scalar strings.
#[derive(Debug)]
pub enum Response {
    DataCells(Box<ResultsData>),
    Sheet(Box<ResultsSheet>),
    Spreadsheet(Box<SpreadsheetResponseNode>),
    Evaluator(Box<EvaluatorResponseNode>),
}

} // verus!
