//! The parser: recursive descent over the token stream, building the
//! expression tree and assigning every cell expression a synthetic slot
//! address from its grid position.
//!
//! On a missing expected token the parser reports nothing upward and
//! continues from the current position, substituting an empty literal;
//! an unrecognized token is skipped. Only an empty token stream fails
//! the overall parse.
//!
//! Slot assignment: the column counter advances once per expression in
//! a row and the row counter once per row. A top-level expression is
//! labeled with an upper-case column letter and the 1-based row number;
//! inside an operator's argument list the letter pool switches to lower
//! case and the enclosing column counter is frozen until the list ends.

use vstd::prelude::*;
use crate::ast::{Node, OpTag, LitNode, NotationNode, SumNode, EqNode, GtNode, MultiplyNode,
    AndNode, NotNode, OrNode, IfNode, ConcatNode, DivideNode, CellSequenceNode, DataNode,
    SheetNode, SpreadsheetNode, EvaluatorNode};
use crate::token::{Token, TokenKind, copy_token};
use crate::text::{render_nat, render_num};

verus! {

/// The shape of a parsed tree, over plain values: what the parser is
/// specified to produce.
pub enum NodeView {
    BoolLeaf { text: Seq<u8>, slot: Seq<u8> },
    StringLeaf { text: Seq<u8>, slot: Seq<u8> },
    IntLeaf { text: Seq<u8>, slot: Seq<u8> },
    FloatLeaf { text: Seq<u8>, slot: Seq<u8> },
    NotationLeaf { text: Seq<u8>, slot: Seq<u8> },
    Op { tag: OpTag, text: Seq<u8>, slot: Seq<u8>, kids: Seq<NodeView> },
    Cell { kids: Seq<NodeView> },
    Grid { kids: Seq<NodeView> },
    SheetV { id: Seq<u8>, kids: Seq<NodeView> },
    SpreadV { kids: Seq<NodeView> },
    Root { url: Seq<u8>, kids: Seq<NodeView> },
}

/// The view of one tree node.
pub open spec fn node_view(n: Node) -> NodeView
    decreases n,
{
    match n {
        Node::BoolLit(l) => NodeView::BoolLeaf { text: l.token.literal@, slot: l.slot@ },
        Node::StringLit(l) => NodeView::StringLeaf { text: l.token.literal@, slot: l.slot@ },
        Node::IntLit(l) => NodeView::IntLeaf { text: l.token.literal@, slot: l.slot@ },
        Node::FloatLit(l) => NodeView::FloatLeaf { text: l.token.literal@, slot: l.slot@ },
        Node::Notation(l) => NodeView::NotationLeaf { text: l.token.literal@, slot: l.slot@ },
        Node::OperationSum(x) => NodeView::Op {
            tag: OpTag::Sum,
            text: x.token.literal@,
            slot: x.slot@,
            kids: nodes_view(x.values@),
        },
        Node::OperationEq(x) => NodeView::Op {
            tag: OpTag::Eq,
            text: x.token.literal@,
            slot: x.slot@,
            kids: nodes_view(x.values@),
        },
        Node::OperationGt(x) => NodeView::Op {
            tag: OpTag::Gt,
            text: x.token.literal@,
            slot: x.slot@,
            kids: nodes_view(x.values@),
        },
        Node::OperationMultiply(x) => NodeView::Op {
            tag: OpTag::Multiply,
            text: x.token.literal@,
            slot: x.slot@,
            kids: nodes_view(x.values@),
        },
        Node::OperationAnd(x) => NodeView::Op {
            tag: OpTag::And,
            text: x.token.literal@,
            slot: x.slot@,
            kids: nodes_view(x.values@),
        },
        Node::OperationNot(x) => NodeView::Op {
            tag: OpTag::Not,
            text: x.token.literal@,
            slot: x.slot@,
            kids: nodes_view(x.values@),
        },
        Node::OperationOr(x) => NodeView::Op {
            tag: OpTag::Or,
            text: x.token.literal@,
            slot: x.slot@,
            kids: nodes_view(x.values@),
        },
        Node::OperationIf(x) => NodeView::Op {
            tag: OpTag::If,
            text: x.token.literal@,
            slot: x.slot@,
            kids: nodes_view(x.values@),
        },
        Node::OperationConcat(x) => NodeView::Op {
            tag: OpTag::Concat,
            text: x.token.literal@,
            slot: x.slot@,
            kids: nodes_view(x.values@),
        },
        Node::OperationDivide(x) => NodeView::Op {
            tag: OpTag::Divide,
            text: x.token.literal@,
            slot: x.slot@,
            kids: nodes_view(x.values@),
        },
        Node::CellSequence(c) => NodeView::Cell { kids: nodes_view(c.values@) },
        Node::DataCells(d) => NodeView::Grid { kids: nodes_view(d.values@) },
        Node::Sheet(s) => NodeView::SheetV { id: s.id.literal@, kids: nodes_view(s.values@) },
        Node::Spreadsheet(s) => NodeView::SpreadV { kids: nodes_view(s.values@) },
        Node::Evaluator(e) => NodeView::Root { url: e.url.literal@, kids: nodes_view(e.values@) },
    }
}

/// The views of an ordered forest.
pub open spec fn nodes_view(ns: Seq<Node>) -> Seq<NodeView>
    decreases ns,
{
    if ns.len() == 0 {
        Seq::empty()
    } else {
        nodes_view(ns.subrange(0, ns.len() - 1)).push(node_view(ns[ns.len() - 1]))
    }
}

/// The kind of the token at a position; past the end, the end marker.
pub open spec fn kind_at(toks: Seq<Token>, pos: int) -> TokenKind {
    if 0 <= pos < toks.len() {
        toks[pos].kind
    } else {
        TokenKind::Eof
    }
}

/// The literal text of the token at a position, empty past the end.
pub open spec fn text_at(toks: Seq<Token>, pos: int) -> Seq<u8> {
    if 0 <= pos < toks.len() {
        toks[pos].literal@
    } else {
        Seq::empty()
    }
}

/// Clamps the position a sub-parse returned so that scanning always
/// advances by at least one token and never passes the end.
pub open spec fn step_pos(len: int, pos: int, next: int) -> int {
    if next <= pos {
        if pos + 1 <= len {
            pos + 1
        } else {
            len
        }
    } else if next > len {
        len
    } else {
        next
    }
}

/// The parse context threaded through recursive descent: the column
/// counter, the 1-based row counter, and whether parsing stands inside
/// an operator's argument list.
#[derive(Clone, Copy, Debug)]
pub struct ParseCtx {
    pub slot: usize,
    pub row: usize,
    pub nested: bool,
}

/// The letter of a column: the counter wraps over one alphabet, upper
/// case at top level and lower case inside an argument list.
pub open spec fn column_letter(slot: int, nested: bool) -> u8 {
    if nested {
        ('a' as u8 + ((slot - 1) % 26)) as u8
    } else {
        ('A' as u8 + ((slot - 1) % 26)) as u8
    }
}

/// The slot label of an expression: its column letter followed by its
/// row number.
pub open spec fn slot_label(ctx: ParseCtx) -> Seq<u8> {
    seq![column_letter(ctx.slot as int, ctx.nested)] + render_nat(ctx.row as nat)
}

/// The column counter after one more expression; it saturates rather
/// than wrap.
pub open spec fn bump(slot: int) -> int {
    if slot < usize::MAX {
        slot + 1
    } else {
        slot
    }
}

/// Builds the slot label of the current context.
pub fn slot_label_vec(ctx: &ParseCtx) -> (v: Vec<u8>)
    requires
        ctx.slot >= 1,
    ensures
        v@ == slot_label(*ctx),
{
    let letter: u8 = if ctx.nested {
        'a' as u8 + (((ctx.slot - 1) % 26) as u8)
    } else {
        'A' as u8 + (((ctx.slot - 1) % 26) as u8)
    };
    let mut v: Vec<u8> = vec![letter];
    let digits = render_num(ctx.row as u64);
    crate::text::append_bytes(&mut v, &digits);
    proof {
        assert(v@ =~= slot_label(*ctx));
    }
    v
}

/// The view of a one-node forest.
pub proof fn lemma_nodes_view_one(n: Node)
    ensures
        nodes_view(seq![n]) == seq![node_view(n)],
{
    let s = seq![n];
    assert(s.subrange(0, 0) =~= Seq::<Node>::empty());
    assert(nodes_view(Seq::<Node>::empty()) =~= Seq::<NodeView>::empty());
    assert(nodes_view(s) =~= seq![node_view(n)]);
}

/// The view of a forest extended by one node.
pub proof fn lemma_nodes_view_push(a: Seq<Node>, n: Node)
    ensures
        nodes_view(a.push(n)) == nodes_view(a).push(node_view(n)),
{
    let ap = a.push(n);
    assert(ap.subrange(0, ap.len() - 1) =~= a);
    assert(ap[ap.len() - 1] == n);
}

/// The operator keyword kinds, mapped to their operators.
pub open spec fn op_tag_of_kind(k: TokenKind) -> Option<OpTag> {
    match k {
        TokenKind::Operation_Sum => Some(OpTag::Sum),
        TokenKind::Operation_Multiply => Some(OpTag::Multiply),
        TokenKind::Operation_Divide => Some(OpTag::Divide),
        TokenKind::Operation_Concat => Some(OpTag::Concat),
        TokenKind::Operation_And => Some(OpTag::And),
        TokenKind::Operation_Or => Some(OpTag::Or),
        TokenKind::Operation_Not => Some(OpTag::Not),
        TokenKind::Operation_Gt => Some(OpTag::Gt),
        TokenKind::Operation_Eq => Some(OpTag::Eq),
        TokenKind::Operation_If => Some(OpTag::If),
        _ => None,
    }
}

/// Consumes one token of the given kind if it stands at `pos`.
pub open spec fn eat(toks: Seq<Token>, pos: int, k: TokenKind) -> int {
    if kind_at(toks, pos) == k {
        pos + 1
    } else {
        pos
    }
}

/// One parsed expression: a literal or address leaf takes the next
/// column slot; an operator keyword opens an argument list. An
/// unexpected token yields nothing and stays in place.
pub open spec fn parse_operation_spec(toks: Seq<Token>, pos: int, ctx: ParseCtx) -> (
    Option<NodeView>,
    int,
    ParseCtx,
)
    decreases toks.len() - pos, 2int,
{
    let k = kind_at(toks, pos);
    if op_tag_of_kind(k) is Some {
        parse_op_call_spec(toks, pos, ctx, op_tag_of_kind(k)->0)
    } else if k == TokenKind::Int || k == TokenKind::Str || k == TokenKind::Double || k
        == TokenKind::Bool || k == TokenKind::Notation {
        let ctx2 = ParseCtx { slot: bump(ctx.slot as int) as usize, row: ctx.row, nested: ctx.nested };
        let text = text_at(toks, pos);
        let lbl = slot_label(ctx2);
        let leaf = if k == TokenKind::Int {
            NodeView::IntLeaf { text, slot: lbl }
        } else if k == TokenKind::Str {
            NodeView::StringLeaf { text, slot: lbl }
        } else if k == TokenKind::Double {
            NodeView::FloatLeaf { text, slot: lbl }
        } else if k == TokenKind::Bool {
            NodeView::BoolLeaf { text, slot: lbl }
        } else {
            NodeView::NotationLeaf { text, slot: lbl }
        };
        (Some(leaf), pos + 1, ctx2)
    } else {
        (None, pos, ctx)
    }
}

/// One operator call: the keyword, an opening parenthesis, the argument
/// list, and the closing parenthesis. The operator takes the next
/// column slot; its arguments are parsed with the nested letter pool
/// and the enclosing counter is restored on exit.
pub open spec fn parse_op_call_spec(toks: Seq<Token>, pos: int, ctx: ParseCtx, tag: OpTag) -> (
    Option<NodeView>,
    int,
    ParseCtx,
)
    decreases toks.len() - pos, 1int,
{
    if pos < 0 || pos >= toks.len() {
        (None, pos, ctx)
    } else {
        let text = text_at(toks, pos);
        let slot2 = bump(ctx.slot as int) as usize;
        let p1 = pos + 1;
        let p2 = eat(toks, p1, TokenKind::Op_Paren_o);
        let args = parse_args_spec(
            toks,
            p2,
            ParseCtx { slot: slot2, row: ctx.row, nested: true },
        );
        let p4 = eat(toks, args.1, TokenKind::Op_Paren_c);
        let out_ctx = ParseCtx { slot: slot2, row: ctx.row, nested: ctx.nested };
        (
            Some(NodeView::Op { tag, text, slot: slot_label(out_ctx), kids: args.0 }),
            p4,
            out_ctx,
        )
    }
}

/// The argument list of an operator call: expressions up to the closing
/// parenthesis, with commas between them; scanning always advances.
pub open spec fn parse_args_spec(toks: Seq<Token>, pos: int, ctx: ParseCtx) -> (
    Seq<NodeView>,
    int,
    ParseCtx,
)
    decreases toks.len() - pos, 3int,
{
    let k = kind_at(toks, pos);
    if k == TokenKind::Op_Paren_c || k == TokenKind::Arr_c || k == TokenKind::OP_Brace_c || k
        == TokenKind::Eof {
        (Seq::empty(), pos, ctx)
    } else if k == TokenKind::Comma {
        parse_args_spec(toks, pos + 1, ctx)
    } else {
        let one = parse_operation_spec(toks, pos, ctx);
        let p2 = step_pos(toks.len() as int, pos, one.1);
        let rest = parse_args_spec(toks, p2, one.2);
        (
            match one.0 {
                Some(v) => seq![v] + rest.0,
                None => rest.0,
            },
            rest.1,
            rest.2,
        )
    }
}

/// The kind of the token at a position; past the end, the end marker.
pub fn current_kind(toks: &Vec<Token>, pos: usize) -> (k: TokenKind)
    ensures
        k == kind_at(toks@, pos as int),
{
    if pos < toks.len() {
        toks[pos].kind
    } else {
        TokenKind::Eof
    }
}

/// Advances the column counter, saturating at the top.
pub fn bump_e(slot: usize) -> (r: usize)
    ensures
        r as int == bump(slot as int),
{
    if slot < usize::MAX {
        slot + 1
    } else {
        slot
    }
}

/// Clamps a scan position so that it advances and stays in range.
pub fn step_pos_e(len: usize, pos: usize, next: usize) -> (r: usize)
    ensures
        r as int == step_pos(len as int, pos as int, next as int),
{
    if next <= pos {
        if pos < len {
            pos + 1
        } else {
            len
        }
    } else if next > len {
        len
    } else {
        next
    }
}

/// Parses one expression, per the recovering grammar.
fn parse_operation(toks: &Vec<Token>, pos: usize, ctx: ParseCtx) -> (r: (
    Option<Node>,
    usize,
    ParseCtx,
))
    requires
        pos <= toks@.len(),
    ensures
        ({
            let s = parse_operation_spec(toks@, pos as int, ctx);
            &&& match r.0 {
                Some(n) => s.0 is Some && node_view(n) == s.0->0,
                None => s.0 is None,
            }
            &&& r.1 as int == s.1
            &&& r.2 == s.2
            &&& pos <= r.1 <= toks@.len()
        }),
    decreases toks@.len() - pos, 2int,
{
    let _n_toks = toks.len();
    let k = current_kind(toks, pos);
    proof {
        if pos >= toks@.len() {
            assert(kind_at(toks@, pos as int) == TokenKind::Eof);
        }
    }
    match k {
        TokenKind::Operation_Sum => parse_op_call(toks, pos, ctx, OpTag::Sum),
        TokenKind::Operation_Multiply => parse_op_call(toks, pos, ctx, OpTag::Multiply),
        TokenKind::Operation_Divide => parse_op_call(toks, pos, ctx, OpTag::Divide),
        TokenKind::Operation_Concat => parse_op_call(toks, pos, ctx, OpTag::Concat),
        TokenKind::Operation_And => parse_op_call(toks, pos, ctx, OpTag::And),
        TokenKind::Operation_Or => parse_op_call(toks, pos, ctx, OpTag::Or),
        TokenKind::Operation_Not => parse_op_call(toks, pos, ctx, OpTag::Not),
        TokenKind::Operation_Gt => parse_op_call(toks, pos, ctx, OpTag::Gt),
        TokenKind::Operation_Eq => parse_op_call(toks, pos, ctx, OpTag::Eq),
        TokenKind::Operation_If => parse_op_call(toks, pos, ctx, OpTag::If),
        _ => {
            if k == TokenKind::Int || k == TokenKind::Str || k == TokenKind::Double || k
                == TokenKind::Bool || k == TokenKind::Notation {
                assert(pos < toks@.len());
                let ctx2 = ParseCtx { slot: bump_e(ctx.slot), row: ctx.row, nested: ctx.nested };
                let tok = copy_token(&toks[pos]);
                let lbl = slot_label_vec(&ctx2);
                let node = if k == TokenKind::Int {
                    Node::IntLit(LitNode { token: tok, slot: lbl })
                } else if k == TokenKind::Str {
                    Node::StringLit(LitNode { token: tok, slot: lbl })
                } else if k == TokenKind::Double {
                    Node::FloatLit(LitNode { token: tok, slot: lbl })
                } else if k == TokenKind::Bool {
                    Node::BoolLit(LitNode { token: tok, slot: lbl })
                } else {
                    Node::Notation(NotationNode { token: tok, slot: lbl })
                };
                (Some(node), pos + 1, ctx2)
            } else {
                (None, pos, ctx)
            }
        }
    }
}

/// Parses one operator call.
fn parse_op_call(toks: &Vec<Token>, pos: usize, ctx: ParseCtx, tag: OpTag) -> (r: (
    Option<Node>,
    usize,
    ParseCtx,
))
    requires
        pos <= toks@.len(),
    ensures
        ({
            let s = parse_op_call_spec(toks@, pos as int, ctx, tag);
            &&& match r.0 {
                Some(n) => s.0 is Some && node_view(n) == s.0->0,
                None => s.0 is None,
            }
            &&& r.1 as int == s.1
            &&& r.2 == s.2
            &&& pos <= r.1 <= toks@.len()
        }),
    decreases toks@.len() - pos, 1int,
{
    if pos >= toks.len() {
        return (None, pos, ctx);
    }
    let tok = copy_token(&toks[pos]);
    let slot2 = bump_e(ctx.slot);
    let p1 = pos + 1;
    let p2 = if current_kind(toks, p1) == TokenKind::Op_Paren_o {
        p1 + 1
    } else {
        p1
    };
    let args_ctx = ParseCtx { slot: slot2, row: ctx.row, nested: true };
    let parsed = parse_args(toks, p2, args_ctx, Vec::new());
    let (kids, p3, _c) = parsed;
    let p4 = if current_kind(toks, p3) == TokenKind::Op_Paren_c {
        p3 + 1
    } else {
        p3
    };
    let out_ctx = ParseCtx { slot: slot2, row: ctx.row, nested: ctx.nested };
    let lbl = slot_label_vec(&out_ctx);
    let node = match tag {
        OpTag::Sum => Node::OperationSum(SumNode { values: kids, token: tok, slot: lbl, mem: None }),
        OpTag::Multiply => Node::OperationMultiply(
            MultiplyNode { values: kids, token: tok, slot: lbl, mem: None },
        ),
        OpTag::Divide => Node::OperationDivide(
            DivideNode { values: kids, token: tok, slot: lbl, mem: None },
        ),
        OpTag::Concat => Node::OperationConcat(
            ConcatNode { values: kids, token: tok, slot: lbl, mem: None },
        ),
        OpTag::And => Node::OperationAnd(AndNode { values: kids, token: tok, slot: lbl, mem: None }),
        OpTag::Or => Node::OperationOr(OrNode { values: kids, token: tok, slot: lbl, mem: None }),
        OpTag::Not => Node::OperationNot(NotNode { values: kids, token: tok, slot: lbl, mem: None }),
        OpTag::Gt => Node::OperationGt(GtNode { values: kids, token: tok, slot: lbl, mem: None }),
        OpTag::Eq => Node::OperationEq(EqNode { values: kids, token: tok, slot: lbl, mem: None }),
        OpTag::If => Node::OperationIf(IfNode { values: kids, token: tok, slot: lbl, mem: None }),
    };
    (Some(node), p4, out_ctx)
}

/// Parses the arguments of an operator call, appending them to `acc`.
fn parse_args(toks: &Vec<Token>, pos: usize, ctx: ParseCtx, acc: Vec<Node>) -> (r: (
    Vec<Node>,
    usize,
    ParseCtx,
))
    requires
        pos <= toks@.len(),
    ensures
        ({
            let s = parse_args_spec(toks@, pos as int, ctx);
            &&& nodes_view(r.0@) == nodes_view(acc@) + s.0
            &&& r.1 as int == s.1
            &&& r.2 == s.2
            &&& pos <= r.1 <= toks@.len()
        }),
    decreases toks@.len() - pos, 3int,
{
    let _n_toks = toks.len();
    let k = current_kind(toks, pos);
    proof {
        if pos >= toks@.len() {
            assert(kind_at(toks@, pos as int) == TokenKind::Eof);
        }
    }
    if k == TokenKind::Op_Paren_c || k == TokenKind::Arr_c || k == TokenKind::OP_Brace_c || k
        == TokenKind::Eof {
        proof {
            assert(nodes_view(acc@) + parse_args_spec(toks@, pos as int, ctx).0 =~= nodes_view(
                acc@,
            ));
        }
        return (acc, pos, ctx);
    }
    if k == TokenKind::Comma {
        return parse_args(toks, pos + 1, ctx, acc);
    }
    let one = parse_operation(toks, pos, ctx);
    let (n_opt, p1, c1) = one;
    let mut acc2 = acc;
    let ghost acc_in = acc2@;
    match n_opt {
        Some(node) => {
            acc2.push(node);
            proof {
                lemma_nodes_view_push(acc_in, acc2@[acc2@.len() - 1]);
            }
        }
        None => {}
    }
    let p2 = step_pos_e(toks.len(), pos, p1);
    let rest = parse_args(toks, p2, c1, acc2);
    proof {
        let s = parse_args_spec(toks@, pos as int, ctx);
        let srest = parse_args_spec(toks@, p2 as int, c1);
        assert(nodes_view(rest.0@) =~= nodes_view(acc@) + s.0);
    }
    rest
}

/// The expressions of one row, between the row's brackets: commas and
/// stray `=` markers are passed over, and each expression takes the
/// next column slot.
pub open spec fn exprs_rest_spec(toks: Seq<Token>, pos: int, ctx: ParseCtx) -> (
    Seq<NodeView>,
    int,
    ParseCtx,
)
    decreases toks.len() - pos, 4int,
{
    let k = kind_at(toks, pos);
    if k == TokenKind::Arr_c || k == TokenKind::Eof {
        (Seq::empty(), pos, ctx)
    } else if k == TokenKind::Comma || k == TokenKind::Assign {
        exprs_rest_spec(toks, pos + 1, ctx)
    } else {
        let one = parse_operation_spec(toks, pos, ctx);
        let p2 = step_pos(toks.len() as int, pos, one.1);
        let rest = exprs_rest_spec(toks, p2, one.2);
        (
            match one.0 {
                Some(v) => seq![v] + rest.0,
                None => rest.0,
            },
            rest.1,
            rest.2,
        )
    }
}

/// One row of cells: `[` expressions `]`, with the column counter
/// starting fresh for the row.
pub open spec fn parse_expr_sequence_spec(toks: Seq<Token>, pos: int, row: usize) -> (
    NodeView,
    int,
)
    decreases toks.len() - pos, 5int,
{
    let p1 = eat(toks, pos, TokenKind::Arr_o);
    let inner = exprs_rest_spec(toks, p1, ParseCtx { slot: 0, row, nested: false });
    let p3 = eat(toks, inner.1, TokenKind::Arr_c);
    (NodeView::Cell { kids: inner.0 }, p3)
}

/// The rows of a grid, between the grid's brackets; the row counter
/// advances once per row.
pub open spec fn rows_rest_spec(toks: Seq<Token>, pos: int, row: usize) -> (Seq<NodeView>, int)
    decreases toks.len() - pos, 6int,
{
    let k = kind_at(toks, pos);
    if k == TokenKind::Arr_c || k == TokenKind::Eof {
        (Seq::empty(), pos)
    } else if k == TokenKind::Comma {
        rows_rest_spec(toks, pos + 1, row)
    } else if k == TokenKind::Arr_o {
        let one = parse_expr_sequence_spec(toks, pos, row);
        let p2 = step_pos(toks.len() as int, pos, one.1);
        let rest = rows_rest_spec(toks, p2, bump(row as int) as usize);
        (seq![one.0] + rest.0, rest.1)
    } else {
        rows_rest_spec(toks, pos + 1, row)
    }
}

/// One grid: `[` rows `]`.
pub open spec fn parse_sheet_data_spec(toks: Seq<Token>, pos: int) -> (NodeView, int)
    decreases toks.len() - pos, 7int,
{
    let p1 = eat(toks, pos, TokenKind::Arr_o);
    let rows = rows_rest_spec(toks, p1, 1);
    let p3 = eat(toks, rows.1, TokenKind::Arr_c);
    (NodeView::Grid { kids: rows.0 }, p3)
}

/// One sheet: its identifier entry and its grid, between braces. A
/// missing expected token is passed over and the identifier falls back
/// to the empty text.
pub open spec fn parse_sheet_spec(toks: Seq<Token>, pos: int) -> (NodeView, int)
    decreases toks.len() - pos, 8int,
{
    let p1 = eat(toks, pos, TokenKind::OP_Brace_o);
    let p2 = eat(toks, p1, TokenKind::Str);
    let p3 = eat(toks, p2, TokenKind::Punc);
    let id_txt = if kind_at(toks, p3) == TokenKind::Str {
        text_at(toks, p3)
    } else {
        Seq::empty()
    };
    let p4 = eat(toks, p3, TokenKind::Str);
    let p5 = eat(toks, p4, TokenKind::Comma);
    let p6 = eat(toks, p5, TokenKind::Str);
    let p7 = eat(toks, p6, TokenKind::Punc);
    let grid = parse_sheet_data_spec(toks, p7);
    let p9 = eat(toks, grid.1, TokenKind::OP_Brace_c);
    (NodeView::SheetV { id: id_txt, kids: seq![grid.0] }, p9)
}

/// The sheets of a spreadsheet, between its brackets: a sheet opens
/// with a brace; commas and anything else are passed over.
pub open spec fn sheet_list_rest_spec(toks: Seq<Token>, pos: int) -> (Seq<NodeView>, int)
    decreases toks.len() - pos, 9int,
{
    let k = kind_at(toks, pos);
    if k == TokenKind::Arr_c || k == TokenKind::Eof {
        (Seq::empty(), pos)
    } else if k == TokenKind::OP_Brace_o {
        let one = parse_sheet_spec(toks, pos);
        let p2 = step_pos(toks.len() as int, pos, one.1);
        let rest = sheet_list_rest_spec(toks, p2);
        (seq![one.0] + rest.0, rest.1)
    } else {
        sheet_list_rest_spec(toks, pos + 1)
    }
}

/// One spreadsheet: `[` sheets `]`.
pub open spec fn parse_all_sheets_spec(toks: Seq<Token>, pos: int) -> (NodeView, int)
    decreases toks.len() - pos, 10int,
{
    let p1 = eat(toks, pos, TokenKind::Arr_o);
    let sheets = sheet_list_rest_spec(toks, p1);
    let p3 = eat(toks, sheets.1, TokenKind::Arr_c);
    (NodeView::SpreadV { kids: sheets.0 }, p3)
}

/// The spreadsheets of a submission, up to the end of the stream; each
/// is followed by an optional closing brace.
pub open spec fn submission_loop_spec(toks: Seq<Token>, pos: int) -> (Seq<NodeView>, int)
    decreases toks.len() - pos, 11int,
{
    if kind_at(toks, pos) == TokenKind::Eof {
        (Seq::empty(), pos)
    } else {
        let one = parse_all_sheets_spec(toks, pos);
        let p2 = step_pos(toks.len() as int, pos, one.1);
        let p3 = eat(toks, p2, TokenKind::OP_Brace_c);
        let rest = submission_loop_spec(toks, p3);
        (seq![one.0] + rest.0, rest.1)
    }
}

/// The whole submission document. Only an empty token stream yields
/// nothing; any other stream parses, best effort, into a submission
/// root holding its URL and its spreadsheets.
pub open spec fn parse_all_spec(toks: Seq<Token>) -> Option<NodeView> {
    if toks.len() == 0 {
        None
    } else {
        let p1 = eat(toks, 0, TokenKind::OP_Brace_o);
        let p2 = eat(toks, p1, TokenKind::Str);
        let p3 = eat(toks, p2, TokenKind::Punc);
        let url = if kind_at(toks, p3) == TokenKind::Str {
            text_at(toks, p3)
        } else {
            Seq::empty()
        };
        let p4 = eat(toks, p3, TokenKind::Str);
        let p5 = eat(toks, p4, TokenKind::Comma);
        let p6 = eat(toks, p5, TokenKind::Str);
        let p7 = eat(toks, p6, TokenKind::Punc);
        let spreads = submission_loop_spec(toks, p7);
        Some(NodeView::Root { url, kids: spreads.0 })
    }
}

/// Consumes one token of the given kind if it stands at `pos`.
fn eat_e(toks: &Vec<Token>, pos: usize, k: TokenKind) -> (r: usize)
    requires
        pos <= toks@.len(),
        k != TokenKind::Eof,
    ensures
        r as int == eat(toks@, pos as int, k),
        pos <= r <= toks@.len(),
{
    let _n_toks = toks.len();
    if current_kind(toks, pos) == k {
        proof {
            assert(pos < toks@.len());
        }
        pos + 1
    } else {
        pos
    }
}

/// Parses the expressions of one row, appending them to `acc`.
fn exprs_rest(toks: &Vec<Token>, pos: usize, ctx: ParseCtx, acc: Vec<Node>) -> (r: (
    Vec<Node>,
    usize,
    ParseCtx,
))
    requires
        pos <= toks@.len(),
    ensures
        ({
            let s = exprs_rest_spec(toks@, pos as int, ctx);
            &&& nodes_view(r.0@) == nodes_view(acc@) + s.0
            &&& r.1 as int == s.1
            &&& r.2 == s.2
            &&& pos <= r.1 <= toks@.len()
        }),
    decreases toks@.len() - pos, 4int,
{
    let _n_toks = toks.len();
    let k = current_kind(toks, pos);
    proof {
        if pos >= toks@.len() {
            assert(kind_at(toks@, pos as int) == TokenKind::Eof);
        }
    }
    if k == TokenKind::Arr_c || k == TokenKind::Eof {
        proof {
            assert(nodes_view(acc@) + exprs_rest_spec(toks@, pos as int, ctx).0 =~= nodes_view(
                acc@,
            ));
        }
        return (acc, pos, ctx);
    }
    if k == TokenKind::Comma || k == TokenKind::Assign {
        return exprs_rest(toks, pos + 1, ctx, acc);
    }
    let one = parse_operation(toks, pos, ctx);
    let (n_opt, p1, c1) = one;
    let mut acc2 = acc;
    let ghost acc_in = acc2@;
    match n_opt {
        Some(node) => {
            acc2.push(node);
            proof {
                lemma_nodes_view_push(acc_in, acc2@[acc2@.len() - 1]);
            }
        }
        None => {}
    }
    let p2 = step_pos_e(toks.len(), pos, p1);
    let rest = exprs_rest(toks, p2, c1, acc2);
    proof {
        let s = exprs_rest_spec(toks@, pos as int, ctx);
        assert(nodes_view(rest.0@) =~= nodes_view(acc@) + s.0);
    }
    rest
}

/// Parses one row of cells.
fn parse_expr_sequence(toks: &Vec<Token>, pos: usize, row: usize) -> (r: (Node, usize))
    requires
        pos <= toks@.len(),
    ensures
        ({
            let s = parse_expr_sequence_spec(toks@, pos as int, row);
            &&& node_view(r.0) == s.0
            &&& r.1 as int == s.1
            &&& pos <= r.1 <= toks@.len()
        }),
    decreases toks@.len() - pos, 5int,
{
    let p1 = eat_e(toks, pos, TokenKind::Arr_o);
    let inner = exprs_rest(toks, p1, ParseCtx { slot: 0, row, nested: false }, Vec::new());
    let (kids, p2, _c) = inner;
    let p3 = eat_e(toks, p2, TokenKind::Arr_c);
    proof {
        assert(nodes_view(Seq::<Node>::empty()) =~= Seq::<NodeView>::empty());
        assert(nodes_view(kids@) =~= exprs_rest_spec(
            toks@,
            p1 as int,
            ParseCtx { slot: 0, row, nested: false },
        ).0);
    }
    (Node::CellSequence(CellSequenceNode { values: kids, mem: None }), p3)
}

/// Parses the rows of a grid, appending them to `acc`.
fn rows_rest(toks: &Vec<Token>, pos: usize, row: usize, acc: Vec<Node>) -> (r: (Vec<Node>, usize))
    requires
        pos <= toks@.len(),
    ensures
        ({
            let s = rows_rest_spec(toks@, pos as int, row);
            &&& nodes_view(r.0@) == nodes_view(acc@) + s.0
            &&& r.1 as int == s.1
            &&& pos <= r.1 <= toks@.len()
        }),
    decreases toks@.len() - pos, 6int,
{
    let _n_toks = toks.len();
    let k = current_kind(toks, pos);
    proof {
        if pos >= toks@.len() {
            assert(kind_at(toks@, pos as int) == TokenKind::Eof);
        }
    }
    if k == TokenKind::Arr_c || k == TokenKind::Eof {
        proof {
            assert(nodes_view(acc@) + rows_rest_spec(toks@, pos as int, row).0 =~= nodes_view(
                acc@,
            ));
        }
        return (acc, pos);
    }
    if k == TokenKind::Comma {
        return rows_rest(toks, pos + 1, row, acc);
    }
    if k == TokenKind::Arr_o {
        let one = parse_expr_sequence(toks, pos, row);
        let (cell, p1) = one;
        let mut acc2 = acc;
        let ghost acc_in = acc2@;
        acc2.push(cell);
        proof {
            lemma_nodes_view_push(acc_in, acc2@[acc2@.len() - 1]);
        }
        let p2 = step_pos_e(toks.len(), pos, p1);
        let rest = rows_rest(toks, p2, bump_e(row), acc2);
        proof {
            let s = rows_rest_spec(toks@, pos as int, row);
            assert(nodes_view(rest.0@) =~= nodes_view(acc@) + s.0);
        }
        return rest;
    }
    rows_rest(toks, pos + 1, row, acc)
}

/// Parses one grid.
fn parse_sheet_data(toks: &Vec<Token>, pos: usize) -> (r: (Node, usize))
    requires
        pos <= toks@.len(),
    ensures
        ({
            let s = parse_sheet_data_spec(toks@, pos as int);
            &&& node_view(r.0) == s.0
            &&& r.1 as int == s.1
            &&& pos <= r.1 <= toks@.len()
        }),
    decreases toks@.len() - pos, 7int,
{
    let p1 = eat_e(toks, pos, TokenKind::Arr_o);
    let rows = rows_rest(toks, p1, 1, Vec::new());
    let (kids, p2) = rows;
    let p3 = eat_e(toks, p2, TokenKind::Arr_c);
    proof {
        assert(nodes_view(Seq::<Node>::empty()) =~= Seq::<NodeView>::empty());
        assert(nodes_view(kids@) =~= rows_rest_spec(toks@, p1 as int, 1).0);
    }
    (Node::DataCells(DataNode { values: kids, mem: None }), p3)
}

/// Parses one sheet.
fn parse_sheet(toks: &Vec<Token>, pos: usize) -> (r: (Node, usize))
    requires
        pos <= toks@.len(),
    ensures
        ({
            let s = parse_sheet_spec(toks@, pos as int);
            &&& node_view(r.0) == s.0
            &&& r.1 as int == s.1
            &&& pos <= r.1 <= toks@.len()
        }),
    decreases toks@.len() - pos, 8int,
{
    let p1 = eat_e(toks, pos, TokenKind::OP_Brace_o);
    let p2 = eat_e(toks, p1, TokenKind::Str);
    let p3 = eat_e(toks, p2, TokenKind::Punc);
    let id_tok = if current_kind(toks, p3) == TokenKind::Str {
        proof {
            assert(p3 < toks@.len());
        }
        copy_token(&toks[p3])
    } else {
        Token::new(TokenKind::Start, Vec::new())
    };
    let p4 = eat_e(toks, p3, TokenKind::Str);
    let p5 = eat_e(toks, p4, TokenKind::Comma);
    let p6 = eat_e(toks, p5, TokenKind::Str);
    let p7 = eat_e(toks, p6, TokenKind::Punc);
    let grid = parse_sheet_data(toks, p7);
    let (grid_node, p8) = grid;
    let p9 = eat_e(toks, p8, TokenKind::OP_Brace_c);
    let kids: Vec<Node> = vec![grid_node];
    proof {
        assert(kids@ =~= seq![grid_node]);
        lemma_nodes_view_one(grid_node);
    }
    (Node::Sheet(SheetNode { id: id_tok, values: kids }), p9)
}

/// Parses the sheets of a spreadsheet, appending them to `acc`.
fn sheet_list_rest(toks: &Vec<Token>, pos: usize, acc: Vec<Node>) -> (r: (Vec<Node>, usize))
    requires
        pos <= toks@.len(),
    ensures
        ({
            let s = sheet_list_rest_spec(toks@, pos as int);
            &&& nodes_view(r.0@) == nodes_view(acc@) + s.0
            &&& r.1 as int == s.1
            &&& pos <= r.1 <= toks@.len()
        }),
    decreases toks@.len() - pos, 9int,
{
    let _n_toks = toks.len();
    let k = current_kind(toks, pos);
    proof {
        if pos >= toks@.len() {
            assert(kind_at(toks@, pos as int) == TokenKind::Eof);
        }
    }
    if k == TokenKind::Arr_c || k == TokenKind::Eof {
        proof {
            assert(nodes_view(acc@) + sheet_list_rest_spec(toks@, pos as int).0 =~= nodes_view(
                acc@,
            ));
        }
        return (acc, pos);
    }
    if k == TokenKind::OP_Brace_o {
        let one = parse_sheet(toks, pos);
        let (sheet, p1) = one;
        let mut acc2 = acc;
        let ghost acc_in = acc2@;
        acc2.push(sheet);
        proof {
            lemma_nodes_view_push(acc_in, acc2@[acc2@.len() - 1]);
        }
        let p2 = step_pos_e(toks.len(), pos, p1);
        let rest = sheet_list_rest(toks, p2, acc2);
        proof {
            let s = sheet_list_rest_spec(toks@, pos as int);
            assert(nodes_view(rest.0@) =~= nodes_view(acc@) + s.0);
        }
        return rest;
    }
    sheet_list_rest(toks, pos + 1, acc)
}

/// Parses one spreadsheet.
fn parse_all_sheets(toks: &Vec<Token>, pos: usize) -> (r: (Node, usize))
    requires
        pos <= toks@.len(),
    ensures
        ({
            let s = parse_all_sheets_spec(toks@, pos as int);
            &&& node_view(r.0) == s.0
            &&& r.1 as int == s.1
            &&& pos <= r.1 <= toks@.len()
        }),
    decreases toks@.len() - pos, 10int,
{
    let p1 = eat_e(toks, pos, TokenKind::Arr_o);
    let inner = sheet_list_rest(toks, p1, Vec::new());
    let (kids, p2) = inner;
    let p3 = eat_e(toks, p2, TokenKind::Arr_c);
    proof {
        assert(nodes_view(Seq::<Node>::empty()) =~= Seq::<NodeView>::empty());
        assert(nodes_view(kids@) =~= sheet_list_rest_spec(toks@, p1 as int).0);
    }
    (Node::Spreadsheet(SpreadsheetNode { values: kids }), p3)
}

/// Parses the spreadsheets of a submission, appending them to `acc`.
fn submission_loop(toks: &Vec<Token>, pos: usize, acc: Vec<Node>) -> (r: (Vec<Node>, usize))
    requires
        pos <= toks@.len(),
    ensures
        ({
            let s = submission_loop_spec(toks@, pos as int);
            &&& nodes_view(r.0@) == nodes_view(acc@) + s.0
            &&& r.1 as int == s.1
            &&& pos <= r.1 <= toks@.len()
        }),
    decreases toks@.len() - pos, 11int,
{
    let _n_toks = toks.len();
    let k = current_kind(toks, pos);
    if k == TokenKind::Eof {
        proof {
            assert(nodes_view(acc@) + submission_loop_spec(toks@, pos as int).0 =~= nodes_view(
                acc@,
            ));
        }
        return (acc, pos);
    }
    let one = parse_all_sheets(toks, pos);
    let (spread, p1) = one;
    let mut acc2 = acc;
    let ghost acc_in = acc2@;
    acc2.push(spread);
    proof {
        lemma_nodes_view_push(acc_in, acc2@[acc2@.len() - 1]);
    }
    let p2 = step_pos_e(toks.len(), pos, p1);
    let p3 = eat_e(toks, p2, TokenKind::OP_Brace_c);
    let rest = submission_loop(toks, p3, acc2);
    proof {
        let s = submission_loop_spec(toks@, pos as int);
        assert(nodes_view(rest.0@) =~= nodes_view(acc@) + s.0);
    }
    rest
}

/// The recursive-descent parser over one token stream.
#[derive(Debug)]
pub struct Parser {
    pub tokens: Vec<Token>,
    pub offset: usize,
}

impl Parser {
    /// Builds a parser at the start of a token stream.
    pub fn new(tokens: Vec<Token>) -> (p: Parser)
        ensures
            p.tokens == tokens,
            p.offset == 0,
    {
        Parser { tokens, offset: 0 }
    }

    /// Parses the whole submission document. Yields nothing only on an
    /// empty token stream; any other stream parses, best effort, into
    /// a submission root.
    pub fn parse_all(&mut self) -> (r: Option<Node>)
        ensures
            final(self).tokens == old(self).tokens,
            ({
                let s = parse_all_spec(old(self).tokens@);
                match r {
                    Some(n) => s is Some && node_view(n) == s->0,
                    None => s is None,
                }
            }),
    {
        if self.tokens.len() == 0 {
            return None;
        }
        let toks = &self.tokens;
        let p1 = eat_e(toks, 0, TokenKind::OP_Brace_o);
        let p2 = eat_e(toks, p1, TokenKind::Str);
        let p3 = eat_e(toks, p2, TokenKind::Punc);
        let url_tok = if current_kind(toks, p3) == TokenKind::Str {
            proof {
                assert(p3 < toks@.len());
            }
            copy_token(&toks[p3])
        } else {
            Token::new(TokenKind::Start, Vec::new())
        };
        let p4 = eat_e(toks, p3, TokenKind::Str);
        let p5 = eat_e(toks, p4, TokenKind::Comma);
        let p6 = eat_e(toks, p5, TokenKind::Str);
        let p7 = eat_e(toks, p6, TokenKind::Punc);
        let spreads = submission_loop(toks, p7, Vec::new());
        let (kids, p_end) = spreads;
        proof {
            assert(nodes_view(Seq::<Node>::empty()) =~= Seq::<NodeView>::empty());
            assert(nodes_view(kids@) =~= submission_loop_spec(toks@, p7 as int).0);
        }
        self.offset = p_end;
        Some(Node::Evaluator(EvaluatorNode { url: url_tok, values: kids }))
    }
}

} // verus!
