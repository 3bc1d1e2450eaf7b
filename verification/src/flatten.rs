//! The flattener: linearizes an expression forest into two index-aligned
//! sequences, slot labels and symbols. Each node emits its label and its
//! symbol (operator keyword or literal text), then its operands in order,
//! and an operator closes its span with a scope-end marker label paired
//! with the filler symbol. The resulting bracketed encoding bounds every
//! operator's operand span.

use vstd::prelude::*;
use crate::ast::{Node, OpTag, Mem, node_size, forest_size, lemma_forest_size_elem};
use crate::text::views_of;
use crate::eval::{reduce_spec, lookup_spec};
use crate::lexer::has_cell_ref_spec;
use crate::words::{kw_sum, kw_multiply, kw_divide, kw_concat, kw_and, kw_or, kw_not, kw_gt,
    kw_eq, kw_if, end_sum, end_mul, end_div, end_concat, end_and, end_or, end_not, end_gt,
    end_eq, end_if, filler, kw_sum_vec, kw_multiply_vec, kw_divide_vec, kw_concat_vec,
    kw_and_vec, kw_or_vec, kw_not_vec, kw_gt_vec, kw_eq_vec, kw_if_vec, end_sum_vec,
    end_mul_vec, end_div_vec, end_concat_vec, end_and_vec, end_or_vec, end_not_vec,
    end_gt_vec, end_eq_vec, end_if_vec, filler_vec};

verus! {

/// The canonical keyword of an operator.
pub open spec fn op_word_of(t: OpTag) -> Seq<u8> {
    match t {
        OpTag::Sum => kw_sum(),
        OpTag::Multiply => kw_multiply(),
        OpTag::Divide => kw_divide(),
        OpTag::Concat => kw_concat(),
        OpTag::And => kw_and(),
        OpTag::Or => kw_or(),
        OpTag::Not => kw_not(),
        OpTag::Gt => kw_gt(),
        OpTag::Eq => kw_eq(),
        OpTag::If => kw_if(),
    }
}

/// The scope-end marker label of an operator.
pub open spec fn end_word_of(t: OpTag) -> Seq<u8> {
    match t {
        OpTag::Sum => end_sum(),
        OpTag::Multiply => end_mul(),
        OpTag::Divide => end_div(),
        OpTag::Concat => end_concat(),
        OpTag::And => end_and(),
        OpTag::Or => end_or(),
        OpTag::Not => end_not(),
        OpTag::Gt => end_gt(),
        OpTag::Eq => end_eq(),
        OpTag::If => end_if(),
    }
}

/// The operator of a formula node, if it is an operator node.
pub open spec fn op_of(n: Node) -> Option<OpTag> {
    match n {
        Node::OperationSum(_) => Some(OpTag::Sum),
        Node::OperationEq(_) => Some(OpTag::Eq),
        Node::OperationGt(_) => Some(OpTag::Gt),
        Node::OperationMultiply(_) => Some(OpTag::Multiply),
        Node::OperationAnd(_) => Some(OpTag::And),
        Node::OperationNot(_) => Some(OpTag::Not),
        Node::OperationOr(_) => Some(OpTag::Or),
        Node::OperationIf(_) => Some(OpTag::If),
        Node::OperationConcat(_) => Some(OpTag::Concat),
        Node::OperationDivide(_) => Some(OpTag::Divide),
        _ => None,
    }
}

/// The slot label of an expression node; structural nodes carry none.
pub open spec fn slot_of(n: Node) -> Seq<u8> {
    match n {
        Node::BoolLit(l) => l.slot@,
        Node::StringLit(l) => l.slot@,
        Node::IntLit(l) => l.slot@,
        Node::FloatLit(l) => l.slot@,
        Node::Notation(l) => l.slot@,
        Node::OperationSum(x) => x.slot@,
        Node::OperationEq(x) => x.slot@,
        Node::OperationGt(x) => x.slot@,
        Node::OperationMultiply(x) => x.slot@,
        Node::OperationAnd(x) => x.slot@,
        Node::OperationNot(x) => x.slot@,
        Node::OperationOr(x) => x.slot@,
        Node::OperationIf(x) => x.slot@,
        Node::OperationConcat(x) => x.slot@,
        Node::OperationDivide(x) => x.slot@,
        _ => Seq::empty(),
    }
}

/// The ordered operands of an operator node.
pub open spec fn operands_of(n: Node) -> Seq<Node> {
    match n {
        Node::OperationSum(x) => x.values@,
        Node::OperationEq(x) => x.values@,
        Node::OperationGt(x) => x.values@,
        Node::OperationMultiply(x) => x.values@,
        Node::OperationAnd(x) => x.values@,
        Node::OperationNot(x) => x.values@,
        Node::OperationOr(x) => x.values@,
        Node::OperationIf(x) => x.values@,
        Node::OperationConcat(x) => x.values@,
        Node::OperationDivide(x) => x.values@,
        _ => Seq::empty(),
    }
}

/// The literal text of a leaf node.
pub open spec fn leaf_text_of(n: Node) -> Seq<u8> {
    match n {
        Node::BoolLit(l) => l.token.literal@,
        Node::StringLit(l) => l.token.literal@,
        Node::IntLit(l) => l.token.literal@,
        Node::FloatLit(l) => l.token.literal@,
        Node::Notation(l) => l.token.literal@,
        _ => Seq::empty(),
    }
}

/// Whether a node is an expression leaf.
pub open spec fn is_leaf(n: Node) -> bool {
    match n {
        Node::BoolLit(_) => true,
        Node::StringLit(_) => true,
        Node::IntLit(_) => true,
        Node::FloatLit(_) => true,
        Node::Notation(_) => true,
        _ => false,
    }
}

/// The label sequence of one flattened expression node.
pub open spec fn flat_labels(n: Node) -> Seq<Seq<u8>>
    decreases n,
{
    if is_leaf(n) {
        seq![slot_of(n)]
    } else if op_of(n) is Some {
        seq![slot_of(n)] + flat_labels_nodes(operands_of(n)) + seq![
            end_word_of(op_of(n)->0),
        ]
    } else {
        Seq::empty()
    }
}

/// The label sequence of a flattened forest, in order.
pub open spec fn flat_labels_nodes(ns: Seq<Node>) -> Seq<Seq<u8>>
    decreases ns,
{
    if ns.len() == 0 {
        Seq::empty()
    } else {
        flat_labels_nodes(ns.subrange(0, ns.len() - 1)) + flat_labels(ns[ns.len() - 1])
    }
}

/// The symbol sequence of one flattened expression node, index-aligned
/// with its label sequence.
pub open spec fn flat_syms(n: Node) -> Seq<Seq<u8>>
    decreases n,
{
    if is_leaf(n) {
        seq![leaf_text_of(n)]
    } else if op_of(n) is Some {
        seq![op_word_of(op_of(n)->0)] + flat_syms_nodes(operands_of(n)) + seq![filler()]
    } else {
        Seq::empty()
    }
}

/// The symbol sequence of a flattened forest, in order.
pub open spec fn flat_syms_nodes(ns: Seq<Node>) -> Seq<Seq<u8>>
    decreases ns,
{
    if ns.len() == 0 {
        Seq::empty()
    } else {
        flat_syms_nodes(ns.subrange(0, ns.len() - 1)) + flat_syms(ns[ns.len() - 1])
    }
}

/// The canonical keyword of an operator, as a fresh byte vector.
pub fn op_word_vec(t: OpTag) -> (v: Vec<u8>)
    ensures
        v@ == op_word_of(t),
{
    match t {
        OpTag::Sum => kw_sum_vec(),
        OpTag::Multiply => kw_multiply_vec(),
        OpTag::Divide => kw_divide_vec(),
        OpTag::Concat => kw_concat_vec(),
        OpTag::And => kw_and_vec(),
        OpTag::Or => kw_or_vec(),
        OpTag::Not => kw_not_vec(),
        OpTag::Gt => kw_gt_vec(),
        OpTag::Eq => kw_eq_vec(),
        OpTag::If => kw_if_vec(),
    }
}

/// The scope-end marker of an operator, as a fresh byte vector.
pub fn end_word_vec(t: OpTag) -> (v: Vec<u8>)
    ensures
        v@ == end_word_of(t),
{
    match t {
        OpTag::Sum => end_sum_vec(),
        OpTag::Multiply => end_mul_vec(),
        OpTag::Divide => end_div_vec(),
        OpTag::Concat => end_concat_vec(),
        OpTag::And => end_and_vec(),
        OpTag::Or => end_or_vec(),
        OpTag::Not => end_not_vec(),
        OpTag::Gt => end_gt_vec(),
        OpTag::Eq => end_eq_vec(),
        OpTag::If => end_if_vec(),
    }
}

/// Per-cell flattened encodings of a row forest: one label/symbol pair
/// for each cell node, in order; nodes that are not cells contribute
/// nothing.
pub open spec fn cell_flats(ns: Seq<Node>) -> Seq<(Seq<Seq<u8>>, Seq<Seq<u8>>)>
    decreases ns,
{
    if ns.len() == 0 {
        Seq::empty()
    } else {
        cell_flats(ns.subrange(0, ns.len() - 1)) + (match ns[ns.len() - 1] {
            Node::CellSequence(c) => seq![
                (flat_labels_nodes(c.values@), flat_syms_nodes(c.values@)),
            ],
            _ => Seq::empty(),
        })
    }
}

fn flatten_op(
    t: OpTag,
    slot: &Vec<u8>,
    kids: &Vec<Node>,
    mem: &mut Vec<Vec<u8>>,
    val: &mut Vec<Vec<u8>>,
)
    ensures
        views_of(final(mem)@) == views_of(old(mem)@) + seq![slot@] + flat_labels_nodes(kids@)
            + seq![end_word_of(t)],
        views_of(final(val)@) == views_of(old(val)@) + seq![op_word_of(t)]
            + flat_syms_nodes(kids@) + seq![filler()],
    decreases forest_size(kids@) + 1, 0nat,
{
    mem.push(crate::text::copy_bytes(slot));
    val.push(op_word_vec(t));
    proof {
        assert(views_of(mem@) =~= views_of(old(mem)@) + seq![slot@]);
        assert(views_of(val@) =~= views_of(old(val)@) + seq![op_word_of(t)]);
    }
    flatten_forest_into(kids, mem, val);
    mem.push(end_word_vec(t));
    val.push(filler_vec());
    proof {
        assert(views_of(mem@) =~= views_of(old(mem)@) + seq![slot@] + flat_labels_nodes(kids@)
            + seq![end_word_of(t)]);
        assert(views_of(val@) =~= views_of(old(val)@) + seq![op_word_of(t)]
            + flat_syms_nodes(kids@) + seq![filler()]);
    }
}

fn flatten_leaf(slot: &Vec<u8>, text: &Vec<u8>, mem: &mut Vec<Vec<u8>>, val: &mut Vec<Vec<u8>>)
    ensures
        views_of(final(mem)@) == views_of(old(mem)@) + seq![slot@],
        views_of(final(val)@) == views_of(old(val)@) + seq![text@],
{
    mem.push(crate::text::copy_bytes(slot));
    val.push(crate::text::copy_bytes(text));
    proof {
        assert(views_of(mem@) =~= views_of(old(mem)@) + seq![slot@]);
        assert(views_of(val@) =~= views_of(old(val)@) + seq![text@]);
    }
}

/// Appends the flattened encoding of one expression node.
fn flatten_into(n: &Node, mem: &mut Vec<Vec<u8>>, val: &mut Vec<Vec<u8>>)
    ensures
        views_of(final(mem)@) == views_of(old(mem)@) + flat_labels(*n),
        views_of(final(val)@) == views_of(old(val)@) + flat_syms(*n),
    decreases node_size(*n), 1nat,
{
    match n {
        Node::BoolLit(l) => flatten_leaf(&l.slot, &l.token.literal, mem, val),
        Node::StringLit(l) => flatten_leaf(&l.slot, &l.token.literal, mem, val),
        Node::IntLit(l) => flatten_leaf(&l.slot, &l.token.literal, mem, val),
        Node::FloatLit(l) => flatten_leaf(&l.slot, &l.token.literal, mem, val),
        Node::Notation(l) => flatten_leaf(&l.slot, &l.token.literal, mem, val),
        Node::OperationSum(x) => flatten_op(OpTag::Sum, &x.slot, &x.values, mem, val),
        Node::OperationEq(x) => flatten_op(OpTag::Eq, &x.slot, &x.values, mem, val),
        Node::OperationGt(x) => flatten_op(OpTag::Gt, &x.slot, &x.values, mem, val),
        Node::OperationMultiply(x) => flatten_op(OpTag::Multiply, &x.slot, &x.values, mem, val),
        Node::OperationAnd(x) => flatten_op(OpTag::And, &x.slot, &x.values, mem, val),
        Node::OperationNot(x) => flatten_op(OpTag::Not, &x.slot, &x.values, mem, val),
        Node::OperationOr(x) => flatten_op(OpTag::Or, &x.slot, &x.values, mem, val),
        Node::OperationIf(x) => flatten_op(OpTag::If, &x.slot, &x.values, mem, val),
        Node::OperationConcat(x) => flatten_op(OpTag::Concat, &x.slot, &x.values, mem, val),
        Node::OperationDivide(x) => flatten_op(OpTag::Divide, &x.slot, &x.values, mem, val),
        _ => {
            proof {
                assert(views_of(mem@) =~= views_of(old(mem)@) + flat_labels(*n));
                assert(views_of(val@) =~= views_of(old(val)@) + flat_syms(*n));
            }
        }
    }
}

/// Appends the flattened encoding of an ordered expression forest.
fn flatten_forest_into(ns: &Vec<Node>, mem: &mut Vec<Vec<u8>>, val: &mut Vec<Vec<u8>>)
    ensures
        views_of(final(mem)@) == views_of(old(mem)@) + flat_labels_nodes(ns@),
        views_of(final(val)@) == views_of(old(val)@) + flat_syms_nodes(ns@),
    decreases forest_size(ns@), 2nat,
{
    let mut i: usize = 0;
    proof {
        assert(views_of(mem@) =~= views_of(old(mem)@) + flat_labels_nodes(ns@.take(0)));
        assert(views_of(val@) =~= views_of(old(val)@) + flat_syms_nodes(ns@.take(0)));
    }
    while i < ns.len()
        invariant
            0 <= i <= ns@.len(),
            views_of(mem@) == views_of(old(mem)@) + flat_labels_nodes(ns@.take(i as int)),
            views_of(val@) == views_of(old(val)@) + flat_syms_nodes(ns@.take(i as int)),
        decreases ns@.len() - i,
    {
        proof {
            lemma_forest_size_elem(ns@, i as int);
        }
        flatten_into(&ns[i], mem, val);
        proof {
            assert(ns@.take(i + 1).subrange(0, i as int) =~= ns@.take(i as int));
            assert(ns@.take(i + 1)[i as int] == ns@[i as int]);
            assert(views_of(mem@) =~= views_of(old(mem)@) + flat_labels_nodes(ns@.take(i + 1)));
            assert(views_of(val@) =~= views_of(old(val)@) + flat_syms_nodes(ns@.take(i + 1)));
        }
        i = i + 1;
    }
    proof {
        assert(ns@.take(ns@.len() as int) =~= ns@);
    }
}

impl Node {
    /// Flattens an expression forest into its label/symbol encoding.
    pub fn eval_expr(&self, nodes: &Vec<Node>) -> (m: Mem)
        ensures
            views_of(m.mem@) == flat_labels_nodes(nodes@),
            views_of(m.val@) == flat_syms_nodes(nodes@),
    {
        let mut mem: Vec<Vec<u8>> = Vec::new();
        let mut val: Vec<Vec<u8>> = Vec::new();
        proof {
            assert(views_of(mem@) =~= Seq::<Seq<u8>>::empty());
            assert(views_of(val@) =~= Seq::<Seq<u8>>::empty());
        }
        flatten_forest_into(nodes, &mut mem, &mut val);
        proof {
            assert(views_of(mem@) =~= flat_labels_nodes(nodes@));
            assert(views_of(val@) =~= flat_syms_nodes(nodes@));
        }
        Mem::new(mem, val)
    }

    /// Flattens each cell of a row forest, one encoding per cell.
    pub fn interpreter(&self, nodes: &Vec<Node>) -> (r: Vec<Mem>)
        ensures
            r@.len() == cell_flats(nodes@).len(),
            forall|k: int| 0 <= k < r@.len() ==> views_of(#[trigger] r@[k].mem@) == cell_flats(
                nodes@,
            )[k].0 && views_of(r@[k].val@) == cell_flats(nodes@)[k].1,
    {
        let mut r: Vec<Mem> = Vec::new();
        let mut i: usize = 0;
        while i < nodes.len()
            invariant
                0 <= i <= nodes@.len(),
                r@.len() == cell_flats(nodes@.take(i as int)).len(),
                forall|k: int| 0 <= k < r@.len() ==> views_of(#[trigger] r@[k].mem@)
                    == cell_flats(nodes@.take(i as int))[k].0 && views_of(r@[k].val@)
                    == cell_flats(nodes@.take(i as int))[k].1,
            decreases nodes@.len() - i,
        {
            proof {
                assert(nodes@.take(i + 1).subrange(0, i as int) =~= nodes@.take(i as int));
                assert(nodes@.take(i + 1)[i as int] == nodes@[i as int]);
            }
            match &nodes[i] {
                Node::CellSequence(c) => {
                    let m = self.eval_expr(&c.values);
                    r.push(m);
                }
                _ => {}
            }
            i = i + 1;
        }
        proof {
            assert(nodes@.take(nodes@.len() as int) =~= nodes@);
        }
        r
    }
}

/// One flattened expression as label/symbol records, index-aligned.
pub open spec fn flat_pairs(n: Node) -> Seq<(Seq<u8>, Seq<u8>)>
    decreases n,
{
    if is_leaf(n) {
        seq![(slot_of(n), leaf_text_of(n))]
    } else if op_of(n) is Some {
        seq![(slot_of(n), op_word_of(op_of(n)->0))] + flat_pairs_nodes(operands_of(n)) + seq![
            (end_word_of(op_of(n)->0), filler()),
        ]
    } else {
        Seq::empty()
    }
}

/// The flattened records of a forest, in order.
pub open spec fn flat_pairs_nodes(ns: Seq<Node>) -> Seq<(Seq<u8>, Seq<u8>)>
    decreases ns,
{
    if ns.len() == 0 {
        Seq::empty()
    } else {
        flat_pairs_nodes(ns.subrange(0, ns.len() - 1)) + flat_pairs(ns[ns.len() - 1])
    }
}

/// The flattened records are exactly the label and symbol sequences,
/// zipped.
pub proof fn lemma_flat_pairs_align(n: Node)
    ensures
        flat_pairs(n).len() == flat_labels(n).len(),
        flat_labels(n).len() == flat_syms(n).len(),
        forall|i: int| 0 <= i < flat_pairs(n).len() ==> #[trigger] flat_pairs(n)[i] == (
            flat_labels(n)[i],
            flat_syms(n)[i],
        ),
    decreases node_size(n), 0nat,
{
    if is_leaf(n) {
    } else if op_of(n) is Some {
        lemma_flat_pairs_align_nodes(operands_of(n));
    }
}

/// The forest form of the alignment.
pub proof fn lemma_flat_pairs_align_nodes(ns: Seq<Node>)
    ensures
        flat_pairs_nodes(ns).len() == flat_labels_nodes(ns).len(),
        flat_labels_nodes(ns).len() == flat_syms_nodes(ns).len(),
        forall|i: int| 0 <= i < flat_pairs_nodes(ns).len() ==> #[trigger] flat_pairs_nodes(ns)[i]
            == (flat_labels_nodes(ns)[i], flat_syms_nodes(ns)[i]),
    decreases forest_size(ns), 1nat,
{
    if ns.len() > 0 {
        let head = ns.subrange(0, ns.len() - 1);
        lemma_forest_size_elem(ns, ns.len() - 1);
        lemma_forest_head_size(ns);
        lemma_flat_pairs_align_nodes(head);
        lemma_flat_pairs_align(ns[ns.len() - 1]);
    }
}

/// A forest's leading rows are no larger than the forest.
pub proof fn lemma_forest_head_size(ns: Seq<Node>)
    requires
        ns.len() > 0,
    ensures
        forest_size(ns.subrange(0, ns.len() - 1)) < forest_size(ns),
    decreases ns.len(),
{
    if ns.len() == 1 {
        assert(ns.subrange(0, 0) =~= Seq::<Node>::empty());
    } else {
        let head = ns.subrange(0, ns.len() - 1);
        lemma_forest_head_size(head);
        assert(head.subrange(0, head.len() - 1) =~= ns.subrange(0, ns.len() - 2));
        let t1 = ns.subrange(1, ns.len() as int);
        lemma_forest_head_size(t1);
        assert(t1.subrange(0, t1.len() - 1) =~= head.subrange(1, head.len() as int));
        assert(forest_size(ns) == 1 + node_size(ns[0]) + forest_size(t1));
        assert(forest_size(head) == 1 + node_size(head[0]) + forest_size(
            head.subrange(1, head.len() as int),
        ));
    }
}

/// The operator a symbol denotes, if it is a canonical keyword.
pub open spec fn sym_op(sym: Seq<u8>) -> Option<OpTag> {
    if sym == kw_sum() {
        Some(OpTag::Sum)
    } else if sym == kw_multiply() {
        Some(OpTag::Multiply)
    } else if sym == kw_divide() {
        Some(OpTag::Divide)
    } else if sym == kw_concat() {
        Some(OpTag::Concat)
    } else if sym == kw_and() {
        Some(OpTag::And)
    } else if sym == kw_or() {
        Some(OpTag::Or)
    } else if sym == kw_not() {
        Some(OpTag::Not)
    } else if sym == kw_gt() {
        Some(OpTag::Gt)
    } else if sym == kw_eq() {
        Some(OpTag::Eq)
    } else if sym == kw_if() {
        Some(OpTag::If)
    } else {
        None
    }
}

/// The matching scope-end record of an operator whose span opens just
/// before `k`: the first end marker of that operator at depth one,
/// counting nested openings of the same operator; the length when none
/// matches.
pub open spec fn pair_match_end(
    ps: Seq<(Seq<u8>, Seq<u8>)>,
    op: OpTag,
    k: int,
    depth: int,
) -> int
    decreases ps.len() - k,
{
    if !(0 <= k < ps.len()) {
        ps.len() as int
    } else if ps[k].0 == end_word_of(op) && depth == 1 {
        k
    } else {
        let d2 = if ps[k].1 == op_word_of(op) {
            depth + 1
        } else if ps[k].0 == end_word_of(op) {
            depth - 1
        } else {
            depth
        };
        pair_match_end(ps, op, k + 1, d2)
    }
}

pub proof fn lemma_pair_match_end_bounds(ps: Seq<(Seq<u8>, Seq<u8>)>, op: OpTag, k: int, depth: int)
    requires
        0 <= k <= ps.len(),
    ensures
        k <= pair_match_end(ps, op, k, depth) <= ps.len(),
    decreases ps.len() - k,
{
    if k < ps.len() && !(ps[k].0 == end_word_of(op) && depth == 1) {
        let d2 = if ps[k].1 == op_word_of(op) {
            depth + 1
        } else if ps[k].0 == end_word_of(op) {
            depth - 1
        } else {
            depth
        };
        lemma_pair_match_end_bounds(ps, op, k + 1, d2);
    }
}

/// Scan evaluation of a flattened record sequence: a leading operator
/// keyword reduces the span bounded by its matching end marker; an
/// address-shaped symbol resolves through the environment; any other
/// symbol passes through as a value.
pub open spec fn eval_pairs(
    ps: Seq<(Seq<u8>, Seq<u8>)>,
    env_l: Seq<Seq<u8>>,
    env_s: Seq<Seq<u8>>,
) -> Seq<Seq<u8>>
    decreases ps.len(),
{
    if ps.len() == 0 {
        Seq::empty()
    } else {
        match sym_op(ps[0].1) {
            Some(op) => {
                proof {
                    lemma_pair_match_end_bounds(ps, op, 1, 1);
                }
                let j = pair_match_end(ps, op, 1, 1);
                let args = eval_pairs(ps.subrange(1, j), env_l, env_s);
                let rest = if j + 1 <= ps.len() {
                    eval_pairs(ps.subrange(j + 1, ps.len() as int), env_l, env_s)
                } else {
                    Seq::empty()
                };
                seq![reduce_spec(op, args)] + rest
            }
            None => {
                let v = if has_cell_ref_spec(ps[0].1) {
                    lookup_spec(env_l, env_s, ps[0].1)
                } else {
                    ps[0].1
                };
                seq![v] + eval_pairs(ps.subrange(1, ps.len() as int), env_l, env_s)
            }
        }
    }
}

} // verus!
