//! General laws of the evaluator and the resolver, stated over the same
//! spec functions that the executable functions' contracts use.

use vstd::prelude::*;
use vstd::seq_lib::group_to_multiset_ensures;
use crate::ast::{Node, OpTag};
use crate::text::{is_num, num_val};
use crate::words::{kw_true, kw_false, type_err};
use crate::eval::{reduce_spec, eval_node, eval_nodes, sum_int, all_num, lemma_eval_nodes_len};
use crate::flatten::{op_of, operands_of, is_leaf, leaf_text_of, slot_of, flat_pairs,
    flat_pairs_nodes, sym_op, op_word_of, end_word_of, pair_match_end, eval_pairs};
use crate::lexer::has_cell_ref_spec;
use crate::resolver::{grid_model, grid_exprs, sheet_models, spread_models};

verus! {

/// Each expression of a forest evaluates independently, in place.
pub proof fn lemma_eval_nodes_index(ns: Seq<Node>, la: Seq<Seq<u8>>, sy: Seq<Seq<u8>>, i: int)
    requires
        0 <= i < ns.len(),
    ensures
        eval_nodes(ns, la, sy).len() == ns.len(),
        eval_nodes(ns, la, sy)[i] == eval_node(ns[i], la, sy),
    decreases ns.len(),
{
    lemma_eval_nodes_len(ns, la, sy);
    if i < ns.len() - 1 {
        let head = ns.subrange(0, ns.len() - 1);
        lemma_eval_nodes_index(head, la, sy, i);
    }
}

/// `IF` with a true condition always yields its second operand's value,
/// and with a false condition its third, whatever shape the operands
/// take.
pub proof fn lemma_if_selects(n: Node, la: Seq<Seq<u8>>, sy: Seq<Seq<u8>>)
    requires
        op_of(n) == Some(OpTag::If),
        operands_of(n).len() == 3,
        eval_node(operands_of(n)[0], la, sy) == kw_true() || eval_node(operands_of(n)[0], la, sy)
            == kw_false(),
    ensures
        eval_node(operands_of(n)[0], la, sy) == kw_true() ==> eval_node(n, la, sy) == eval_node(
            operands_of(n)[1],
            la,
            sy,
        ),
        eval_node(operands_of(n)[0], la, sy) == kw_false() ==> eval_node(n, la, sy) == eval_node(
            operands_of(n)[2],
            la,
            sy,
        ),
{
    let ops = operands_of(n);
    let vals = eval_nodes(ops, la, sy);
    lemma_eval_nodes_index(ops, la, sy, 0);
    lemma_eval_nodes_index(ops, la, sy, 1);
    lemma_eval_nodes_index(ops, la, sy, 2);
}

/// The divisor of `DIVIDE` decides success: a zero divisor always
/// yields the type-error sentinel, never a number.
pub proof fn lemma_divide_by_zero(a: Seq<u8>, b: Seq<u8>)
    requires
        num_val(b) == 0,
    ensures
        reduce_spec(OpTag::Divide, seq![a, b]) == type_err(),
{
    let vals = seq![a, b];
    assert(vals[1] == b);
}

/// The number of spreadsheet nodes of a submission's child list.
pub open spec fn count_spreads(ns: Seq<Node>) -> nat
    decreases ns,
{
    if ns.len() == 0 {
        0
    } else {
        count_spreads(ns.subrange(0, ns.len() - 1)) + (match ns[ns.len() - 1] {
            Node::Spreadsheet(_) => 1nat,
            _ => 0nat,
        })
    }
}

/// The number of sheet nodes of a spreadsheet's child list.
pub open spec fn count_sheets(ns: Seq<Node>) -> nat
    decreases ns,
{
    if ns.len() == 0 {
        0
    } else {
        count_sheets(ns.subrange(0, ns.len() - 1)) + (match ns[ns.len() - 1] {
            Node::Sheet(_) => 1nat,
            _ => 0nat,
        })
    }
}

/// The response tree's shape follows the source: one response entry per
/// spreadsheet node.
pub proof fn lemma_spread_models_count(ns: Seq<Node>)
    ensures
        spread_models(ns).len() == count_spreads(ns),
    decreases ns.len(),
{
    if ns.len() > 0 {
        lemma_spread_models_count(ns.subrange(0, ns.len() - 1));
    }
}

/// The response tree's shape follows the source: one response entry per
/// sheet node.
pub proof fn lemma_sheet_models_count(ns: Seq<Node>)
    ensures
        sheet_models(ns).len() == count_sheets(ns),
    decreases ns.len(),
{
    if ns.len() > 0 {
        lemma_sheet_models_count(ns.subrange(0, ns.len() - 1));
    }
}

/// The response of a grid holds exactly one scalar per source
/// expression, in order.
pub proof fn lemma_grid_model_count(ns: Seq<Node>)
    ensures
        grid_model(ns).len() == grid_exprs(ns).len(),
{
    lemma_eval_nodes_len(
        grid_exprs(ns),
        crate::resolver::grid_labels(ns),
        crate::resolver::grid_syms(ns),
    );
}

/// Removing one operand takes exactly its value out of the sum.
proof fn lemma_sum_remove(s: Seq<Seq<u8>>, j: int)
    requires
        0 <= j < s.len(),
    ensures
        sum_int(s.remove(j)) == sum_int(s) - num_val(s[j]),
    decreases s.len(),
{
    if j == s.len() - 1 {
        assert(s.remove(j) =~= s.subrange(0, s.len() - 1));
    } else {
        let head = s.subrange(0, s.len() - 1);
        lemma_sum_remove(head, j);
        let r = s.remove(j);
        assert(r.subrange(0, r.len() - 1) =~= head.remove(j));
        assert(r[r.len() - 1] == s[s.len() - 1]);
    }
}

/// Operand lists with the same multiset of values have the same sum.
proof fn lemma_sum_multiset(a: Seq<Seq<u8>>, b: Seq<Seq<u8>>)
    requires
        a.to_multiset() == b.to_multiset(),
    ensures
        sum_int(a) == sum_int(b),
    decreases a.len(),
{
    broadcast use group_to_multiset_ensures;

    if a.len() == 0 {
        assert(b.to_multiset().len() == 0);
    } else {
        let x = a[a.len() - 1];
        assert(a.contains(x));
        assert(a.to_multiset().count(x) > 0);
        assert(b.to_multiset().count(x) > 0);
        assert(b.contains(x));
        let j = choose|j: int| 0 <= j < b.len() && b[j] == x;
        let a2 = a.remove(a.len() - 1);
        let b2 = b.remove(j);
        assert(a2.to_multiset() =~= a.to_multiset().remove(x));
        assert(b2.to_multiset() =~= b.to_multiset().remove(x));
        lemma_sum_multiset(a2, b2);
        lemma_sum_remove(a, a.len() - 1);
        lemma_sum_remove(b, j);
    }
}

/// Lists with the same multiset of values are numeric together.
proof fn lemma_all_num_multiset(a: Seq<Seq<u8>>, b: Seq<Seq<u8>>)
    requires
        a.to_multiset() == b.to_multiset(),
        all_num(a),
    ensures
        all_num(b),
{
    broadcast use group_to_multiset_ensures;

    assert forall|i: int| 0 <= i < b.len() implies is_num(#[trigger] b[i]) by {
        assert(b.contains(b[i]));
        assert(b.to_multiset().count(b[i]) > 0);
        assert(a.contains(b[i]));
        let k = choose|k: int| 0 <= k < a.len() && a[k] == b[i];
        assert(is_num(a[k]));
    }
}

/// `SUM` depends only on the multiset of its operands: reordering a
/// numeric operand list never changes the result.
pub proof fn lemma_sum_commutes(a: Seq<Seq<u8>>, b: Seq<Seq<u8>>)
    requires
        a.to_multiset() == b.to_multiset(),
    ensures
        reduce_spec(OpTag::Sum, a) == reduce_spec(OpTag::Sum, b),
{
    lemma_sum_multiset(a, b);
    if all_num(a) {
        lemma_all_num_multiset(a, b);
    }
    if all_num(b) {
        lemma_all_num_multiset(b, a);
    }
}

/// The flattened records of a forest of expression leaves: one record
/// per leaf, its slot label and its literal text.
proof fn lemma_flat_pairs_leaves(ns: Seq<Node>)
    requires
        forall|k: int| 0 <= k < ns.len() ==> is_leaf(#[trigger] ns[k]),
    ensures
        flat_pairs_nodes(ns).len() == ns.len(),
        forall|k: int| 0 <= k < ns.len() ==> #[trigger] flat_pairs_nodes(ns)[k] == (
            slot_of(ns[k]),
            leaf_text_of(ns[k]),
        ),
    decreases ns.len(),
{
    if ns.len() > 0 {
        let head = ns.subrange(0, ns.len() - 1);
        let last = ns[ns.len() - 1];
        assert(forall|k: int| 0 <= k < head.len() ==> #[trigger] head[k] == ns[k]);
        lemma_flat_pairs_leaves(head);
        assert(is_leaf(last));
        assert(flat_pairs(last) =~= seq![(slot_of(last), leaf_text_of(last))]);
        assert(flat_pairs_nodes(ns) == flat_pairs_nodes(head) + flat_pairs(last));
        assert forall|k: int| 0 <= k < ns.len() implies #[trigger] flat_pairs_nodes(ns)[k] == (
            slot_of(ns[k]),
            leaf_text_of(ns[k]),
        ) by {
            if k < ns.len() - 1 {
                assert(flat_pairs_nodes(ns)[k] == flat_pairs_nodes(head)[k]);
            } else {
                assert(flat_pairs_nodes(ns)[k] == flat_pairs(last)[0]);
            }
        }
    }
}

/// In a span free of the operator's keyword and end marker, the
/// matching scan runs straight to the end marker.
proof fn lemma_match_scan(ps: Seq<(Seq<u8>, Seq<u8>)>, op: OpTag, k: int, m: int)
    requires
        0 <= k <= m < ps.len(),
        forall|j: int| k <= j < m ==> (#[trigger] ps[j]).1 != op_word_of(op) && ps[j].0
            != end_word_of(op),
        ps[m].0 == end_word_of(op),
    ensures
        pair_match_end(ps, op, k, 1) == m,
    decreases m - k,
{
    if k < m {
        lemma_match_scan(ps, op, k + 1, m);
    }
}

/// A record sequence of plain values evaluates to exactly those
/// values.
proof fn lemma_eval_pairs_literals(
    ps: Seq<(Seq<u8>, Seq<u8>)>,
    env_l: Seq<Seq<u8>>,
    env_s: Seq<Seq<u8>>,
)
    requires
        forall|j: int| 0 <= j < ps.len() ==> sym_op((#[trigger] ps[j]).1) is None
            && !has_cell_ref_spec(ps[j].1),
    ensures
        eval_pairs(ps, env_l, env_s).len() == ps.len(),
        forall|j: int| 0 <= j < ps.len() ==> #[trigger] eval_pairs(ps, env_l, env_s)[j]
            == ps[j].1,
    decreases ps.len(),
{
    if ps.len() > 0 {
        let tail = ps.subrange(1, ps.len() as int);
        lemma_eval_pairs_literals(tail, env_l, env_s);
        assert(eval_pairs(ps, env_l, env_s) =~= seq![ps[0].1] + eval_pairs(tail, env_l, env_s));
    }
}

/// A leaf that is not an address reference evaluates to its own text.
proof fn lemma_eval_leaf(n: Node, la: Seq<Seq<u8>>, sy: Seq<Seq<u8>>)
    requires
        is_leaf(n),
        !(n is Notation),
    ensures
        eval_node(n, la, sy) == leaf_text_of(n),
{
}

/// Flattening a depth-one operator expression (its operands all plain
/// literal leaves) and then evaluating the flattened records yields
/// exactly one scalar: the direct reduction of the operands' values.
pub proof fn lemma_flatten_eval_depth_one(n: Node, env_l: Seq<Seq<u8>>, env_s: Seq<Seq<u8>>)
    requires
        op_of(n) is Some,
        forall|k: int| 0 <= k < operands_of(n).len() ==> is_leaf(#[trigger] operands_of(n)[k]),
        forall|k: int| 0 <= k < operands_of(n).len() ==> !((#[trigger] operands_of(n)[k])
            is Notation),
        forall|k: int| 0 <= k < operands_of(n).len() ==> sym_op(
            leaf_text_of(#[trigger] operands_of(n)[k]),
        ) is None,
        forall|k: int| 0 <= k < operands_of(n).len() ==> !has_cell_ref_spec(
            leaf_text_of(#[trigger] operands_of(n)[k]),
        ),
        forall|k: int| 0 <= k < operands_of(n).len() ==> slot_of(#[trigger] operands_of(n)[k])
            != end_word_of(op_of(n)->0),
    ensures
        eval_node(n, env_l, env_s) == reduce_spec(
            op_of(n)->0,
            eval_nodes(operands_of(n), env_l, env_s),
        ),
        eval_pairs(flat_pairs(n), env_l, env_s) == seq![eval_node(n, env_l, env_s)],
{
    let op = op_of(n)->0;
    let kids = operands_of(n);
    let ps = flat_pairs(n);
    let inner = flat_pairs_nodes(kids);
    lemma_flat_pairs_leaves(kids);
    let m: int = 1 + inner.len() as int;
    assert(ps.len() == m + 1);
    assert(ps[0] == (slot_of(n), op_word_of(op)));
    assert(ps[m].0 == end_word_of(op));
    assert(sym_op(op_word_of(op)) == Some(op));
    assert forall|j: int| 1 <= j < m implies (#[trigger] ps[j]).1 != op_word_of(op) && ps[j].0
        != end_word_of(op) by {
        assert(ps[j] == inner[j - 1]);
        assert(inner[j - 1] == (slot_of(kids[j - 1]), leaf_text_of(kids[j - 1])));
        assert(sym_op(leaf_text_of(kids[j - 1])) is None);
    }
    if m == 1 {
        assert(pair_match_end(ps, op, 1, 1) == m);
    } else {
        lemma_match_scan(ps, op, 1, m);
    }
    let j = pair_match_end(ps, op, 1, 1);
    assert(j == m);
    let span = ps.subrange(1, m);
    assert(span =~= inner);
    lemma_eval_pairs_literals(inner, env_l, env_s);
    let vals = eval_nodes(kids, env_l, env_s);
    assert forall|k: int| 0 <= k < kids.len() implies #[trigger] vals[k] == leaf_text_of(
        kids[k],
    ) by {
        lemma_eval_nodes_index(kids, env_l, env_s, k);
        lemma_eval_leaf(kids[k], env_l, env_s);
    }
    lemma_eval_nodes_len(kids, env_l, env_s);
    assert(eval_pairs(inner, env_l, env_s) =~= vals);
    assert(ps.subrange(m + 1, ps.len() as int) =~= Seq::<(Seq<u8>, Seq<u8>)>::empty());
    assert(eval_pairs(Seq::<(Seq<u8>, Seq<u8>)>::empty(), env_l, env_s)
        =~= Seq::<Seq<u8>>::empty());
    assert(eval_pairs(ps, env_l, env_s) =~= seq![reduce_spec(op, vals)] + Seq::<Seq<u8>>::empty());
    assert(eval_pairs(ps, env_l, env_s) =~= seq![reduce_spec(op, vals)]);
}

} // verus!
