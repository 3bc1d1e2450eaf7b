//! The evaluator: reduction semantics of the ten operators, address
//! resolution against a label/symbol environment, and recursive
//! evaluation of expression trees into scalar result strings.
//!
//! Every scalar is a byte string. Numbers are nonnegative integers in
//! decimal form; the numeric domain is `u64`, and an arithmetic result
//! outside it yields the type-error sentinel, as does a division by
//! zero. Booleans are the words `true` and `false`. An operator applied
//! to operands of the wrong kind or the wrong count yields the sentinel.

use vstd::prelude::*;
use crate::ast::{Node, OpTag, node_size, forest_size, lemma_forest_size_elem};
use crate::text::{is_num, num_val, render_nat, quote_byte, lemma_num_val_nonneg, parse_num,
    render_num, copy_bytes, bytes_eq, views_of, append_bytes};
use crate::words::{kw_true, kw_false, type_err, kw_true_vec, kw_false_vec, type_err_vec};

verus! {

/// A scalar is boolean when it is one of the two boolean words.
pub open spec fn is_bool_val(v: Seq<u8>) -> bool {
    v == kw_true() || v == kw_false()
}

pub open spec fn bool_word(b: bool) -> Seq<u8> {
    if b {
        kw_true()
    } else {
        kw_false()
    }
}

pub open spec fn all_num(vals: Seq<Seq<u8>>) -> bool {
    forall|i: int| 0 <= i < vals.len() ==> is_num(#[trigger] vals[i])
}

pub open spec fn all_bool(vals: Seq<Seq<u8>>) -> bool {
    forall|i: int| 0 <= i < vals.len() ==> is_bool_val(#[trigger] vals[i])
}

pub open spec fn all_true(vals: Seq<Seq<u8>>) -> bool {
    forall|i: int| 0 <= i < vals.len() ==> #[trigger] vals[i] == kw_true()
}

pub open spec fn any_true(vals: Seq<Seq<u8>>) -> bool {
    exists|i: int| 0 <= i < vals.len() && #[trigger] vals[i] == kw_true()
}

/// A scalar can take part in a concatenation unless it is the error
/// sentinel.
pub open spec fn all_stringy(vals: Seq<Seq<u8>>) -> bool {
    forall|i: int| 0 <= i < vals.len() ==> #[trigger] vals[i] != type_err()
}

pub open spec fn sum_int(vals: Seq<Seq<u8>>) -> int
    decreases vals.len(),
{
    if vals.len() == 0 {
        0
    } else {
        sum_int(vals.subrange(0, vals.len() - 1)) + num_val(vals[vals.len() - 1])
    }
}

pub open spec fn prod_int(vals: Seq<Seq<u8>>) -> int
    decreases vals.len(),
{
    if vals.len() == 0 {
        1
    } else {
        prod_int(vals.subrange(0, vals.len() - 1)) * num_val(vals[vals.len() - 1])
    }
}

pub open spec fn concat_all(vals: Seq<Seq<u8>>) -> Seq<u8>
    decreases vals.len(),
{
    if vals.len() == 0 {
        Seq::empty()
    } else {
        concat_all(vals.subrange(0, vals.len() - 1)) + vals[vals.len() - 1]
    }
}

/// Removes every quote character.
pub open spec fn strip_quotes(s: Seq<u8>) -> Seq<u8> {
    s.filter(|c: u8| c != quote_byte())
}

/// The reduction table: what one operator yields on a list of evaluated
/// operand scalars.
///
/// - `SUM` and `MULTIPLY` take any number of numeric operands and yield
///   the sum or product in canonical decimal form; a non-numeric operand
///   or a result above `u64::MAX` yields the sentinel.
/// - `DIVIDE` takes exactly two numeric operands and yields the truncated
///   quotient; a divisor of zero yields the sentinel.
/// - `CONCAT` joins any number of operands with quote characters removed;
///   an operand equal to the sentinel yields the sentinel.
/// - `AND` and `OR` take boolean words and yield the conjunction or
///   disjunction; `NOT` takes exactly one boolean word.
/// - `GT` takes exactly two numeric operands, ordered numerically.
/// - `EQ` takes exactly two operands of any kind, compared exactly.
/// - `IF` takes a boolean word and two branches and yields the branch
///   the condition selects.
pub open spec fn reduce_spec(op: OpTag, vals: Seq<Seq<u8>>) -> Seq<u8> {
    match op {
        OpTag::Sum => if all_num(vals) && sum_int(vals) <= u64::MAX {
            render_nat(sum_int(vals) as nat)
        } else {
            type_err()
        },
        OpTag::Multiply => if all_num(vals) && prod_int(vals) <= u64::MAX {
            render_nat(prod_int(vals) as nat)
        } else {
            type_err()
        },
        OpTag::Divide => if vals.len() == 2 && is_num(vals[0]) && is_num(vals[1])
            && num_val(vals[1]) != 0 {
            render_nat((num_val(vals[0]) / num_val(vals[1])) as nat)
        } else {
            type_err()
        },
        OpTag::Concat => if all_stringy(vals) {
            strip_quotes(concat_all(vals))
        } else {
            type_err()
        },
        OpTag::And => if all_bool(vals) {
            bool_word(all_true(vals))
        } else {
            type_err()
        },
        OpTag::Or => if all_bool(vals) {
            bool_word(any_true(vals))
        } else {
            type_err()
        },
        OpTag::Not => if vals.len() == 1 && is_bool_val(vals[0]) {
            bool_word(vals[0] == kw_false())
        } else {
            type_err()
        },
        OpTag::Gt => if vals.len() == 2 && is_num(vals[0]) && is_num(vals[1]) {
            bool_word(num_val(vals[0]) > num_val(vals[1]))
        } else {
            type_err()
        },
        OpTag::Eq => if vals.len() == 2 {
            bool_word(vals[0] == vals[1])
        } else {
            type_err()
        },
        OpTag::If => if vals.len() == 3 && is_bool_val(vals[0]) {
            if vals[0] == kw_true() {
                vals[1]
            } else {
                vals[2]
            }
        } else {
            type_err()
        },
    }
}

/// Index of the first occurrence of `addr` in `la` at or after `i`, or
/// a negative value when there is none.
pub open spec fn first_match_from(la: Seq<Seq<u8>>, addr: Seq<u8>, i: int) -> int
    decreases la.len() - i,
{
    if i < 0 || i >= la.len() {
        -1
    } else if la[i] == addr {
        i
    } else {
        first_match_from(la, addr, i + 1)
    }
}

/// Resolves an address reference: the symbol aligned with the first
/// occurrence of the referenced slot label, or the type-error sentinel
/// when the label never occurs.
pub open spec fn lookup_spec(la: Seq<Seq<u8>>, sy: Seq<Seq<u8>>, addr: Seq<u8>) -> Seq<u8> {
    let i = first_match_from(la, addr, 0);
    if 0 <= i < sy.len() {
        sy[i]
    } else {
        type_err()
    }
}

/// The value of one expression node against a label/symbol environment:
/// a literal yields its own text, an address reference resolves through
/// the environment, and an operator node reduces the values of its
/// operands. A structural node is not an expression and yields the
/// sentinel.
pub open spec fn eval_node(n: Node, la: Seq<Seq<u8>>, sy: Seq<Seq<u8>>) -> Seq<u8>
    decreases n,
{
    match n {
        Node::BoolLit(l) => l.token.literal@,
        Node::StringLit(l) => l.token.literal@,
        Node::IntLit(l) => l.token.literal@,
        Node::FloatLit(l) => l.token.literal@,
        Node::Notation(l) => lookup_spec(la, sy, l.token.literal@),
        Node::OperationSum(x) => reduce_spec(OpTag::Sum, eval_nodes(x.values@, la, sy)),
        Node::OperationEq(x) => reduce_spec(OpTag::Eq, eval_nodes(x.values@, la, sy)),
        Node::OperationGt(x) => reduce_spec(OpTag::Gt, eval_nodes(x.values@, la, sy)),
        Node::OperationMultiply(x) => reduce_spec(
            OpTag::Multiply,
            eval_nodes(x.values@, la, sy),
        ),
        Node::OperationAnd(x) => reduce_spec(OpTag::And, eval_nodes(x.values@, la, sy)),
        Node::OperationNot(x) => reduce_spec(OpTag::Not, eval_nodes(x.values@, la, sy)),
        Node::OperationOr(x) => reduce_spec(OpTag::Or, eval_nodes(x.values@, la, sy)),
        Node::OperationIf(x) => reduce_spec(OpTag::If, eval_nodes(x.values@, la, sy)),
        Node::OperationConcat(x) => reduce_spec(OpTag::Concat, eval_nodes(x.values@, la, sy)),
        Node::OperationDivide(x) => reduce_spec(OpTag::Divide, eval_nodes(x.values@, la, sy)),
        _ => type_err(),
    }
}

/// The values of an ordered forest of expressions, one scalar per root.
pub open spec fn eval_nodes(ns: Seq<Node>, la: Seq<Seq<u8>>, sy: Seq<Seq<u8>>) -> Seq<Seq<u8>>
    decreases ns,
{
    if ns.len() == 0 {
        Seq::empty()
    } else {
        eval_nodes(ns.subrange(0, ns.len() - 1), la, sy).push(
            eval_node(ns[ns.len() - 1], la, sy),
        )
    }
}

/// A prefix of a numeric operand list never sums above the whole list.
pub proof fn lemma_sum_prefix(vals: Seq<Seq<u8>>, j: int)
    requires
        all_num(vals),
        0 <= j <= vals.len(),
    ensures
        sum_int(vals.take(j)) <= sum_int(vals),
    decreases vals.len(),
{
    if j == vals.len() {
        assert(vals.take(j) =~= vals);
    } else {
        let head = vals.subrange(0, vals.len() - 1);
        assert(all_num(head));
        lemma_sum_prefix(head, j);
        assert(head.take(j) =~= vals.take(j));
        assert(is_num(vals[vals.len() - 1]));
        lemma_num_val_nonneg(vals[vals.len() - 1]);
    }
}

/// A zero operand makes the whole product zero.
pub proof fn lemma_prod_zero(vals: Seq<Seq<u8>>, j: int)
    requires
        0 <= j < vals.len(),
        num_val(vals[j]) == 0,
    ensures
        prod_int(vals) == 0,
    decreases vals.len(),
{
    let head = vals.subrange(0, vals.len() - 1);
    if j == vals.len() - 1 {
    } else {
        lemma_prod_zero(head, j);
    }
}

/// With every operand at least one, prefixes of the product stay between
/// one and the whole product.
pub proof fn lemma_prod_prefix(vals: Seq<Seq<u8>>, j: int)
    requires
        forall|k: int| 0 <= k < vals.len() ==> num_val(#[trigger] vals[k]) >= 1,
        0 <= j <= vals.len(),
    ensures
        1 <= prod_int(vals.take(j)),
        prod_int(vals.take(j)) <= prod_int(vals),
    decreases vals.len(),
{
    if j == vals.len() {
        assert(vals.take(j) =~= vals);
        if vals.len() > 0 {
            let head = vals.subrange(0, vals.len() - 1);
            lemma_prod_prefix(head, head.len() as int);
            assert(head.take(head.len() as int) =~= head);
            let a = prod_int(head);
            let b = num_val(vals[vals.len() - 1]);
            assert(a >= 1 && b >= 1 ==> a * b >= 1) by (nonlinear_arith);
        }
    } else {
        let head = vals.subrange(0, vals.len() - 1);
        lemma_prod_prefix(head, j);
        assert(head.take(j) =~= vals.take(j));
        let a = prod_int(head);
        let b = num_val(vals[vals.len() - 1]);
        lemma_prod_prefix(head, head.len() as int);
        assert(head.take(head.len() as int) =~= head);
        assert(a >= 1 && b >= 1 ==> a * b >= a) by (nonlinear_arith);
    }
}

fn reduce_sum(args: &Vec<Vec<u8>>) -> (r: Vec<u8>)
    ensures
        r@ == reduce_spec(OpTag::Sum, views_of(args@)),
{
    let ghost dv = views_of(args@);
    let mut total: u64 = 0;
    let mut i: usize = 0;
    while i < args.len()
        invariant
            0 <= i <= args@.len(),
            dv == views_of(args@),
            forall|k: int| 0 <= k < i ==> is_num(#[trigger] dv[k]),
            total as int == sum_int(dv.take(i as int)),
        decreases args@.len() - i,
    {
        let parsed = parse_num(&args[i]);
        proof {
            assert(dv[i as int] == args@[i as int]@);
        }
        match parsed {
            None => {
                proof {
                    assert(!is_num(dv[i as int]));
                }
                return type_err_vec();
            }
            Some(v) => {
                proof {
                    assert(dv.take(i + 1).subrange(0, i as int) =~= dv.take(i as int));
                    assert(dv.take(i + 1)[i as int] == dv[i as int]);
                    assert(sum_int(dv.take(i + 1)) == total + v);
                }
                let stepped = total.checked_add(v);
                match stepped {
                    Some(t) => {
                        total = t;
                    }
                    None => {
                        proof {
                            if all_num(dv) {
                                lemma_sum_prefix(dv, i + 1);
                            }
                        }
                        return type_err_vec();
                    }
                }
            }
        }
        i = i + 1;
    }
    proof {
        assert(dv.take(dv.len() as int) =~= dv);
        assert(all_num(dv));
    }
    render_num(total)
}

fn reduce_multiply(args: &Vec<Vec<u8>>) -> (r: Vec<u8>)
    ensures
        r@ == reduce_spec(OpTag::Multiply, views_of(args@)),
{
    let ghost dv = views_of(args@);
    let mut nums: Vec<u64> = Vec::new();
    let mut has_zero: bool = false;
    let mut i: usize = 0;
    while i < args.len()
        invariant
            0 <= i <= args@.len(),
            dv == views_of(args@),
            nums@.len() == i,
            forall|k: int| 0 <= k < i ==> is_num(#[trigger] dv[k]),
            forall|k: int| 0 <= k < i ==> #[trigger] nums@[k] as int == num_val(dv[k]),
            has_zero == exists|k: int| 0 <= k < i && num_val(#[trigger] dv[k]) == 0,
        decreases args@.len() - i,
    {
        let parsed = parse_num(&args[i]);
        proof {
            assert(dv[i as int] == args@[i as int]@);
        }
        match parsed {
            None => {
                proof {
                    assert(!is_num(dv[i as int]));
                }
                return type_err_vec();
            }
            Some(v) => {
                nums.push(v);
                if v == 0 {
                    has_zero = true;
                }
            }
        }
        i = i + 1;
    }
    proof {
        assert(all_num(dv));
    }
    if has_zero {
        proof {
            let k = choose|k: int| 0 <= k < dv.len() && num_val(#[trigger] dv[k]) == 0;
            lemma_prod_zero(dv, k);
        }
        return render_num(0);
    }
    proof {
        assert forall|k: int| 0 <= k < dv.len() implies num_val(#[trigger] dv[k]) >= 1 by {
            assert(is_num(dv[k]));
            lemma_num_val_nonneg(dv[k]);
            assert(nums@[k] as int == num_val(dv[k]));
        }
    }
    let mut total: u64 = 1;
    i = 0;
    while i < nums.len()
        invariant
            0 <= i <= nums@.len(),
            nums@.len() == dv.len(),
            dv == views_of(args@),
            forall|k: int| 0 <= k < dv.len() ==> num_val(#[trigger] dv[k]) >= 1,
            forall|k: int| 0 <= k < dv.len() ==> #[trigger] nums@[k] as int == num_val(dv[k]),
            total as int == prod_int(dv.take(i as int)),
            total >= 1,
        decreases nums@.len() - i,
    {
        let v = nums[i];
        proof {
            assert(dv.take(i + 1).subrange(0, i as int) =~= dv.take(i as int));
            assert(dv.take(i + 1)[i as int] == dv[i as int]);
            assert(prod_int(dv.take(i + 1)) == total * v);
        }
        let stepped = total.checked_mul(v);
        match stepped {
            Some(t) => {
                proof {
                    let a = total as int;
                    let b = v as int;
                    assert(a >= 1 && b >= 1 ==> a * b >= 1) by (nonlinear_arith);
                }
                total = t;
            }
            None => {
                proof {
                    lemma_prod_prefix(dv, i + 1);
                }
                return type_err_vec();
            }
        }
        i = i + 1;
    }
    proof {
        assert(dv.take(dv.len() as int) =~= dv);
    }
    render_num(total)
}

fn reduce_concat(args: &Vec<Vec<u8>>) -> (r: Vec<u8>)
    ensures
        r@ == reduce_spec(OpTag::Concat, views_of(args@)),
{
    let ghost dv = views_of(args@);
    let sentinel = type_err_vec();
    let mut joined: Vec<u8> = Vec::new();
    let mut i: usize = 0;
    while i < args.len()
        invariant
            0 <= i <= args@.len(),
            dv == views_of(args@),
            sentinel@ == type_err(),
            forall|k: int| 0 <= k < i ==> #[trigger] dv[k] != type_err(),
            joined@ == concat_all(dv.take(i as int)),
        decreases args@.len() - i,
    {
        proof {
            assert(dv[i as int] == args@[i as int]@);
        }
        if bytes_eq(&args[i], &sentinel) {
            return type_err_vec();
        }
        proof {
            assert(dv.take(i + 1).subrange(0, i as int) =~= dv.take(i as int));
            assert(dv.take(i + 1)[i as int] == dv[i as int]);
        }
        append_bytes(&mut joined, &args[i]);
        i = i + 1;
    }
    proof {
        assert(dv.take(dv.len() as int) =~= dv);
        assert(all_stringy(dv));
    }
    strip_quotes_vec(&joined)
}

/// Removes every quote character from a scalar.
pub fn strip_quotes_vec(v: &Vec<u8>) -> (r: Vec<u8>)
    ensures
        r@ == strip_quotes(v@),
{
    let mut out: Vec<u8> = Vec::new();
    let mut j: usize = 0;
    while j < v.len()
        invariant
            0 <= j <= v@.len(),
            out@ == strip_quotes(v@.take(j as int)),
        decreases v@.len() - j,
    {
        let c = v[j];
        proof {
            reveal(Seq::filter);
            assert(v@.take(j + 1).drop_last() =~= v@.take(j as int));
            assert(v@.take(j + 1).last() == v@[j as int]);
        }
        if c != '"' as u8 {
            out.push(c);
        }
        j = j + 1;
    }
    proof {
        assert(v@.take(v@.len() as int) =~= v@);
    }
    out
}

fn reduce_and(args: &Vec<Vec<u8>>) -> (r: Vec<u8>)
    ensures
        r@ == reduce_spec(OpTag::And, views_of(args@)),
{
    let ghost dv = views_of(args@);
    let word_true = kw_true_vec();
    let word_false = kw_false_vec();
    let mut allt: bool = true;
    let mut i: usize = 0;
    while i < args.len()
        invariant
            0 <= i <= args@.len(),
            dv == views_of(args@),
            word_true@ == kw_true(),
            word_false@ == kw_false(),
            forall|k: int| 0 <= k < i ==> is_bool_val(#[trigger] dv[k]),
            allt == forall|k: int| 0 <= k < i ==> #[trigger] dv[k] == kw_true(),
        decreases args@.len() - i,
    {
        proof {
            assert(dv[i as int] == args@[i as int]@);
        }
        let is_t = bytes_eq(&args[i], &word_true);
        let is_f = bytes_eq(&args[i], &word_false);
        if !is_t && !is_f {
            return type_err_vec();
        }
        if !is_t {
            allt = false;
        }
        i = i + 1;
    }
    proof {
        assert(all_bool(dv));
        assert(allt == all_true(dv));
    }
    if allt {
        kw_true_vec()
    } else {
        kw_false_vec()
    }
}

fn reduce_or(args: &Vec<Vec<u8>>) -> (r: Vec<u8>)
    ensures
        r@ == reduce_spec(OpTag::Or, views_of(args@)),
{
    let ghost dv = views_of(args@);
    let word_true = kw_true_vec();
    let word_false = kw_false_vec();
    let mut anyt: bool = false;
    let mut i: usize = 0;
    while i < args.len()
        invariant
            0 <= i <= args@.len(),
            dv == views_of(args@),
            word_true@ == kw_true(),
            word_false@ == kw_false(),
            forall|k: int| 0 <= k < i ==> is_bool_val(#[trigger] dv[k]),
            anyt == exists|k: int| 0 <= k < i && #[trigger] dv[k] == kw_true(),
        decreases args@.len() - i,
    {
        proof {
            assert(dv[i as int] == args@[i as int]@);
        }
        let is_t = bytes_eq(&args[i], &word_true);
        let is_f = bytes_eq(&args[i], &word_false);
        if !is_t && !is_f {
            return type_err_vec();
        }
        if is_t {
            anyt = true;
        }
        i = i + 1;
    }
    proof {
        assert(all_bool(dv));
        assert(anyt == any_true(dv));
    }
    if anyt {
        kw_true_vec()
    } else {
        kw_false_vec()
    }
}

fn reduce_not(args: &Vec<Vec<u8>>) -> (r: Vec<u8>)
    ensures
        r@ == reduce_spec(OpTag::Not, views_of(args@)),
{
    let ghost dv = views_of(args@);
    if args.len() != 1 {
        return type_err_vec();
    }
    proof {
        assert(dv[0] == args@[0]@);
    }
    let word_true = kw_true_vec();
    let word_false = kw_false_vec();
    if bytes_eq(&args[0], &word_true) {
        kw_false_vec()
    } else if bytes_eq(&args[0], &word_false) {
        kw_true_vec()
    } else {
        type_err_vec()
    }
}

fn reduce_gt(args: &Vec<Vec<u8>>) -> (r: Vec<u8>)
    ensures
        r@ == reduce_spec(OpTag::Gt, views_of(args@)),
{
    let ghost dv = views_of(args@);
    if args.len() != 2 {
        return type_err_vec();
    }
    proof {
        assert(dv[0] == args@[0]@);
        assert(dv[1] == args@[1]@);
    }
    let a = parse_num(&args[0]);
    let b = parse_num(&args[1]);
    match (a, b) {
        (Some(x), Some(y)) => {
            if x > y {
                kw_true_vec()
            } else {
                kw_false_vec()
            }
        }
        _ => type_err_vec(),
    }
}

fn reduce_eq(args: &Vec<Vec<u8>>) -> (r: Vec<u8>)
    ensures
        r@ == reduce_spec(OpTag::Eq, views_of(args@)),
{
    let ghost dv = views_of(args@);
    if args.len() != 2 {
        return type_err_vec();
    }
    proof {
        assert(dv[0] == args@[0]@);
        assert(dv[1] == args@[1]@);
    }
    if bytes_eq(&args[0], &args[1]) {
        kw_true_vec()
    } else {
        kw_false_vec()
    }
}

fn reduce_if(args: &Vec<Vec<u8>>) -> (r: Vec<u8>)
    ensures
        r@ == reduce_spec(OpTag::If, views_of(args@)),
{
    let ghost dv = views_of(args@);
    if args.len() != 3 {
        return type_err_vec();
    }
    proof {
        assert(dv[0] == args@[0]@);
        assert(dv[1] == args@[1]@);
        assert(dv[2] == args@[2]@);
    }
    let word_true = kw_true_vec();
    let word_false = kw_false_vec();
    if bytes_eq(&args[0], &word_true) {
        copy_bytes(&args[1])
    } else if bytes_eq(&args[0], &word_false) {
        copy_bytes(&args[2])
    } else {
        type_err_vec()
    }
}

fn reduce_divide(args: &Vec<Vec<u8>>) -> (r: Vec<u8>)
    ensures
        r@ == reduce_spec(OpTag::Divide, views_of(args@)),
{
    let ghost dv = views_of(args@);
    if args.len() != 2 {
        return type_err_vec();
    }
    proof {
        assert(dv[0] == args@[0]@);
        assert(dv[1] == args@[1]@);
    }
    let a = parse_num(&args[0]);
    let b = parse_num(&args[1]);
    match (a, b) {
        (Some(x), Some(y)) => {
            if y == 0 {
                type_err_vec()
            } else {
                render_num(x / y)
            }
        }
        _ => type_err_vec(),
    }
}

/// The evaluation engine for one grid: `mem` and `val` hold the
/// grid-level flattened labels and symbols, against which address
/// references resolve.
#[derive(Debug)]
pub struct Interpreter {
    pub mem: Vec<Vec<u8>>,
    pub val: Vec<Vec<u8>>,
}

impl Interpreter {
    /// The slot labels of the environment.
    pub open spec fn labels(&self) -> Seq<Seq<u8>> {
        views_of(self.mem@)
    }

    /// The symbols of the environment, index-aligned with the labels.
    pub open spec fn symbols(&self) -> Seq<Seq<u8>> {
        views_of(self.val@)
    }

    /// Builds an engine over a label/symbol environment.
    pub fn new(mem: Vec<Vec<u8>>, val: Vec<Vec<u8>>) -> (it: Interpreter)
        ensures
            it.mem == mem,
            it.val == val,
    {
        Interpreter { mem, val }
    }

    /// Resolves one address reference against the environment.
    fn resolve_addr(&self, addr: &Vec<u8>) -> (r: Vec<u8>)
        ensures
            r@ == lookup_spec(self.labels(), self.symbols(), addr@),
    {
        let mut i: usize = 0;
        while i < self.mem.len()
            invariant
                0 <= i <= self.mem@.len(),
                first_match_from(self.labels(), addr@, 0) == first_match_from(
                    self.labels(),
                    addr@,
                    i as int,
                ),
            decreases self.mem@.len() - i,
        {
            proof {
                assert(self.labels()[i as int] == self.mem@[i as int]@);
            }
            if bytes_eq(&self.mem[i], addr) {
                if i < self.val.len() {
                    proof {
                        assert(self.symbols()[i as int] == self.val@[i as int]@);
                    }
                    return copy_bytes(&self.val[i]);
                } else {
                    return type_err_vec();
                }
            }
            i = i + 1;
        }
        type_err_vec()
    }

    /// Reduces one operator over a list of already-evaluated operand
    /// scalars, per the reduction table.
    pub fn exec_one(&self, op: OpTag, args: &Vec<Vec<u8>>) -> (r: Vec<u8>)
        ensures
            r@ == reduce_spec(op, views_of(args@)),
    {
        match op {
            OpTag::Sum => reduce_sum(args),
            OpTag::Multiply => reduce_multiply(args),
            OpTag::Divide => reduce_divide(args),
            OpTag::Concat => reduce_concat(args),
            OpTag::And => reduce_and(args),
            OpTag::Or => reduce_or(args),
            OpTag::Not => reduce_not(args),
            OpTag::Gt => reduce_gt(args),
            OpTag::Eq => reduce_eq(args),
            OpTag::If => reduce_if(args),
        }
    }

    /// Evaluates one expression node to its scalar value.
    pub fn eval_value(&self, n: &Node) -> (r: Vec<u8>)
        ensures
            r@ == eval_node(*n, self.labels(), self.symbols()),
        decreases node_size(*n),
    {
        match n {
            Node::BoolLit(l) => copy_bytes(&l.token.literal),
            Node::StringLit(l) => copy_bytes(&l.token.literal),
            Node::IntLit(l) => copy_bytes(&l.token.literal),
            Node::FloatLit(l) => copy_bytes(&l.token.literal),
            Node::Notation(l) => self.resolve_addr(&l.token.literal),
            Node::OperationSum(x) => {
                let args = self.exec(&x.values);
                self.exec_one(OpTag::Sum, &args)
            }
            Node::OperationEq(x) => {
                let args = self.exec(&x.values);
                self.exec_one(OpTag::Eq, &args)
            }
            Node::OperationGt(x) => {
                let args = self.exec(&x.values);
                self.exec_one(OpTag::Gt, &args)
            }
            Node::OperationMultiply(x) => {
                let args = self.exec(&x.values);
                self.exec_one(OpTag::Multiply, &args)
            }
            Node::OperationAnd(x) => {
                let args = self.exec(&x.values);
                self.exec_one(OpTag::And, &args)
            }
            Node::OperationNot(x) => {
                let args = self.exec(&x.values);
                self.exec_one(OpTag::Not, &args)
            }
            Node::OperationOr(x) => {
                let args = self.exec(&x.values);
                self.exec_one(OpTag::Or, &args)
            }
            Node::OperationIf(x) => {
                let args = self.exec(&x.values);
                self.exec_one(OpTag::If, &args)
            }
            Node::OperationConcat(x) => {
                let args = self.exec(&x.values);
                self.exec_one(OpTag::Concat, &args)
            }
            Node::OperationDivide(x) => {
                let args = self.exec(&x.values);
                self.exec_one(OpTag::Divide, &args)
            }
            _ => type_err_vec(),
        }
    }

    /// Evaluates an ordered forest of expressions, one scalar per root.
    pub fn exec(&self, nodes: &Vec<Node>) -> (r: Vec<Vec<u8>>)
        ensures
            views_of(r@) == eval_nodes(nodes@, self.labels(), self.symbols()),
        decreases forest_size(nodes@),
    {
        let mut r: Vec<Vec<u8>> = Vec::new();
        proof {
            assert(views_of(r@) =~= eval_nodes(nodes@.take(0), self.labels(), self.symbols()));
        }
        let mut i: usize = 0;
        while i < nodes.len()
            invariant
                0 <= i <= nodes@.len(),
                views_of(r@) == eval_nodes(nodes@.take(i as int), self.labels(), self.symbols()),
            decreases nodes@.len() - i,
        {
            proof {
                lemma_forest_size_elem(nodes@, i as int);
            }
            let v = self.eval_value(&nodes[i]);
            r.push(v);
            proof {
                assert(nodes@.take(i + 1).subrange(0, i as int) =~= nodes@.take(i as int));
                assert(nodes@.take(i + 1)[i as int] == nodes@[i as int]);
                assert(views_of(r@) =~= eval_nodes(
                    nodes@.take(i + 1),
                    self.labels(),
                    self.symbols(),
                ));
            }
            i = i + 1;
        }
        proof {
            assert(nodes@.take(nodes@.len() as int) =~= nodes@);
        }
        r
    }
}


/// Evaluation yields one scalar per expression.
pub proof fn lemma_eval_nodes_len(ns: Seq<Node>, la: Seq<Seq<u8>>, sy: Seq<Seq<u8>>)
    ensures
        eval_nodes(ns, la, sy).len() == ns.len(),
    decreases ns.len(),
{
    if ns.len() > 0 {
        lemma_eval_nodes_len(ns.subrange(0, ns.len() - 1), la, sy);
    }
}

/// Evaluation distributes over concatenation of forests.
pub proof fn lemma_eval_nodes_concat(
    a: Seq<Node>,
    b: Seq<Node>,
    la: Seq<Seq<u8>>,
    sy: Seq<Seq<u8>>,
)
    ensures
        eval_nodes(a + b, la, sy) == eval_nodes(a, la, sy) + eval_nodes(b, la, sy),
    decreases b.len(),
{
    if b.len() == 0 {
        assert(a + b =~= a);
        assert(eval_nodes(a, la, sy) + eval_nodes(b, la, sy) =~= eval_nodes(a, la, sy));
    } else {
        let head = b.subrange(0, b.len() - 1);
        lemma_eval_nodes_concat(a, head, la, sy);
        let ab = a + b;
        assert(ab.subrange(0, ab.len() - 1) =~= a + head);
        assert(ab[ab.len() - 1] == b[b.len() - 1]);
        assert(eval_nodes(a, la, sy) + eval_nodes(b, la, sy) =~= (eval_nodes(a, la, sy)
            + eval_nodes(head, la, sy)).push(eval_node(b[b.len() - 1], la, sy)));
    }
}

} // verus!
