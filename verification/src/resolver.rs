//! The resolver: walks the expression tree from the submission root,
//! flattens every cell of every grid, evaluates each expression against
//! its grid's label/symbol environment, and assembles the response tree.
//!
//! The response of a grid holds one scalar result per expression, in
//! row-major cell order. Address references resolve against the whole
//! grid's flattened encoding.

use vstd::prelude::*;
use crate::ast::{Node, Response, ResultsData, ResultsSheet, SpreadsheetResponseNode,
    EvaluatorResponseNode};
use crate::eval::{Interpreter, eval_nodes, lemma_eval_nodes_concat, strip_quotes,
    strip_quotes_vec};
use crate::flatten::cell_flats;
use crate::text::{views_of, copy_bytes, append_vecs};
use crate::words::{data_label, data_label_vec};

verus! {

/// All cell expressions of a grid's rows, in row-major order.
pub open spec fn grid_exprs(ns: Seq<Node>) -> Seq<Node>
    decreases ns,
{
    if ns.len() == 0 {
        Seq::empty()
    } else {
        grid_exprs(ns.subrange(0, ns.len() - 1)) + (match ns[ns.len() - 1] {
            Node::CellSequence(c) => c.values@,
            _ => Seq::empty(),
        })
    }
}

/// The concatenated label halves of a list of flattened cells.
pub open spec fn concat_firsts(fl: Seq<(Seq<Seq<u8>>, Seq<Seq<u8>>)>) -> Seq<Seq<u8>>
    decreases fl.len(),
{
    if fl.len() == 0 {
        Seq::empty()
    } else {
        concat_firsts(fl.subrange(0, fl.len() - 1)) + fl[fl.len() - 1].0
    }
}

/// The concatenated symbol halves of a list of flattened cells.
pub open spec fn concat_seconds(fl: Seq<(Seq<Seq<u8>>, Seq<Seq<u8>>)>) -> Seq<Seq<u8>>
    decreases fl.len(),
{
    if fl.len() == 0 {
        Seq::empty()
    } else {
        concat_seconds(fl.subrange(0, fl.len() - 1)) + fl[fl.len() - 1].1
    }
}

/// The label environment of a grid: the flattened labels of all its
/// cells, in order.
pub open spec fn grid_labels(ns: Seq<Node>) -> Seq<Seq<u8>> {
    concat_firsts(cell_flats(ns))
}

/// The symbol environment of a grid, index-aligned with its labels.
pub open spec fn grid_syms(ns: Seq<Node>) -> Seq<Seq<u8>> {
    concat_seconds(cell_flats(ns))
}

/// The scalars of a grid's response: quote characters are removed from
/// each rendered value.
pub open spec fn strip_all(vals: Seq<Seq<u8>>) -> Seq<Seq<u8>> {
    Seq::new(vals.len(), |i: int| strip_quotes(vals[i]))
}

/// The evaluated results of a grid: one scalar per expression, resolved
/// against the grid's own environment, rendered with quote characters
/// removed.
pub open spec fn grid_model(ns: Seq<Node>) -> Seq<Seq<u8>> {
    strip_all(eval_nodes(grid_exprs(ns), grid_labels(ns), grid_syms(ns)))
}

/// The results of the first grid in a sheet's child list, if any.
pub open spec fn resolve_model(ns: Seq<Node>) -> Option<Seq<Seq<u8>>>
    decreases ns.len(),
{
    if ns.len() == 0 {
        None
    } else {
        match ns[0] {
            Node::DataCells(d) => Some(grid_model(d.values@)),
            _ => resolve_model(ns.subrange(1, ns.len() as int)),
        }
    }
}

/// One model entry per sheet node: its identifier and its grid results.
pub open spec fn sheet_models(ns: Seq<Node>) -> Seq<(Seq<u8>, Option<Seq<Seq<u8>>>)>
    decreases ns,
{
    if ns.len() == 0 {
        Seq::empty()
    } else {
        sheet_models(ns.subrange(0, ns.len() - 1)) + (match ns[ns.len() - 1] {
            Node::Sheet(s) => seq![(s.id.literal@, resolve_model(s.values@))],
            _ => Seq::empty(),
        })
    }
}

/// One model entry per spreadsheet node: its sheets' models.
pub open spec fn spread_models(ns: Seq<Node>) -> Seq<Seq<(Seq<u8>, Option<Seq<Seq<u8>>>)>>
    decreases ns,
{
    if ns.len() == 0 {
        Seq::empty()
    } else {
        spread_models(ns.subrange(0, ns.len() - 1)) + (match ns[ns.len() - 1] {
            Node::Spreadsheet(s) => seq![sheet_models(s.values@)],
            _ => Seq::empty(),
        })
    }
}

/// The full response model of a submission root node.
pub open spec fn submission_model(n: Node) -> Option<Seq<Seq<(Seq<u8>, Option<Seq<Seq<u8>>>)>>> {
    match n {
        Node::Evaluator(e) => Some(spread_models(e.values@)),
        _ => None,
    }
}

/// A grid response carries exactly the modeled cells.
pub open spec fn grid_resp_matches(r: Option<Response>, m: Option<Seq<Seq<u8>>>) -> bool {
    match r {
        Some(resp) => match resp {
            Response::DataCells(d) => m is Some && d.data@ == data_label() && views_of(d.cells@)
                == m->0,
            _ => false,
        },
        None => m is None,
    }
}

/// A sheet response carries the modeled identifier and grid.
pub open spec fn sheet_entry_matches(r: Option<Response>, m: (Seq<u8>, Option<Seq<Seq<u8>>>)) -> bool {
    match r {
        Some(resp) => match resp {
            Response::Sheet(s) => s.id@ == m.0 && grid_resp_matches(*s.values, m.1),
            _ => false,
        },
        None => false,
    }
}

/// A sheet-list response carries one matching entry per modeled sheet.
pub open spec fn sheet_list_matches(
    r: Option<Response>,
    m: Seq<(Seq<u8>, Option<Seq<Seq<u8>>>)>,
) -> bool {
    match r {
        Some(resp) => match resp {
            Response::Spreadsheet(sp) => sp.values@.len() == m.len() && forall|i: int|
                0 <= i < m.len() ==> sheet_entry_matches(*(#[trigger] sp.values@[i]), m[i]),
            _ => false,
        },
        None => false,
    }
}

/// A spreadsheet-list response carries one matching sheet list per
/// modeled spreadsheet.
pub open spec fn spread_list_matches(
    r: Option<Response>,
    m: Seq<Seq<(Seq<u8>, Option<Seq<Seq<u8>>>)>>,
) -> bool {
    match r {
        Some(resp) => match resp {
            Response::Spreadsheet(sp) => sp.values@.len() == m.len() && forall|i: int|
                0 <= i < m.len() ==> sheet_list_matches(*(#[trigger] sp.values@[i]), m[i]),
            _ => false,
        },
        None => false,
    }
}

/// A submission response matches the submission model.
pub open spec fn submission_matches(
    r: Option<Response>,
    m: Option<Seq<Seq<(Seq<u8>, Option<Seq<Seq<u8>>>)>>>,
) -> bool {
    match r {
        Some(resp) => match resp {
            Response::Evaluator(e) => m is Some && spread_list_matches(*e.values, m->0),
            _ => false,
        },
        None => m is None,
    }
}

impl Node {
    /// Evaluates the first grid among `node`, building its results: the
    /// cells are flattened into one grid-wide environment, and every
    /// expression is evaluated against it, in row-major order.
    pub fn resolve(&self, node: &Vec<Node>) -> (r: Box<Option<Response>>)
        ensures
            grid_resp_matches(*r, resolve_model(node@)),
    {
        let mut i: usize = 0;
        proof {
            assert(node@.subrange(0, node@.len() as int) =~= node@);
        }
        while i < node.len()
            invariant
                0 <= i <= node@.len(),
                resolve_model(node@) == resolve_model(node@.subrange(i as int, node@.len() as int)),
            decreases node@.len() - i,
        {
            match &node[i] {
                Node::DataCells(d) => {
                    let r = self.resolve_grid(d);
                    proof {
                        let tail = node@.subrange(i as int, node@.len() as int);
                        assert(tail[0] == node@[i as int]);
                    }
                    return r;
                }
                _ => {}
            }
            proof {
                let tail = node@.subrange(i as int, node@.len() as int);
                let tail2 = node@.subrange(i + 1, node@.len() as int);
                assert(tail[0] == node@[i as int]);
                assert(tail.subrange(1, tail.len() as int) =~= tail2);
            }
            i = i + 1;
        }
        proof {
            assert(node@.subrange(node@.len() as int, node@.len() as int) =~= Seq::<Node>::empty());
        }
        Box::new(None)
    }

    /// Evaluates one grid node into its cell results.
    fn resolve_grid(&self, d: &crate::ast::DataNode) -> (r: Box<Option<Response>>)
        ensures
            grid_resp_matches(*r, Some(grid_model(d.values@))),
    {
        let ghost fl = cell_flats(d.values@);
        let mems = self.interpreter(&d.values);
        let mut mem1: Vec<Vec<u8>> = Vec::new();
        let mut val1: Vec<Vec<u8>> = Vec::new();
        let mut k: usize = 0;
        proof {
            assert(views_of(mem1@) =~= concat_firsts(fl.take(0)));
            assert(views_of(val1@) =~= concat_seconds(fl.take(0)));
        }
        while k < mems.len()
            invariant
                0 <= k <= mems@.len(),
                mems@.len() == fl.len(),
                forall|j: int| 0 <= j < fl.len() ==> views_of(#[trigger] mems@[j].mem@)
                    == fl[j].0 && views_of(mems@[j].val@) == fl[j].1,
                views_of(mem1@) == concat_firsts(fl.take(k as int)),
                views_of(val1@) == concat_seconds(fl.take(k as int)),
            decreases mems@.len() - k,
        {
            append_vecs(&mut mem1, &mems[k].mem);
            append_vecs(&mut val1, &mems[k].val);
            proof {
                assert(fl.take(k + 1).subrange(0, k as int) =~= fl.take(k as int));
                assert(fl.take(k + 1)[k as int] == fl[k as int]);
                assert(views_of(mem1@) =~= concat_firsts(fl.take(k + 1)));
                assert(views_of(val1@) =~= concat_seconds(fl.take(k + 1)));
            }
            k = k + 1;
        }
        proof {
            assert(fl.take(fl.len() as int) =~= fl);
        }
        let ghost gl = grid_labels(d.values@);
        let ghost gs = grid_syms(d.values@);
        proof {
            assert(views_of(mem1@) == gl);
            assert(views_of(val1@) == gs);
        }
        let interp = Interpreter::new(mem1, val1);
        let mut cells: Vec<Vec<u8>> = Vec::new();
        let mut i: usize = 0;
        proof {
            assert(views_of(cells@) =~= eval_nodes(grid_exprs(d.values@.take(0)), gl, gs));
        }
        while i < d.values.len()
            invariant
                0 <= i <= d.values@.len(),
                interp.labels() == gl,
                interp.symbols() == gs,
                views_of(cells@) == eval_nodes(grid_exprs(d.values@.take(i as int)), gl, gs),
            decreases d.values@.len() - i,
        {
            proof {
                assert(d.values@.take(i + 1).subrange(0, i as int) =~= d.values@.take(i as int));
                assert(d.values@.take(i + 1)[i as int] == d.values@[i as int]);
            }
            match &d.values[i] {
                Node::CellSequence(c) => {
                    let rs = interp.exec(&c.values);
                    append_vecs(&mut cells, &rs);
                    proof {
                        lemma_eval_nodes_concat(
                            grid_exprs(d.values@.take(i as int)),
                            c.values@,
                            gl,
                            gs,
                        );
                        assert(grid_exprs(d.values@.take(i + 1)) =~= grid_exprs(
                            d.values@.take(i as int),
                        ) + c.values@);
                    }
                }
                _ => {
                    proof {
                        assert(grid_exprs(d.values@.take(i + 1)) =~= grid_exprs(
                            d.values@.take(i as int),
                        ) + Seq::<Node>::empty());
                        lemma_eval_nodes_concat(
                            grid_exprs(d.values@.take(i as int)),
                            Seq::<Node>::empty(),
                            gl,
                            gs,
                        );
                        assert(eval_nodes(Seq::<Node>::empty(), gl, gs) =~= Seq::<Seq<u8>>::empty());
                        assert(views_of(cells@) =~= eval_nodes(
                            grid_exprs(d.values@.take(i as int)) + Seq::<Node>::empty(),
                            gl,
                            gs,
                        ));
                    }
                }
            }
            i = i + 1;
        }
        proof {
            assert(d.values@.take(d.values@.len() as int) =~= d.values@);
        }
        let mut rendered: Vec<Vec<u8>> = Vec::new();
        let mut k2: usize = 0;
        while k2 < cells.len()
            invariant
                0 <= k2 <= cells@.len(),
                rendered@.len() == k2,
                forall|j: int| 0 <= j < k2 ==> #[trigger] rendered@[j]@ == strip_quotes(
                    cells@[j]@,
                ),
            decreases cells@.len() - k2,
        {
            let v = strip_quotes_vec(&cells[k2]);
            rendered.push(v);
            k2 = k2 + 1;
        }
        proof {
            assert(views_of(rendered@) =~= strip_all(views_of(cells@)));
        }
        let data = ResultsData { data: data_label_vec(), cells: rendered };
        Box::new(Some(Response::DataCells(Box::new(data))))
    }

    /// Builds one sheet response per sheet node, each holding the
    /// sheet's identifier and its evaluated grid.
    pub fn sheet_resolver(&self, node: &Vec<Node>) -> (r: Box<Option<Response>>)
        ensures
            sheet_list_matches(*r, sheet_models(node@)),
    {
        let mut sheets: Vec<Box<Option<Response>>> = Vec::new();
        let mut i: usize = 0;
        while i < node.len()
            invariant
                0 <= i <= node@.len(),
                sheets@.len() == sheet_models(node@.take(i as int)).len(),
                forall|j: int| 0 <= j < sheets@.len() ==> sheet_entry_matches(
                    *(#[trigger] sheets@[j]),
                    sheet_models(node@.take(i as int))[j],
                ),
            decreases node@.len() - i,
        {
            proof {
                assert(node@.take(i + 1).subrange(0, i as int) =~= node@.take(i as int));
                assert(node@.take(i + 1)[i as int] == node@[i as int]);
            }
            match &node[i] {
                Node::Sheet(s) => {
                    let grid = self.resolve(&s.values);
                    let entry = ResultsSheet { id: copy_bytes(&s.id.literal), values: grid };
                    sheets.push(Box::new(Some(Response::Sheet(Box::new(entry)))));
                }
                _ => {}
            }
            i = i + 1;
        }
        proof {
            assert(node@.take(node@.len() as int) =~= node@);
        }
        let wrap = SpreadsheetResponseNode { values: sheets };
        Box::new(Some(Response::Spreadsheet(Box::new(wrap))))
    }

    /// Builds one sheet-list response per spreadsheet node.
    pub fn spreadsheet_resolver(&self, node: &Vec<Node>) -> (r: Box<Option<Response>>)
        ensures
            spread_list_matches(*r, spread_models(node@)),
    {
        let mut sheets: Vec<Box<Option<Response>>> = Vec::new();
        let mut i: usize = 0;
        while i < node.len()
            invariant
                0 <= i <= node@.len(),
                sheets@.len() == spread_models(node@.take(i as int)).len(),
                forall|j: int| 0 <= j < sheets@.len() ==> sheet_list_matches(
                    *(#[trigger] sheets@[j]),
                    spread_models(node@.take(i as int))[j],
                ),
            decreases node@.len() - i,
        {
            proof {
                assert(node@.take(i + 1).subrange(0, i as int) =~= node@.take(i as int));
                assert(node@.take(i + 1)[i as int] == node@[i as int]);
            }
            match &node[i] {
                Node::Spreadsheet(s) => {
                    let inner = self.sheet_resolver(&s.values);
                    sheets.push(inner);
                }
                _ => {}
            }
            i = i + 1;
        }
        proof {
            assert(node@.take(node@.len() as int) =~= node@);
        }
        let wrap = SpreadsheetResponseNode { values: sheets };
        Box::new(Some(Response::Spreadsheet(Box::new(wrap))))
    }

    /// Resolves a whole submission: evaluates every cell of every sheet
    /// of every spreadsheet and assembles the response tree.
    pub fn resolver(&self) -> (r: Box<Option<Response>>)
        ensures
            submission_matches(*r, submission_model(*self)),
    {
        match self {
            Node::Evaluator(e) => {
                let inner = self.spreadsheet_resolver(&e.values);
                let wrap = EvaluatorResponseNode { values: inner };
                Box::new(Some(Response::Evaluator(Box::new(wrap))))
            }
            _ => Box::new(None),
        }
    }
}

} // verus!
