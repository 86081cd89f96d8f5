use vstd::prelude::*;
use crate::blocks::is_block_split;
use crate::constant_folding::{fold_blocks, fold_constants};
use crate::controlflow::ControlFlowGraph;
use crate::dead_code_elimination::{dce_blocks, eliminate_dead_code};
use crate::nodes::{body_v, duplicate_body, FunctionDef, Ssa, ToplevelItem};
use crate::phi_elim::{eliminate_phi_body, eliminate_phi_spec};

verus! {

/// An optimisation pass over a function body.
#[derive(Debug, Clone, Copy, PartialEq, Eq, Structural)]
pub enum Pass {
    FoldConstants,
    EliminateDeadCode,
    EliminatePhi,
}

/// `output` is what pass `p` makes of `input`.
pub open spec fn pass_result(p: Pass, input: Seq<Ssa>, output: Seq<Ssa>) -> bool {
    match p {
        Pass::FoldConstants => exists|bs: Seq<(usize, usize)>|
            is_block_split(input, bs) && body_v(output) == fold_blocks(body_v(input), bs),
        Pass::EliminateDeadCode => exists|g: ControlFlowGraph|
            g.graph_of(input) && body_v(output) == dce_blocks(g.blocks_spec()),
        Pass::EliminatePhi => body_v(output) == eliminate_phi_spec(body_v(input)),
    }
}

/// `output` is what running `ps` in order makes of `input`.
pub open spec fn passes_result(ps: Seq<Pass>, input: Seq<Ssa>, output: Seq<Ssa>) -> bool
    decreases ps.len(),
{
    if ps.len() == 0 {
        body_v(output) == body_v(input)
    } else {
        exists|mid: Seq<Ssa>| passes_result(ps.drop_last(), input, mid) && pass_result(ps.last(), mid, output)
    }
}

/// Runs one pass.
pub fn run_pass(p: Pass, ir: &[Ssa]) -> (r: Vec<Ssa>)
    ensures
        pass_result(p, ir@, r@),
{
    match p {
        Pass::FoldConstants => fold_constants(ir),
        Pass::EliminateDeadCode => eliminate_dead_code(ir),
        Pass::EliminatePhi => eliminate_phi_body(ir),
    }
}

/// A fixed pipeline of passes.
pub struct OptimisationLevel {
    passes: Vec<Pass>,
}

/// The passes of the first optimisation level, in order; φ-elimination comes last.
pub open spec fn o1_passes() -> Seq<Pass> {
    seq![Pass::FoldConstants, Pass::EliminateDeadCode, Pass::EliminatePhi]
}

impl OptimisationLevel {
    pub closed spec fn passes_spec(&self) -> Seq<Pass> {
        self.passes@
    }

    /// Constant folding, then dead-code elimination, then φ-elimination.
    pub fn o1() -> (r: OptimisationLevel)
        ensures
            r.passes_spec() == o1_passes(),
    {
        let r = OptimisationLevel { passes: vec![Pass::FoldConstants, Pass::EliminateDeadCode, Pass::EliminatePhi] };
        proof {
            assert(r.passes@ =~= o1_passes());
        }
        r
    }

    /// Runs the passes in order.
    pub fn optimize(&self, ir: &[Ssa]) -> (r: Vec<Ssa>)
        ensures
            passes_result(self.passes_spec(), ir@, r@),
    {
        let mut current = duplicate_body(ir);
        let mut i: usize = 0;
        proof {
            assert(self.passes@.subrange(0, 0).len() == 0);
        }
        while i < self.passes.len()
            invariant
                i <= self.passes@.len(),
                passes_result(self.passes@.subrange(0, i as int), ir@, current@),
            decreases self.passes@.len() - i,
        {
            let next = run_pass(self.passes[i], &current);
            proof {
                let ps = self.passes@.subrange(0, i + 1);
                assert(ps.drop_last() =~= self.passes@.subrange(0, i as int));
                assert(ps.last() == self.passes@[i as int]);
                assert(passes_result(ps.drop_last(), ir@, current@) && pass_result(ps.last(), current@, next@));
            }
            current = next;
            i += 1;
        }
        proof {
            assert(self.passes@.subrange(0, self.passes@.len() as int) =~= self.passes@);
        }
        current
    }
}

/// What the first optimisation level makes of a translation unit: each function body
/// optimised, every other item unchanged.
pub open spec fn o1_item(input: ToplevelItem, output: ToplevelItem) -> bool {
    match (input, output) {
        (ToplevelItem::Function(f), ToplevelItem::Function(g)) => {
            &&& g.name@ == f.name@
            &&& g.return_width == f.return_width
            &&& g.parameters@.len() == f.parameters@.len()
            &&& forall|i: int| 0 <= i < f.parameters@.len() ==> #[trigger] g.parameters@[i].0@ == f.parameters@[i].0@
                && g.parameters@[i].1 == f.parameters@[i].1
            &&& passes_result(o1_passes(), f.body@, g.body@)
        },
        (ToplevelItem::Declaration(d), ToplevelItem::Declaration(e)) => {
            &&& e->Function_storage_class == d->Function_storage_class
            &&& e->Function_name@ == d->Function_name@
            &&& e->Function_return_width == d->Function_return_width
            &&& e->Function_parameters@ == d->Function_parameters@
        },
        _ => false,
    }
}

fn copy_parameters(ps: &Vec<(String, crate::common::Width)>) -> (r: Vec<(String, crate::common::Width)>)
    ensures
        r@ == ps@,
{
    let mut out: Vec<(String, crate::common::Width)> = Vec::new();
    let mut i: usize = 0;
    while i < ps.len()
        invariant
            i <= ps@.len(),
            out@ == ps@.subrange(0, i as int),
        decreases ps@.len() - i,
    {
        out.push((ps[i].0.clone(), ps[i].1));
        i += 1;
        proof {
            assert(out@ =~= ps@.subrange(0, i as int));
        }
    }
    proof {
        assert(out@ =~= ps@);
    }
    out
}

fn copy_widths(ps: &Vec<crate::common::Width>) -> (r: Vec<crate::common::Width>)
    ensures
        r@ == ps@,
{
    let mut out: Vec<crate::common::Width> = Vec::new();
    let mut i: usize = 0;
    while i < ps.len()
        invariant
            i <= ps@.len(),
            out@ == ps@.subrange(0, i as int),
        decreases ps@.len() - i,
    {
        out.push(ps[i]);
        i += 1;
        proof {
            assert(out@ =~= ps@.subrange(0, i as int));
        }
    }
    proof {
        assert(out@ =~= ps@);
    }
    out
}

/// Runs the first optimisation level on every function of a translation unit.
pub fn run_o1(unit: &[ToplevelItem]) -> (r: Vec<ToplevelItem>)
    ensures
        r@.len() == unit@.len(),
        forall|i: int| 0 <= i < unit@.len() ==> o1_item(unit@[i], #[trigger] r@[i]),
{
    let o1 = OptimisationLevel::o1();
    let mut out: Vec<ToplevelItem> = Vec::new();
    let mut i: usize = 0;
    while i < unit.len()
        invariant
            i <= unit@.len(),
            out@.len() == i,
            o1.passes_spec() == o1_passes(),
            forall|t: int| 0 <= t < i ==> o1_item(unit@[t], #[trigger] out@[t]),
        decreases unit@.len() - i,
    {
        let item = match &unit[i] {
            ToplevelItem::Function(f) => ToplevelItem::Function(FunctionDef {
                name: f.name.clone(),
                return_width: f.return_width,
                parameters: copy_parameters(&f.parameters),
                body: o1.optimize(&f.body),
            }),
            ToplevelItem::Declaration(crate::nodes::ToplevelDeclaration::Function { storage_class, name, return_width, parameters }) => {
                ToplevelItem::Declaration(crate::nodes::ToplevelDeclaration::Function {
                    storage_class: *storage_class,
                    name: name.clone(),
                    return_width: *return_width,
                    parameters: copy_widths(parameters),
                })
            },
        };
        out.push(item);
        i += 1;
    }
    out
}

} // verus!
