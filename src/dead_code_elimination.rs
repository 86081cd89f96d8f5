use vstd::prelude::*;
use crate::controlflow::{BasicBlock, ControlFlowGraph};
use crate::dataflow::{flows_to, DataFlowGraph};
use crate::nodes::{addrs_v, body_v, extend_body, AddrV, Address, Ssa, SsaV};

verus! {

/// Statement `j` of block `b` is an assignment whose value nothing reads: not in
/// the block, and, for a source variable, not a φ of a successor either.
pub open spec fn is_dead(b: Seq<SsaV>, used: Seq<AddrV>, j: int) -> bool {
    &&& b[j] is Assign
    &&& !exists|u: int| flows_to(b, j, u)
    &&& (b[j]->Assign_dest is Temp || (b[j]->Assign_dest is Source && !used.contains(b[j]->Assign_dest)))
}

/// The first `n` statements of `b` with the dead ones dropped.
pub open spec fn dce_spec(b: Seq<SsaV>, used: Seq<AddrV>, n: int) -> Seq<SsaV>
    decreases n,
{
    if n <= 0 {
        Seq::empty()
    } else if is_dead(b, used, n - 1) {
        dce_spec(b, used, n - 1)
    } else {
        dce_spec(b, used, n - 1).push(b[n - 1])
    }
}

/// Dead-code elimination of each block in turn, concatenated.
pub open spec fn dce_blocks(bl: Seq<BasicBlock>) -> Seq<SsaV>
    decreases bl.len(),
{
    if bl.len() == 0 {
        Seq::empty()
    } else {
        let b = bl.last();
        dce_blocks(bl.drop_last()) + dce_spec(body_v(b.ir@), addrs_v(b.used_variables@), b.ir@.len() as int)
    }
}

fn is_used(used: &Vec<Address>, a: &Address) -> (r: bool)
    ensures
        r == addrs_v(used@).contains(a.deep_view()),
{
    let mut i: usize = 0;
    while i < used.len()
        invariant
            i <= used@.len(),
            forall|t: int| 0 <= t < i ==> addrs_v(used@)[t] != a.deep_view(),
        decreases used@.len() - i,
    {
        if used[i].same(a) {
            proof {
                assert(addrs_v(used@)[i as int] == a.deep_view());
            }
            return true;
        }
        i += 1;
    }
    false
}

/// Drops the dead assignments of one block.
pub fn eliminate_dead_code_inside_block(block: &BasicBlock) -> (r: Vec<Ssa>)
    ensures
        body_v(r@) == dce_spec(body_v(block.ir@), addrs_v(block.used_variables@), block.ir@.len() as int),
{
    let dataflow = DataFlowGraph::from_basic_block(&block.ir);
    let ghost b = body_v(block.ir@);
    let ghost used = addrs_v(block.used_variables@);
    let mut out: Vec<Ssa> = Vec::new();
    let mut i: usize = 0;
    while i < block.ir.len()
        invariant
            i <= block.ir@.len(),
            dataflow.wf(),
            dataflow.block() == b,
            b == body_v(block.ir@),
            used == addrs_v(block.used_variables@),
            body_v(out@) == dce_spec(b, used, i as int),
        decreases block.ir@.len() - i,
    {
        let instr = &block.ir[i];
        proof {
            assert(b[i as int] == instr.deep_view());
        }
        let dead = match instr {
            Ssa::Assignment { dest, .. } => {
                let users = dataflow.has_users(i);
                match dest {
                    Address::CompilerTemp(_) => !users,
                    Address::Source(..) => !users && !is_used(&block.used_variables, dest),
                    _ => false,
                }
            },
            _ => false,
        };
        if !dead {
            let d = instr.duplicate();
            let ghost prev = out@;
            out.push(d);
            proof {
                assert(body_v(out@) =~= body_v(prev).push(d.deep_view()));
            }
        }
        i += 1;
    }
    out
}

/// Dead-code elimination over a whole function body.
pub fn eliminate_dead_code(body: &[Ssa]) -> (r: Vec<Ssa>)
    ensures
        exists|g: ControlFlowGraph| g.graph_of(body@) && body_v(r@) == dce_blocks(g.blocks_spec()),
{
    let control_flow = ControlFlowGraph::new(body);
    let blocks = control_flow.blocks();
    let mut out: Vec<Ssa> = Vec::new();
    let mut k: usize = 0;
    while k < blocks.len()
        invariant
            k <= blocks@.len(),
            blocks@ == control_flow.blocks_spec(),
            body_v(out@) == dce_blocks(blocks@.subrange(0, k as int)),
        decreases blocks@.len() - k,
    {
        let part = eliminate_dead_code_inside_block(&blocks[k]);
        extend_body(&mut out, &part);
        proof {
            let bk = blocks@.subrange(0, k + 1);
            assert(bk.drop_last() =~= blocks@.subrange(0, k as int));
            assert(bk.last() == blocks@[k as int]);
        }
        k += 1;
    }
    proof {
        assert(blocks@.subrange(0, blocks@.len() as int) =~= blocks@);
    }
    out
}

} // verus!
