use vstd::prelude::*;
use crate::blocks::{block_bounds, is_block_split, lemma_bound_within};
use crate::nodes::{addrs_v, body_v, duplicate_body, AddrV, Address, Label, LabelV, Ssa, SsaV};

verus! {

broadcast use vstd::seq_lib::lemma_seq_contains_after_push;

/// A basic block of the control-flow graph.
pub struct BasicBlock {
    /// The label the block starts with, if it starts with one.
    pub label: Option<Label>,
    pub ir: Vec<Ssa>,
    /// Values of this block that a φ of some block takes as flowing from here.
    pub used_variables: Vec<Address>,
}

/// `a` is merged by some φ of `body` as the value coming from label `l`.
pub open spec fn phi_uses(body: Seq<SsaV>, l: LabelV, a: AddrV) -> bool {
    phi_uses_upto(body, l, a, body.len() as int)
}

/// `a` is merged by some φ among the first `n` statements of `body` as the value
/// coming from label `l`.
pub open spec fn phi_uses_upto(body: Seq<SsaV>, l: LabelV, a: AddrV, n: int) -> bool {
    exists|j: int, e: int|
        0 <= j < n && #[trigger] body[j] is Phi && 0 <= e < body[j]->Phi_merging.len()
            && #[trigger] body[j]->Phi_merging[e] == (a, l)
}

proof fn lemma_upto_step(body: Seq<SsaV>, l: LabelV, a: AddrV, n: int)
    requires
        0 <= n < body.len(),
    ensures
        phi_uses_upto(body, l, a, n + 1) <==> (phi_uses_upto(body, l, a, n) || (body[n] is Phi && exists|e: int|
            0 <= e < body[n]->Phi_merging.len() && #[trigger] body[n]->Phi_merging[e] == (a, l))),
{
    if phi_uses_upto(body, l, a, n + 1) {
        let (j, e) = choose|j: int, e: int|
            0 <= j < n + 1 && #[trigger] body[j] is Phi && 0 <= e < body[j]->Phi_merging.len()
                && #[trigger] body[j]->Phi_merging[e] == (a, l);
        if j < n {
            assert(phi_uses_upto(body, l, a, n));
        }
    }
    if phi_uses_upto(body, l, a, n) {
        let (j, e) = choose|j: int, e: int|
            0 <= j < n && #[trigger] body[j] is Phi && 0 <= e < body[j]->Phi_merging.len()
                && #[trigger] body[j]->Phi_merging[e] == (a, l);
        assert(phi_uses_upto(body, l, a, n + 1));
    }
    if body[n] is Phi && exists|e: int| 0 <= e < body[n]->Phi_merging.len() && #[trigger] body[n]->Phi_merging[e] == (a, l) {
        let e = choose|e: int| 0 <= e < body[n]->Phi_merging.len() && #[trigger] body[n]->Phi_merging[e] == (a, l);
        assert(phi_uses_upto(body, l, a, n + 1));
    }
}

/// Some jump or branch of block `b` targets label `l`.
pub open spec fn jumps_to(b: Seq<SsaV>, l: LabelV) -> bool {
    exists|j: int|
        0 <= j < b.len() && (#[trigger] b[j] == SsaV::Jump(l) || (b[j] is Branch && (b[j]->Branch_true_target == l
            || b[j]->Branch_false_target == l)))
}

/// Control can run off the end of block `b`: its last statement that is not a
/// label is no jump, branch or return.
pub open spec fn falls_through(b: Seq<SsaV>) -> bool {
    match last_non_label(b) {
        Some(s) => !s.is_terminator(),
        None => true,
    }
}

/// The last statement of `b` that is not a label.
pub open spec fn last_non_label(b: Seq<SsaV>) -> Option<SsaV>
    decreases b.len(),
{
    if b.len() == 0 {
        None
    } else if b.last() is Label {
        last_non_label(b.drop_last())
    } else {
        Some(b.last())
    }
}

pub open spec fn opt_label_v(l: Option<Label>) -> Option<LabelV> {
    match l {
        Some(x) => Some(x.deep_view()),
        None => None,
    }
}

/// Control can pass from block `b` to a block labelled `lm`, which follows `b`
/// directly when `next` holds.
pub open spec fn is_edge(b: Seq<SsaV>, lm: Option<LabelV>, next: bool) -> bool {
    (lm matches Some(l) && jumps_to(b, l)) || (next && falls_through(b))
}

/// Control-flow graph of a function body.
pub struct ControlFlowGraph {
    blocks: Vec<BasicBlock>,
    control_adjacency: Vec<Vec<usize>>,
}

impl ControlFlowGraph {
    pub closed spec fn blocks_spec(&self) -> Seq<BasicBlock> {
        self.blocks@
    }

    pub closed spec fn successors(&self) -> Seq<Seq<usize>> {
        self.control_adjacency@.map_values(|v: Vec<usize>| v@)
    }

    /// The graph of `body`: its blocks in order, each with its leading label, the
    /// values φ statements take from it, and its successors.
    pub open spec fn graph_of(&self, body: Seq<Ssa>) -> bool {
        let bl = self.blocks_spec();
        &&& exists|bs: Seq<(usize, usize)>|
            {
                &&& is_block_split(body, bs)
                &&& bl.len() == bs.len()
                &&& forall|k: int|
                    0 <= k < bs.len() ==> body_v((#[trigger] bl[k]).ir@) == body_v(body).subrange(
                        bs[k].0 as int,
                        bs[k].1 as int,
                    )
            }
        &&& forall|k: int|
            0 <= k < bl.len() ==> ((#[trigger] bl[k]).label is Some <==> (bl[k].ir@.len() > 0
                && bl[k].ir@[0] is Label))
        &&& forall|k: int|
            0 <= k < bl.len() && (#[trigger] bl[k]).label is Some ==> bl[k].ir@[0].deep_view() == SsaV::Label(
                bl[k].label->0.deep_view(),
            )
        &&& forall|k: int, a: AddrV|
            0 <= k < bl.len() ==> (#[trigger] addrs_v(bl[k].used_variables@).contains(a)
                <==> (bl[k].label matches Some(l) && phi_uses(body_v(body), l.deep_view(), a)))
        &&& self.successors().len() == bl.len()
        &&& forall|k: int, m: usize|
            0 <= k < bl.len() ==> (#[trigger] self.successors()[k].contains(m) <==> (m < bl.len() && is_edge(
                body_v(bl[k].ir@),
                opt_label_v(bl[m as int].label),
                m == k + 1,
            )))
    }

    pub fn new(body: &[Ssa]) -> (r: ControlFlowGraph)
        ensures
            r.graph_of(body@),
    {
        let bounds = block_bounds(body);
        let mut blocks: Vec<BasicBlock> = Vec::new();
        let mut k: usize = 0;
        while k < bounds.len()
            invariant
                is_block_split(body@, bounds@),
                k <= bounds@.len(),
                blocks@.len() == k,
                forall|t: int|
                    0 <= t < k ==> body_v((#[trigger] blocks@[t]).ir@) == body_v(body@).subrange(
                        bounds@[t].0 as int,
                        bounds@[t].1 as int,
                    ),
                forall|t: int|
                    0 <= t < k ==> ((#[trigger] blocks@[t]).label is Some <==> (blocks@[t].ir@.len() > 0
                        && blocks@[t].ir@[0] is Label)),
                forall|t: int|
                    0 <= t < k && (#[trigger] blocks@[t]).label is Some ==> blocks@[t].ir@[0].deep_view() == SsaV::Label(
                        blocks@[t].label->0.deep_view(),
                    ),
                forall|t: int, a: AddrV|
                    0 <= t < k ==> (#[trigger] addrs_v(blocks@[t].used_variables@).contains(a)
                        <==> (blocks@[t].label matches Some(l) && phi_uses(body_v(body@), l.deep_view(), a))),
            decreases bounds@.len() - k,
        {
            let (s, e) = bounds[k];
            proof {
                lemma_bound_within(body@, bounds@, k as int);
                assert(body_v(body@.subrange(s as int, e as int)) =~= body_v(body@).subrange(s as int, e as int));
            }
            let ir = duplicate_body(&body[s..e]);
            let label = match &body[s] {
                Ssa::Label(l) => Some(l.duplicate()),
                _ => None,
            };
            proof {
                assert(ir@.len() == e - s);
                assert(body_v(ir@)[0] == body_v(body@)[s as int]);
                assert(ir@[0].deep_view() == body@[s as int].deep_view());
            }
            let used = match &label {
                Some(l) => phi_sources(body, l),
                None => Vec::new(),
            };
            proof {
                if label is None {
                    assert(addrs_v(used@) =~= Seq::<AddrV>::empty());
                }
            }
            let ghost prev = blocks@;
            blocks.push(BasicBlock { label, ir, used_variables: used });
            proof {
                assert forall|t: int| 0 <= t < k + 1 implies body_v((#[trigger] blocks@[t]).ir@) == body_v(body@).subrange(
                        bounds@[t].0 as int,
                        bounds@[t].1 as int,
                    ) by {
                    if t < k {
                        assert(blocks@[t] == prev[t]);
                    }
                }
                assert forall|t: int| 0 <= t < k + 1 implies ((#[trigger] blocks@[t]).label is Some <==> (blocks@[t].ir@.len() > 0
                        && blocks@[t].ir@[0] is Label)) by {
                    if t < k {
                        assert(blocks@[t] == prev[t]);
                    } else {
                        assert(body_v(ir@)[0] == ir@[0].deep_view());
                    }
                }
                assert forall|t: int| 0 <= t < k + 1 && (#[trigger] blocks@[t]).label is Some implies blocks@[t].ir@[0].deep_view() == SsaV::Label(
                        blocks@[t].label->0.deep_view(),
                    ) by {
                    if t < k {
                        assert(blocks@[t] == prev[t]);
                    } else {
                        assert(body_v(ir@)[0] == ir@[0].deep_view());
                    }
                }
                assert forall|t: int, a: AddrV| 0 <= t < k + 1 implies (#[trigger] addrs_v(blocks@[t].used_variables@).contains(a)
                        <==> (blocks@[t].label matches Some(l) && phi_uses(body_v(body@), l.deep_view(), a))) by {
                    if t < k {
                        assert(blocks@[t] == prev[t]);
                    }
                }
            }
            k += 1;
        }
        let adjacency = successors_of(&blocks);
        let r = ControlFlowGraph { blocks, control_adjacency: adjacency };
        proof {
            assert(is_block_split(body@, bounds@) && r.blocks_spec().len() == bounds@.len());
        }
        r
    }

    /// The blocks, in order.
    pub fn blocks(&self) -> (r: &Vec<BasicBlock>)
        ensures
            r@ == self.blocks_spec(),
    {
        &self.blocks
    }

    /// For each block, the indices of the blocks control may pass to.
    pub fn control_adjacency(&self) -> (r: &Vec<Vec<usize>>)
        ensures
            r@.map_values(|v: Vec<usize>| v@) == self.successors(),
    {
        &self.control_adjacency
    }
}

/// The addresses that φ statements of `body` take as flowing from label `l`.
fn phi_sources(body: &[Ssa], l: &Label) -> (r: Vec<Address>)
    ensures
        forall|a: AddrV| #[trigger] addrs_v(r@).contains(a) <==> phi_uses(body_v(body@), l.deep_view(), a),
{
    let mut out: Vec<Address> = Vec::new();
    let mut j: usize = 0;
    while j < body.len()
        invariant
            j <= body@.len(),
            forall|a: AddrV| #[trigger] addrs_v(out@).contains(a) <==> phi_uses_upto(body_v(body@), l.deep_view(), a, j as int),
        decreases body@.len() - j,
    {
        if let Ssa::Phi(p) = &body[j] {
            let mut e: usize = 0;
            while e < p.merging.len()
                invariant
                    j < body@.len(),
                    body@[j as int] == Ssa::Phi(*p),
                    e <= p.merging@.len(),
                    forall|a: AddrV| #[trigger] addrs_v(out@).contains(a) <==> (phi_uses_upto(body_v(body@), l.deep_view(), a, j as int) || (exists|ee: int| 0 <= ee < e
                            && #[trigger] crate::nodes::merging_v(p.merging@)[ee] == (a, l.deep_view()))),
                decreases p.merging@.len() - e,
            {
                let ghost prev = out@;
                if p.merging[e].1.same(l) {
                    out.push(p.merging[e].0.duplicate());
                    proof {
                        assert(addrs_v(out@) =~= addrs_v(prev).push(p.merging@[e as int].0.deep_view()));
                    }
                }
                proof {
                    assert(crate::nodes::merging_v(p.merging@)[e as int] == (p.merging@[e as int].0.deep_view(), p.merging@[e as int].1.deep_view()));
                }
                e += 1;
            }
            proof {
                assert(body_v(body@)[j as int] == body@[j as int].deep_view());
                let mv = crate::nodes::merging_v(p.merging@);
                assert(body_v(body@)[j as int]->Phi_merging == mv);
                assert(mv.len() == p.merging@.len());
                assert forall|a: AddrV| #[trigger] addrs_v(out@).contains(a) <==> phi_uses_upto(body_v(body@), l.deep_view(), a, j + 1) by {
                    lemma_upto_step(body_v(body@), l.deep_view(), a, j as int);
                    if exists|ee: int| 0 <= ee < mv.len() && #[trigger] mv[ee] == (a, l.deep_view()) {
                        let ee = choose|ee: int| 0 <= ee < mv.len() && #[trigger] mv[ee] == (a, l.deep_view());
                        assert(body_v(body@)[j as int]->Phi_merging[ee] == (a, l.deep_view()));
                    }
                }
            }
        } else {
            proof {
                assert(body_v(body@)[j as int] == body@[j as int].deep_view());
                assert forall|a: AddrV| #[trigger] addrs_v(out@).contains(a) <==> phi_uses_upto(body_v(body@), l.deep_view(), a, j + 1) by {
                    lemma_upto_step(body_v(body@), l.deep_view(), a, j as int);
                }
            }
        }
        j += 1;
    }
    out
}

fn jumps_to_label(b: &Vec<Ssa>, l: &Label) -> (r: bool)
    ensures
        r == jumps_to(body_v(b@), l.deep_view()),
{
    let mut j: usize = 0;
    while j < b.len()
        invariant
            j <= b@.len(),
            forall|t: int| 0 <= t < j ==> !(#[trigger] body_v(b@)[t] == SsaV::Jump(l.deep_view()) || (body_v(b@)[t] is Branch && (body_v(b@)[t]->Branch_true_target == l.deep_view()
                || body_v(b@)[t]->Branch_false_target == l.deep_view()))),
        decreases b@.len() - j,
    {
        proof {
            assert(body_v(b@)[j as int] == b@[j as int].deep_view());
        }
        match &b[j] {
            Ssa::Jump(x) => {
                if x.same(l) {
                    return true;
                }
            },
            Ssa::Branch { true_target, false_target, .. } => {
                if true_target.same(l) || false_target.same(l) {
                    return true;
                }
            },
            _ => {},
        }
        j += 1;
    }
    false
}

fn falls_through_exec(b: &Vec<Ssa>) -> (r: bool)
    ensures
        r == falls_through(body_v(b@)),
{
    let mut i: usize = b.len();
    proof {
        assert(body_v(b@).subrange(0, i as int) =~= body_v(b@));
    }
    while i > 0
        invariant
            i <= b@.len(),
            last_non_label(body_v(b@)) == last_non_label(body_v(b@).subrange(0, i as int)),
        decreases i,
    {
        proof {
            let sub = body_v(b@).subrange(0, i as int);
            assert(sub.drop_last() =~= body_v(b@).subrange(0, i - 1));
            assert(sub.last() == b@[i - 1].deep_view());
        }
        if !matches!(b[i - 1], Ssa::Label(_)) {
            return !(matches!(b[i - 1], Ssa::Jump(_)) || matches!(b[i - 1], Ssa::Branch { .. }) || matches!(b[i - 1], Ssa::Return { .. }));
        }
        i -= 1;
    }
    proof {
        assert(body_v(b@).subrange(0, 0).len() == 0);
    }
    true
}

fn successors_of(blocks: &Vec<BasicBlock>) -> (r: Vec<Vec<usize>>)
    ensures
        r@.len() == blocks@.len(),
        forall|k: int, m: usize|
            0 <= k < blocks@.len() ==> (#[trigger] r@[k]@.contains(m) <==> (m < blocks@.len() && is_edge(
                body_v(blocks@[k].ir@),
                opt_label_v(blocks@[m as int].label),
                m == k + 1,
            ))),
{
    let n = blocks.len();
    let mut out: Vec<Vec<usize>> = Vec::new();
    let mut k: usize = 0;
    while k < n
        invariant
            n == blocks@.len(),
            k <= n,
            out@.len() == k,
            forall|kk: int, m: usize|
                0 <= kk < k ==> (#[trigger] out@[kk]@.contains(m) <==> (m < n && is_edge(
                    body_v(blocks@[kk].ir@),
                    opt_label_v(blocks@[m as int].label),
                    m == kk + 1,
                ))),
        decreases n - k,
    {
        let jumps = !falls_through_exec(&blocks[k].ir);
        let mut succ: Vec<usize> = Vec::new();
        let mut m: usize = 0;
        while m < n
            invariant
                n == blocks@.len(),
                k < n,
                m <= n,
                jumps == !falls_through(body_v(blocks@[k as int].ir@)),
                forall|x: usize| #[trigger] succ@.contains(x) <==> (x < m && is_edge(
                    body_v(blocks@[k as int].ir@),
                    opt_label_v(blocks@[x as int].label),
                    x == k + 1,
                )),
            decreases n - m,
        {
            let by_label = match &blocks[m].label {
                Some(l) => jumps_to_label(&blocks[k].ir, l),
                None => false,
            };
            let ghost prev = succ@;
            if by_label || (m == k + 1 && !jumps) {
                succ.push(m);
            }
            proof {
                assert forall|x: usize| #[trigger] succ@.contains(x) <==> (x < m + 1 && is_edge(
                    body_v(blocks@[k as int].ir@),
                    opt_label_v(blocks@[x as int].label),
                    x == k + 1,
                )) by {
                    assert(prev.contains(x) <==> (x < m && is_edge(
                        body_v(blocks@[k as int].ir@),
                        opt_label_v(blocks@[x as int].label),
                        x == k + 1,
                    )));
                }
            }
            m += 1;
        }
        let ghost prevo = out@;
        out.push(succ);
        proof {
            assert forall|kk: int, mm: usize| 0 <= kk < k + 1 implies (#[trigger] out@[kk]@.contains(mm) <==> (mm < n && is_edge(
                    body_v(blocks@[kk].ir@),
                    opt_label_v(blocks@[mm as int].label),
                    mm == kk + 1,
                ))) by {
                if kk < k {
                    assert(out@[kk] == prevo[kk]);
                }
            }
        }
        k += 1;
    }
    out
}

} // verus!
