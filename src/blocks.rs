use vstd::prelude::*;
use crate::nodes::{body_v, duplicate_merging, Label, LabelV, PhiFunction, Ssa, SsaV};

verus! {

/// A basic block: a run of statements entered only at its start and left only at its end.
pub type BasicBlock = Vec<Ssa>;

/// `bs` cuts `ir` into basic blocks: consecutive non-empty ranges that cover it,
/// a new block starting at every label and after every return, and nowhere else.
pub open spec fn is_block_split(ir: Seq<Ssa>, bs: Seq<(usize, usize)>) -> bool {
    &&& (bs.len() == 0 <==> ir.len() == 0)
    &&& bs.len() > 0 ==> bs[0].0 == 0 && bs.last().1 == ir.len()
    &&& forall|k: int| 0 <= k < bs.len() ==> block_ok(ir, #[trigger] bs[k])
    &&& forall|k: int| 0 <= k < bs.len() - 1 ==> (#[trigger] bs[k]).1 == bs[k + 1].0
    &&& forall|k: int|
        0 <= k < bs.len() - 1 ==> (ir[(#[trigger] bs[k]).1 - 1] is Return || ir[bs[k].1 as int] is Label)
}

/// The range `b` is non-empty, holds a label at most at its start and a return at
/// most at its end.
pub open spec fn block_ok(ir: Seq<Ssa>, b: (usize, usize)) -> bool {
    &&& b.0 < b.1
    &&& forall|j: int| b.0 < j < b.1 ==> !(#[trigger] ir[j] is Label)
    &&& forall|j: int| b.0 <= j < b.1 - 1 ==> !(#[trigger] ir[j] is Return)
}

/// Control leaves every block but the last through a return, or falls through into
/// a block that starts at a label; no label stands inside a block.
pub proof fn terminator_closure(ir: Seq<Ssa>, bs: Seq<(usize, usize)>, k: int)
    requires
        is_block_split(ir, bs),
        0 <= k < bs.len() - 1,
    ensures
        ir[bs[k].1 - 1] is Return || ir[bs[k + 1].0 as int] is Label,
        forall|j: int| bs[k].0 < j < bs[k].1 ==> !(#[trigger] ir[j] is Label),
{
    assert(bs[k].1 == bs[k + 1].0);
    assert(block_ok(ir, bs[k]));
}

/// `bs` cuts `ir[0..end]` into blocks as [`is_block_split`] describes.
pub open spec fn prefix_split(ir: Seq<Ssa>, bs: Seq<(usize, usize)>, end: usize) -> bool {
    &&& end <= ir.len()
    &&& (bs.len() == 0 <==> end == 0)
    &&& bs.len() > 0 ==> bs[0].0 == 0 && bs.last().1 == end
    &&& forall|k: int| 0 <= k < bs.len() ==> block_ok(ir, #[trigger] bs[k])
    &&& forall|k: int| 0 <= k < bs.len() - 1 ==> (#[trigger] bs[k]).1 == bs[k + 1].0
    &&& forall|k: int|
        0 <= k < bs.len() - 1 ==> (ir[(#[trigger] bs[k]).1 - 1] is Return || ir[bs[k].1 as int] is Label)
}

proof fn lemma_push_block(ir: Seq<Ssa>, bs: Seq<(usize, usize)>, start: usize, e: usize)
    requires
        prefix_split(ir, bs, start),
        block_ok(ir, (start, e)),
        e <= ir.len(),
        bs.len() > 0 ==> (ir[start - 1] is Return || ir[start as int] is Label),
    ensures
        prefix_split(ir, bs.push((start, e)), e),
{
    let nb = bs.push((start, e));
    assert forall|k: int| 0 <= k < nb.len() implies block_ok(ir, #[trigger] nb[k]) by {
        if k < bs.len() {
            assert(nb[k] == bs[k]);
        }
    }
    assert forall|k: int| 0 <= k < nb.len() - 1 implies (#[trigger] nb[k]).1 == nb[k + 1].0 by {
        if k < bs.len() - 1 {
            assert(nb[k] == bs[k] && nb[k + 1] == bs[k + 1]);
        }
    }
    assert forall|k: int| 0 <= k < nb.len() - 1 implies (ir[(#[trigger] nb[k]).1 - 1] is Return
        || ir[nb[k].1 as int] is Label) by {
        if k < bs.len() - 1 {
            assert(nb[k] == bs[k] && nb[k + 1] == bs[k + 1]);
        }
    }
}

/// The ranges of the basic blocks of `ir`.
pub fn block_bounds(ir: &[Ssa]) -> (r: Vec<(usize, usize)>)
    ensures
        is_block_split(ir@, r@),
{
    let n = ir.len();
    let mut bounds: Vec<(usize, usize)> = Vec::new();
    let mut start: usize = 0;
    let mut i: usize = 0;
    while i < n
        invariant
            n == ir@.len(),
            start <= i <= n,
            prefix_split(ir@, bounds@, start),
            bounds@.len() > 0 && start < n ==> (ir@[start - 1] is Return || ir@[start as int] is Label),
            bounds@.len() > 0 && start == i ==> ir@[start - 1] is Return,
            forall|j: int| start < j < i ==> !(#[trigger] ir@[j] is Label),
            forall|j: int| start <= j < i ==> !(#[trigger] ir@[j] is Return),
        decreases n - i,
    {
        let is_label = matches!(ir[i], Ssa::Label(_));
        if is_label && i > start {
            proof {
                lemma_push_block(ir@, bounds@, start, i);
            }
            bounds.push((start, i));
            start = i;
        }
        let is_return = matches!(ir[i], Ssa::Return { .. });
        if is_return {
            proof {
                lemma_push_block(ir@, bounds@, start, (i + 1) as usize);
            }
            bounds.push((start, i + 1));
            start = i + 1;
        }
        i += 1;
    }
    if start < n {
        proof {
            lemma_push_block(ir@, bounds@, start, n);
        }
        bounds.push((start, n));
    }
    bounds
}

/// Splits a function body into its basic blocks, in order.
pub fn ir_to_basic_blocks(ir: &[Ssa]) -> (r: Vec<BasicBlock>)
    ensures
        exists|bs: Seq<(usize, usize)>|
            {
                &&& is_block_split(ir@, bs)
                &&& r@.len() == bs.len()
                &&& forall|k: int|
                    0 <= k < bs.len() ==> body_v((#[trigger] r@[k])@) == body_v(ir@).subrange(
                        bs[k].0 as int,
                        bs[k].1 as int,
                    )
            },
{
    let bounds = block_bounds(ir);
    let mut out: Vec<BasicBlock> = Vec::new();
    let mut k: usize = 0;
    while k < bounds.len()
        invariant
            is_block_split(ir@, bounds@),
            k <= bounds@.len(),
            out@.len() == k,
            forall|m: int|
                0 <= m < k ==> body_v((#[trigger] out@[m])@) == body_v(ir@).subrange(
                    bounds@[m].0 as int,
                    bounds@[m].1 as int,
                ),
        decreases bounds@.len() - k,
    {
        let (s, e) = bounds[k];
        proof {
            if k + 1 < bounds@.len() {
                assert(bounds@[k as int].1 == bounds@[k + 1].0);
            }
            assert(e <= ir@.len()) by {
                lemma_bound_within(ir@, bounds@, k as int);
            }
        }
        let mut block: Vec<Ssa> = Vec::new();
        let mut j: usize = s;
        while j < e
            invariant
                s <= j <= e <= ir@.len(),
                block@.len() == j - s,
                body_v(block@) =~= body_v(ir@).subrange(s as int, j as int),
            decreases e - j,
        {
            let d = ir[j].duplicate();
            let ghost prev = block@;
            block.push(d);
            proof {
                assert(block@ == prev.push(d));
                assert forall|t: int| 0 <= t < block@.len() implies #[trigger] body_v(block@)[t]
                    == body_v(ir@).subrange(s as int, j + 1)[t] by {
                    if t < prev.len() {
                        assert(block@[t] == prev[t]);
                        assert(body_v(prev)[t] == body_v(ir@).subrange(s as int, j as int)[t]);
                    }
                }
                assert(body_v(block@) =~= body_v(ir@).subrange(s as int, j + 1));
            }
            j += 1;
        }
        out.push(block);
        k += 1;
    }
    out
}

/// The label block `k` of `bs` is filed under: the label it starts with, else
/// that of the block before it; `None` before any label.
pub open spec fn block_name(ir: Seq<SsaV>, bs: Seq<(usize, usize)>, k: int) -> Option<LabelV>
    decreases k + 1,
{
    if k < 0 || k >= bs.len() {
        None
    } else if ir[bs[k].0 as int] is Label {
        Some(ir[bs[k].0 as int]->Label_0)
    } else {
        block_name(ir, bs, k - 1)
    }
}

/// The basic blocks of `ir`, each under the label it starts with; a block that
/// starts without a label is filed under the label of the block before it, and
/// under `None` before any label.
pub fn ir_to_basic_blocks_labeled(ir: &[Ssa]) -> (r: Vec<(Option<Label>, Vec<Ssa>)>)
    ensures
        exists|bs: Seq<(usize, usize)>|
            {
                &&& is_block_split(ir@, bs)
                &&& r@.len() == bs.len()
                &&& forall|k: int|
                    0 <= k < bs.len() ==> body_v((#[trigger] r@[k]).1@) == body_v(ir@).subrange(
                        bs[k].0 as int,
                        bs[k].1 as int,
                    ) && crate::controlflow::opt_label_v(r@[k].0) == block_name(body_v(ir@), bs, k)
            },
{
    let bounds = block_bounds(ir);
    let mut out: Vec<(Option<Label>, Vec<Ssa>)> = Vec::new();
    let mut current: Option<Label> = None;
    let mut k: usize = 0;
    while k < bounds.len()
        invariant
            is_block_split(ir@, bounds@),
            k <= bounds@.len(),
            out@.len() == k,
            crate::controlflow::opt_label_v(current) == block_name(body_v(ir@), bounds@, k - 1),
            forall|t: int| 0 <= t < k ==> body_v((#[trigger] out@[t]).1@) == body_v(ir@).subrange(
                bounds@[t].0 as int,
                bounds@[t].1 as int,
            ) && crate::controlflow::opt_label_v(out@[t].0) == block_name(body_v(ir@), bounds@, t),
        decreases bounds@.len() - k,
    {
        let (s, e) = bounds[k];
        proof {
            lemma_bound_within(ir@, bounds@, k as int);
            assert(body_v(ir@.subrange(s as int, e as int)) =~= body_v(ir@).subrange(s as int, e as int));
            assert(body_v(ir@)[s as int] == ir@[s as int].deep_view());
        }
        if let Ssa::Label(l) = &ir[s] {
            current = Some(l.duplicate());
        }
        let label = match &current {
            Some(l) => Some(l.duplicate()),
            None => None,
        };
        let copy = crate::nodes::duplicate_body(&ir[s..e]);
        let ghost prev = out@;
        out.push((label, copy));
        proof {
            assert forall|t: int| 0 <= t < k + 1 implies body_v((#[trigger] out@[t]).1@) == body_v(ir@).subrange(
                bounds@[t].0 as int,
                bounds@[t].1 as int,
            ) && crate::controlflow::opt_label_v(out@[t].0) == block_name(body_v(ir@), bounds@, t) by {
                if t < k {
                    assert(out@[t] == prev[t]);
                }
            }
        }
        k += 1;
    }
    out
}

/// Every block range lies within the body.
pub proof fn lemma_bound_within(ir: Seq<Ssa>, bs: Seq<(usize, usize)>, k: int)
    requires
        is_block_split(ir, bs),
        0 <= k < bs.len(),
    ensures
        bs[k].1 <= ir.len(),
        bs[k].0 < bs[k].1,
    decreases bs.len() - k,
{
    assert(block_ok(ir, bs[k]));
    if k < bs.len() - 1 {
        assert(bs[k].1 == bs[k + 1].0);
        assert(block_ok(ir, bs[k + 1]));
        lemma_bound_within(ir, bs, k + 1);
    }
}

/// `p` stands, up to copying, as a φ statement of `body`.
pub open spec fn phi_in(body: Seq<Ssa>, p: PhiFunction) -> bool {
    exists|j: int| 0 <= j < body.len() && (#[trigger] body[j]).deep_view() == Ssa::Phi(p).deep_view()
}

/// The φ-functions of a body, in order.
pub fn extract_phi_functions(body: &[Ssa]) -> (r: Vec<PhiFunction>)
    ensures
        r@.len() <= body@.len(),
        forall|k: int| 0 <= k < r@.len() ==> phi_in(body@, #[trigger] r@[k]),
        phis_v(r@) == phis_of(body_v(body@)),
{
    let mut out: Vec<PhiFunction> = Vec::new();
    let mut i: usize = 0;
    while i < body.len()
        invariant
            i <= body@.len(),
            out@.len() <= i,
            forall|k: int| 0 <= k < out@.len() ==> phi_in(body@, #[trigger] out@[k]),
            phis_v(out@) == phis_of(body_v(body@).subrange(0, i as int)),
        decreases body@.len() - i,
    {
        let ghost sub = body_v(body@).subrange(0, i + 1);
        proof {
            assert(sub.drop_last() =~= body_v(body@).subrange(0, i as int));
            assert(sub.last() == body@[i as int].deep_view());
        }
        if let Ssa::Phi(phi) = &body[i] {
            let p = PhiFunction { dest: phi.dest.duplicate(), width: phi.width, merging: duplicate_merging(&phi.merging) };
            let ghost prev = out@;
            out.push(p);
            proof {
                assert forall|k: int| 0 <= k < out@.len() implies phi_in(body@, #[trigger] out@[k]) by {
                    if k < prev.len() {
                        assert(out@[k] == prev[k]);
                    } else {
                        assert(body@[i as int].deep_view() == Ssa::Phi(out@[k]).deep_view());
                    }
                }
                assert(phis_v(out@) =~= phis_v(prev).push(Ssa::Phi(p).deep_view()));
            }
        }
        i += 1;
    }
    proof {
        assert(body_v(body@).subrange(0, body@.len() as int) =~= body_v(body@));
    }
    out
}

/// The φ statements of a body, in order.
pub open spec fn phis_of(b: Seq<SsaV>) -> Seq<SsaV>
    decreases b.len(),
{
    if b.len() == 0 {
        Seq::empty()
    } else if b.last() is Phi {
        phis_of(b.drop_last()).push(b.last())
    } else {
        phis_of(b.drop_last())
    }
}

/// Model of a sequence of φ-functions, as statements.
pub open spec fn phis_v(ps: Seq<PhiFunction>) -> Seq<SsaV> {
    ps.map_values(|p: PhiFunction| Ssa::Phi(p).deep_view())
}

/// The first label of a body, if any.
pub fn block_label(body: &[Ssa]) -> (r: Option<Label>)
    ensures
        r is None <==> forall|j: int| 0 <= j < body@.len() ==> !(#[trigger] body@[j] is Label),
        r matches Some(l) ==> exists|j: int| 0 <= j < body@.len() && body@[j] == Ssa::Label(l) && forall|t: int| 0 <= t < j ==> !(#[trigger] body@[t] is Label),
{
    let mut i: usize = 0;
    while i < body.len()
        invariant
            i <= body@.len(),
            forall|t: int| 0 <= t < i ==> !(#[trigger] body@[t] is Label),
        decreases body@.len() - i,
    {
        if let Ssa::Label(l) = &body[i] {
            return Some(l.duplicate());
        }
        i += 1;
    }
    None
}

} // verus!
