use vstd::prelude::*;
use crate::controlflow::{BasicBlock, ControlFlowGraph};
use crate::dataflow::{only_user, DataFlowGraph};
use crate::nodes::{body_v, extend_body, AddrV, Address, FunctionParameter, ParamV, Quadriplet, Ssa, SsaV};

verus! {

/// `a`, with `from` read as `to`.
pub open spec fn subst(a: AddrV, from: AddrV, to: AddrV) -> AddrV {
    if a == from { to } else { a }
}

/// A statement with every operand it reads that equals `from` replaced by `to`.
pub open spec fn replace_reads(s: SsaV, from: AddrV, to: AddrV) -> SsaV {
    match s {
        SsaV::Assign { dest, source, width } => SsaV::Assign { dest, source: subst(source, from, to), width },
        SsaV::Quad { width, dest, op, left, right } => SsaV::Quad {
            width,
            dest,
            op,
            left: subst(left, from, to),
            right: match right {
                Some(r) => Some(subst(r, from, to)),
                None => None,
            },
        },
        SsaV::Call { parameters, dest, func, num_params } => SsaV::Call {
            parameters: parameters.map_values(|p: ParamV| ParamV { value: subst(p.value, from, to), ..p }),
            dest,
            func,
            num_params,
        },
        SsaV::Return { value: Some((a, w)) } => SsaV::Return { value: Some((subst(a, from, to), w)) },
        SsaV::Branch { width, cond, true_target, false_target } => SsaV::Branch {
            width,
            cond: subst(cond, from, to),
            true_target,
            false_target,
        },
        _ => s,
    }
}

fn subst_address(a: &Address, from: &Address, to: &Address) -> (r: Address)
    ensures
        r.deep_view() == subst(a.deep_view(), from.deep_view(), to.deep_view()),
{
    if a.same(from) { to.duplicate() } else { a.duplicate() }
}

/// Replaces, in the operands `s` reads, `from` by `to`.
pub fn eliminate_copy(s: &Ssa, from: &Address, to: &Address) -> (r: Ssa)
    ensures
        r.deep_view() == replace_reads(s.deep_view(), from.deep_view(), to.deep_view()),
{
    match s {
        Ssa::Assignment { dest, source, width } => Ssa::Assignment {
            dest: dest.duplicate(),
            source: subst_address(source, from, to),
            width: *width,
        },
        Ssa::Quadriplet(q) => Ssa::Quadriplet(Quadriplet {
            width: q.width,
            dest: q.dest.duplicate(),
            op: q.op,
            left: subst_address(&q.left, from, to),
            right: match &q.right {
                Some(r) => Some(subst_address(r, from, to)),
                None => None,
            },
        }),
        Ssa::Call { parameters, dest, func, num_params } => {
            let mut ps: Vec<FunctionParameter> = Vec::new();
            let mut i: usize = 0;
            while i < parameters.len()
                invariant
                    i <= parameters@.len(),
                    ps@.len() == i,
                    forall|t: int| 0 <= t < i ==> crate::nodes::param_v(#[trigger] ps@[t]) == (ParamV {
                        value: subst(parameters@[t].value.deep_view(), from.deep_view(), to.deep_view()),
                        ..crate::nodes::param_v(parameters@[t])
                    }),
                decreases parameters@.len() - i,
            {
                let p = &parameters[i];
                ps.push(FunctionParameter {
                    number: p.number,
                    value: subst_address(&p.value, from, to),
                    width: p.width,
                    is_variadic: p.is_variadic,
                });
                i += 1;
            }
            let r = Ssa::Call {
                parameters: ps,
                dest: crate::nodes::duplicate_opt_pair(dest),
                func: func.duplicate(),
                num_params: *num_params,
            };
            proof {
                assert(crate::nodes::params_v(ps@) =~= crate::nodes::params_v(parameters@).map_values(
                    |p: ParamV| ParamV { value: subst(p.value, from.deep_view(), to.deep_view()), ..p }));
            }
            r
        },
        Ssa::Return { value: Some((a, w)) } => Ssa::Return { value: Some((subst_address(a, from, to), *w)) },
        Ssa::Branch { width, cond, true_target, false_target } => Ssa::Branch {
            width: *width,
            cond: subst_address(cond, from, to),
            true_target: true_target.duplicate(),
            false_target: false_target.duplicate(),
        },
        _ => s.duplicate(),
    }
}

/// The value defined at `j` flows into exactly one later statement, and it is an
/// assignment: the definition can take over that assignment's destination.
pub open spec fn fusable(b: Seq<SsaV>, j: int, u: int) -> bool {
    &&& (b[j] is Quad || (b[j] is Call && b[j]->Call_dest is Some))
    &&& only_user(b, j, u)
    &&& b[u] is Assign
}

/// Statement `j` with its destination replaced by `d`.
pub open spec fn with_dest(s: SsaV, d: AddrV) -> SsaV {
    match s {
        SsaV::Quad { width, op, left, right, .. } => SsaV::Quad { width, dest: d, op, left, right },
        SsaV::Call { parameters, dest: Some((_, w)), func, num_params } => SsaV::Call {
            parameters,
            dest: Some((d, w)),
            func,
            num_params,
        },
        _ => s,
    }
}

/// Statement `u` is the assignment some earlier definition was fused into.
pub open spec fn absorbed(b: Seq<SsaV>, u: int) -> bool {
    exists|j: int| 0 <= j < u && fusable(b, j, u)
}

/// The first `n` statements of `b` after fusing each quadruple or call into the
/// assignment that is its only user.
pub open spec fn fuse_spec(b: Seq<SsaV>, n: int) -> Seq<SsaV>
    decreases n,
{
    if n <= 0 {
        Seq::empty()
    } else {
        let j = n - 1;
        let prev = fuse_spec(b, j);
        if absorbed(b, j) {
            prev
        } else if exists|u: int| fusable(b, j, u) {
            let u = choose|u: int| fusable(b, j, u);
            prev.push(with_dest(b[j], b[u]->Assign_dest))
        } else {
            prev.push(b[j])
        }
    }
}

/// Fuses, within one block, each quadruple or call into the assignment that is the
/// only user of its result.
pub fn eliminate_quadriplets(block: &BasicBlock) -> (r: Vec<Ssa>)
    ensures
        body_v(r@) == fuse_spec(body_v(block.ir@), block.ir@.len() as int),
{
    let dataflow = DataFlowGraph::from_basic_block(&block.ir);
    let n = block.ir.len();
    let ghost b = body_v(block.ir@);
    let mut ignore: Vec<bool> = Vec::new();
    let mut k: usize = 0;
    while k < n
        invariant
            n == block.ir@.len(),
            k <= n,
            ignore@.len() == k,
            forall|t: int| 0 <= t < k ==> !#[trigger] ignore@[t],
        decreases n - k,
    {
        ignore.push(false);
        k += 1;
    }
    let mut out: Vec<Ssa> = Vec::new();
    let mut i: usize = 0;
    while i < n
        invariant
            n == block.ir@.len(),
            i <= n,
            dataflow.wf(),
            dataflow.block() == b,
            b == body_v(block.ir@),
            ignore@.len() == n,
            forall|t: int| i <= t < n ==> (#[trigger] ignore@[t] <==> exists|j: int| 0 <= j < i && fusable(b, j, t)),
            body_v(out@) == fuse_spec(b, i as int),
        decreases n - i,
    {
        let instr = &block.ir[i];
        proof {
            assert(b[i as int] == instr.deep_view());
        }
        let ghost absorbed_here = absorbed(b, i as int);
        proof {
            assert(ignore@[i as int] == absorbed_here);
        }
        let fusable_kind = match instr {
            Ssa::Quadriplet(_) => true,
            Ssa::Call { dest: Some(_), .. } => true,
            _ => false,
        };
        let target = if fusable_kind { dataflow.single_user(i) } else { None };
        let target = match target {
            Some(u) => if matches!(block.ir[u], Ssa::Assignment { .. }) {
                proof {
                    assert(b[u as int] == block.ir@[u as int].deep_view());
                }
                Some(u)
            } else {
                proof {
                    assert(b[u as int] == block.ir@[u as int].deep_view());
                    assert forall|v: int| !fusable(b, i as int, v) by {
                        if fusable(b, i as int, v) {
                            assert(v == u);
                        }
                    }
                }
                None
            },
            None => {
                proof {
                    assert forall|v: int| !fusable(b, i as int, v) by {
                        if fusable(b, i as int, v) {
                            assert(only_user(b, i as int, v));
                        }
                    }
                }
                None
            },
        };
        if ignore[i] {
            // absorbed into an earlier definition
        } else {
            let x = match target {
                Some(u) => {
                    let new_dest = match &block.ir[u] {
                        Ssa::Assignment { dest, .. } => dest.duplicate(),
                        _ => Address::CompilerTemp(0),
                    };
                    match instr {
                        Ssa::Quadriplet(q) => Ssa::Quadriplet(Quadriplet {
                            width: q.width,
                            dest: new_dest,
                            op: q.op,
                            left: q.left.duplicate(),
                            right: match &q.right {
                                Some(r) => Some(r.duplicate()),
                                None => None,
                            },
                        }),
                        Ssa::Call { parameters, dest: Some((_, w)), func, num_params } => Ssa::Call {
                            parameters: crate::nodes::duplicate_params(parameters),
                            dest: Some((new_dest, *w)),
                            func: func.duplicate(),
                            num_params: *num_params,
                        },
                        _ => instr.duplicate(),
                    }
                },
                None => instr.duplicate(),
            };
            proof {
                if let Some(u) = target {
                    assert(fusable(b, i as int, u as int));
                    assert forall|v: int| fusable(b, i as int, v) implies v == u by {}
                    let c = choose|v: int| fusable(b, i as int, v);
                    assert(c == u);
                    assert(x.deep_view() == with_dest(b[i as int], b[u as int]->Assign_dest));
                }
            }
            let ghost prev = out@;
            out.push(x);
            proof {
                assert(body_v(out@) =~= body_v(prev).push(x.deep_view()));
            }
        }
        if let Some(u) = target {
            ignore.set(u, true);
        }
        proof {
            assert forall|t: int| i + 1 <= t < n implies (#[trigger] ignore@[t] <==> exists|j: int| 0 <= j < i + 1 && fusable(b, j, t)) by {
                if exists|j: int| 0 <= j < i + 1 && fusable(b, j, t) {
                    let j = choose|j: int| 0 <= j < i + 1 && fusable(b, j, t);
                    if j == i {
                        assert(target == Some(t as usize));
                    }
                }
                if target == Some(t as usize) {
                    assert(fusable(b, i as int, t));
                }
            }
        }
        i += 1;
    }
    out
}

/// Statement `j` is an assignment of a non-string value whose only user is `u`:
/// it can be dropped and its source read at `u` directly.
pub open spec fn forwardable(s: SsaV, b: Seq<SsaV>, j: int, u: int) -> bool {
    &&& s is Assign
    &&& !(s->Assign_source is Str)
    &&& only_user(b, j, u)
}

/// Forward propagation over the first `n` statements: each statement first has its
/// pending substitutions applied; then a forwardable assignment is dropped and its
/// substitution handed to its user, and anything else is kept.
/// Returns the kept statements and, per statement index, the substitutions pending.
pub open spec fn forward_spec(b: Seq<SsaV>, n: int) -> (Seq<SsaV>, Seq<Seq<(AddrV, AddrV)>>)
    decreases n,
{
    if n <= 0 {
        (Seq::empty(), Seq::new(b.len(), |i: int| Seq::<(AddrV, AddrV)>::empty()))
    } else {
        let j = n - 1;
        let (out, pending) = forward_spec(b, j);
        let s = apply_all(b[j], pending[j]);
        if exists|u: int| forwardable(s, b, j, u) {
            let u = choose|u: int| forwardable(s, b, j, u);
            (out, pending.update(u, pending[u].push((s->Assign_dest, s->Assign_source))))
        } else {
            (out.push(s), pending)
        }
    }
}

pub open spec fn subs_v(v: Seq<(Address, Address)>) -> Seq<(AddrV, AddrV)> {
    v.map_values(|e: (Address, Address)| (e.0.deep_view(), e.1.deep_view()))
}

pub open spec fn pend_v(v: Seq<Vec<(Address, Address)>>) -> Seq<Seq<(AddrV, AddrV)>> {
    v.map_values(|l: Vec<(Address, Address)>| subs_v(l@))
}

/// `s` with the substitutions applied in order.
pub open spec fn apply_all(s: SsaV, subs: Seq<(AddrV, AddrV)>) -> SsaV
    decreases subs.len(),
{
    if subs.len() == 0 {
        s
    } else {
        replace_reads(apply_all(s, subs.drop_last()), subs.last().0, subs.last().1)
    }
}

fn apply_substitutions(s: &Ssa, subs: &Vec<(Address, Address)>) -> (r: Ssa)
    ensures
        r.deep_view() == apply_all(s.deep_view(), subs@.map_values(|e: (Address, Address)| (e.0.deep_view(), e.1.deep_view()))),
{
    let ghost sv = subs@.map_values(|e: (Address, Address)| (e.0.deep_view(), e.1.deep_view()));
    let mut cur = s.duplicate();
    let mut i: usize = 0;
    while i < subs.len()
        invariant
            i <= subs@.len(),
            sv == subs@.map_values(|e: (Address, Address)| (e.0.deep_view(), e.1.deep_view())),
            cur.deep_view() == apply_all(s.deep_view(), sv.subrange(0, i as int)),
        decreases subs@.len() - i,
    {
        proof {
            let sub = sv.subrange(0, i + 1);
            assert(sub.drop_last() =~= sv.subrange(0, i as int));
            assert(sub.last() == sv[i as int]);
        }
        cur = eliminate_copy(&cur, &subs[i].0, &subs[i].1);
        i += 1;
    }
    proof {
        assert(sv.subrange(0, subs@.len() as int) =~= sv);
    }
    cur
}

/// Drops, within one block, each non-string assignment with a single user, reading
/// its source at that user instead.
pub fn eliminate_forward_assignments(block: &BasicBlock) -> (r: Vec<Ssa>)
    ensures
        body_v(r@) == forward_spec(body_v(block.ir@), block.ir@.len() as int).0,
{
    let dataflow = DataFlowGraph::from_basic_block(&block.ir);
    let n = block.ir.len();
    let ghost b = body_v(block.ir@);
    let mut pending: Vec<Vec<(Address, Address)>> = Vec::new();
    let mut k: usize = 0;
    while k < n
        invariant
            n == block.ir@.len(),
            k <= n,
            pending@.len() == k,
            forall|t: int| 0 <= t < k ==> (#[trigger] pending@[t])@.len() == 0,
        decreases n - k,
    {
        pending.push(Vec::new());
        k += 1;
    }
    proof {
        assert forall|t: int| 0 <= t < n implies #[trigger] pend_v(pending@)[t] == forward_spec(b, 0).1[t] by {
            assert(subs_v(pending@[t]@) =~= Seq::<(AddrV, AddrV)>::empty());
        }
        assert(pend_v(pending@) =~= forward_spec(b, 0).1);
    }
    let mut out: Vec<Ssa> = Vec::new();
    let mut i: usize = 0;
    while i < n
        invariant
            n == block.ir@.len(),
            i <= n,
            dataflow.wf(),
            dataflow.block() == b,
            b == body_v(block.ir@),
            pending@.len() == n,
            body_v(out@) == forward_spec(b, i as int).0,
            pend_v(pending@)
                == forward_spec(b, i as int).1,
        decreases n - i,
    {
        let ghost pv = forward_spec(b, i as int).1;
        proof {
            assert(b[i as int] == block.ir@[i as int].deep_view());
            assert(pv[i as int] == subs_v(pending@[i as int]@));
        }
        let s = apply_substitutions(&block.ir[i], &pending[i]);
        let forward_to: Option<usize> = match &s {
            Ssa::Assignment { source, .. } => {
                if matches!(source, Address::Constant(crate::nodes::AddressConstant::StringLiteral(_))) {
                    None
                } else {
                    dataflow.single_user(i)
                }
            },
            _ => None,
        };
        proof {
            if forward_to is None {
                assert forall|u: int| !forwardable(s.deep_view(), b, i as int, u) by {}
            }
        }
        match forward_to {
            Some(u) => {
                let (d, src) = match &s {
                    Ssa::Assignment { dest, source, .. } => (dest.duplicate(), source.duplicate()),
                    _ => (Address::CompilerTemp(0), Address::CompilerTemp(0)),
                };
                proof {
                    assert(forwardable(s.deep_view(), b, i as int, u as int));
                    let c = choose|v: int| forwardable(s.deep_view(), b, i as int, v);
                    assert(c == u);
                }
                let ghost before = pending@;
                let mut list: Vec<(Address, Address)> = Vec::new();
                let mut t: usize = 0;
                while t < pending[u].len()
                    invariant
                        u < pending@.len(),
                        t <= pending@[u as int]@.len(),
                        list@.len() == t,
                        forall|x: int| 0 <= x < t ==> #[trigger] list@[x].0.deep_view() == pending@[u as int]@[x].0.deep_view()
                            && list@[x].1.deep_view() == pending@[u as int]@[x].1.deep_view(),
                    decreases pending@[u as int]@.len() - t,
                {
                    list.push((pending[u][t].0.duplicate(), pending[u][t].1.duplicate()));
                    t += 1;
                }
                let ghost old_list = list@;
                list.push((d, src));
                pending.set(u, list);
                proof {
                    assert(subs_v(list@) =~= subs_v(before[u as int]@).push((s.deep_view()->Assign_dest, s.deep_view()->Assign_source)));
                    assert forall|x: int| 0 <= x < n implies #[trigger] pend_v(pending@)[x]
                        == pv.update(u as int, pv[u as int].push((s.deep_view()->Assign_dest, s.deep_view()->Assign_source)))[x] by {
                        if x != u {
                            assert(pending@[x] == before[x]);
                        }
                    }
                    assert(pend_v(pending@)
                        =~= pv.update(u as int, pv[u as int].push((s.deep_view()->Assign_dest, s.deep_view()->Assign_source))));
                }
            },
            None => {
                let ghost prev = out@;
                out.push(s);
                proof {
                    assert(body_v(out@) =~= body_v(prev).push(s.deep_view()));
                }
            },
        }
        i += 1;
    }
    out
}

/// Forward propagation of copies over each block of a body.
pub fn copy_eliminate_forward_assignments(body: &[Ssa]) -> (r: Vec<Ssa>)
    ensures
        exists|g: ControlFlowGraph| g.graph_of(body@) && body_v(r@) == forward_blocks(g.blocks_spec()),
{
    let control_flow = ControlFlowGraph::new(body);
    let blocks = control_flow.blocks();
    let mut out: Vec<Ssa> = Vec::new();
    let mut k: usize = 0;
    while k < blocks.len()
        invariant
            k <= blocks@.len(),
            blocks@ == control_flow.blocks_spec(),
            body_v(out@) == forward_blocks(blocks@.subrange(0, k as int)),
        decreases blocks@.len() - k,
    {
        let part = eliminate_forward_assignments(&blocks[k]);
        extend_body(&mut out, &part);
        proof {
            let bk = blocks@.subrange(0, k + 1);
            assert(bk.drop_last() =~= blocks@.subrange(0, k as int));
            assert(bk.last() == blocks@[k as int]);
        }
        k += 1;
    }
    proof {
        assert(blocks@.subrange(0, blocks@.len() as int) =~= blocks@);
    }
    out
}

/// Fusion of quadruples into their single assignment user, over each block of a body.
pub fn copy_eliminate_quadriplets(body: &[Ssa]) -> (r: Vec<Ssa>)
    ensures
        exists|g: ControlFlowGraph| g.graph_of(body@) && body_v(r@) == fuse_blocks(g.blocks_spec()),
{
    let control_flow = ControlFlowGraph::new(body);
    let blocks = control_flow.blocks();
    let mut out: Vec<Ssa> = Vec::new();
    let mut k: usize = 0;
    while k < blocks.len()
        invariant
            k <= blocks@.len(),
            blocks@ == control_flow.blocks_spec(),
            body_v(out@) == fuse_blocks(blocks@.subrange(0, k as int)),
        decreases blocks@.len() - k,
    {
        let part = eliminate_quadriplets(&blocks[k]);
        extend_body(&mut out, &part);
        proof {
            let bk = blocks@.subrange(0, k + 1);
            assert(bk.drop_last() =~= blocks@.subrange(0, k as int));
            assert(bk.last() == blocks@[k as int]);
        }
        k += 1;
    }
    proof {
        assert(blocks@.subrange(0, blocks@.len() as int) =~= blocks@);
    }
    out
}

pub open spec fn forward_blocks(bl: Seq<BasicBlock>) -> Seq<SsaV>
    decreases bl.len(),
{
    if bl.len() == 0 {
        Seq::empty()
    } else {
        forward_blocks(bl.drop_last()) + forward_spec(body_v(bl.last().ir@), bl.last().ir@.len() as int).0
    }
}

pub open spec fn fuse_blocks(bl: Seq<BasicBlock>) -> Seq<SsaV>
    decreases bl.len(),
{
    if bl.len() == 0 {
        Seq::empty()
    } else {
        fuse_blocks(bl.drop_last()) + fuse_spec(body_v(bl.last().ir@), bl.last().ir@.len() as int)
    }
}

/// Copy elimination: quadruple fusion, then forward propagation of assignments.
pub fn copy_eliminate(body: &[Ssa]) -> (r: Vec<Ssa>)
    ensures
        exists|mid: Seq<Ssa>| #[trigger] fused_result(body@, mid) && forwarded_result(mid, r@),
{
    let fused = copy_eliminate_quadriplets(body);
    let r = copy_eliminate_forward_assignments(&fused);
    proof {
        assert(fused_result(body@, fused@) && forwarded_result(fused@, r@));
    }
    r
}

/// `output` is quadruple fusion of `input`.
pub open spec fn fused_result(input: Seq<Ssa>, output: Seq<Ssa>) -> bool {
    exists|g: ControlFlowGraph| g.graph_of(input) && body_v(output) == fuse_blocks(g.blocks_spec())
}

/// `output` is forward propagation of `input`.
pub open spec fn forwarded_result(input: Seq<Ssa>, output: Seq<Ssa>) -> bool {
    exists|g: ControlFlowGraph| g.graph_of(input) && body_v(output) == forward_blocks(g.blocks_spec())
}

} // verus!
