use vstd::prelude::*;
use crate::blocks::{block_bounds, is_block_split, lemma_bound_within};
use crate::nodes::{apply_spec, body_v, extend_body, is_cmp_spec, AddrV, Address, AddressConstant, Op, Ssa, SsaV};

verus! {

/// Constants known so far in a block: later entries shadow earlier ones.
pub type ConstEnv = Seq<(AddrV, i64)>;

pub open spec fn env_v(v: Seq<(Address, i64)>) -> ConstEnv {
    v.map_values(|e: (Address, i64)| (e.0.deep_view(), e.1))
}

/// The latest constant recorded for `k`.
pub open spec fn lookup_env(env: ConstEnv, k: AddrV) -> Option<i64>
    decreases env.len(),
{
    if env.len() == 0 {
        None
    } else if env.last().0 == k {
        Some(env.last().1)
    } else {
        lookup_env(env.drop_last(), k)
    }
}

/// The constant value of an operand: a numeric literal, or a recorded constant.
pub open spec fn known(env: ConstEnv, a: AddrV) -> Option<i64> {
    match a {
        AddrV::Num(n) => Some(n),
        _ => lookup_env(env, a),
    }
}

/// One step of block-local constant folding.
pub open spec fn fold_step(env: ConstEnv, s: SsaV) -> (ConstEnv, SsaV) {
    match s {
        SsaV::Assign { dest, source, width } => match known(env, source) {
            Some(c) => (env.push((dest, c)), SsaV::Assign { dest, source: AddrV::Num(c), width }),
            None => (env, s),
        },
        SsaV::Quad { width, dest, op, left, right: Some(r) } => {
            match (known(env, left), known(env, r)) {
                (Some(l), Some(rv)) => match apply_spec(op, l, rv) {
                    Some(c) => (env.push((dest, c)), SsaV::Assign { dest, source: AddrV::Num(c), width }),
                    None => (env, s),
                },
                _ => (env, s),
            }
        },
        SsaV::Return { value: Some((a, w)) } => match known(env, a) {
            Some(c) => (env, SsaV::Return { value: Some((AddrV::Num(c), w)) }),
            None => (env, s),
        },
        SsaV::Branch { width, cond, true_target, false_target } => match known(env, cond) {
            Some(c) => (env, SsaV::Branch { width, cond: AddrV::Num(c), true_target, false_target }),
            None => (env, s),
        },
        _ => (env, s),
    }
}

/// Constant folding of one block, with the constants known at its end.
pub open spec fn fold_block_spec(s: Seq<SsaV>) -> (ConstEnv, Seq<SsaV>)
    decreases s.len(),
{
    if s.len() == 0 {
        (Seq::empty(), Seq::empty())
    } else {
        let (e, o) = fold_block_spec(s.drop_last());
        let (e2, x) = fold_step(e, s.last());
        (e2, o.push(x))
    }
}

/// Constant folding of each block of `ir`, as cut by `bs`, concatenated.
pub open spec fn fold_blocks(ir: Seq<SsaV>, bs: Seq<(usize, usize)>) -> Seq<SsaV>
    decreases bs.len(),
{
    if bs.len() == 0 {
        Seq::empty()
    } else {
        fold_blocks(ir, bs.drop_last()) + fold_block_spec(ir.subrange(bs.last().0 as int, bs.last().1 as int)).1
    }
}

/// Folding a quadruple whose operands are both known constants yields an
/// assignment of the constant that the operator computes; a comparison gives 0 or 1.
pub proof fn folding_is_sound(env: ConstEnv, s: SsaV, l: i64, r: i64)
    requires
        s is Quad,
        s->Quad_right is Some,
        known(env, s->Quad_left) == Some(l),
        known(env, s->Quad_right->0) == Some(r),
        apply_spec(s->Quad_op, l, r) is Some,
    ensures
        fold_step(env, s).1 == (SsaV::Assign {
            dest: s->Quad_dest,
            source: AddrV::Num(apply_spec(s->Quad_op, l, r)->0),
            width: s->Quad_width,
        }),
        is_cmp_spec(s->Quad_op) ==> (apply_spec(s->Quad_op, l, r) == Some(0i64)
            || apply_spec(s->Quad_op, l, r) == Some(1i64)),
{
}

fn lookup_constant(env: &Vec<(Address, i64)>, k: &Address) -> (r: Option<i64>)
    ensures
        r == lookup_env(env_v(env@), k.deep_view()),
{
    let mut i: usize = env.len();
    proof {
        assert(env@.subrange(0, i as int) =~= env@);
    }
    while i > 0
        invariant
            i <= env@.len(),
            lookup_env(env_v(env@), k.deep_view()) == lookup_env(env_v(env@.subrange(0, i as int)), k.deep_view()),
        decreases i,
    {
        let ghost pre = env_v(env@.subrange(0, i as int));
        proof {
            assert(pre.drop_last() =~= env_v(env@.subrange(0, i - 1)));
            assert(pre.last() == (env@[i - 1].0.deep_view(), env@[i - 1].1));
        }
        if env[i - 1].0.same(k) {
            return Some(env[i - 1].1);
        }
        i -= 1;
    }
    proof {
        assert(env_v(env@.subrange(0, 0)) =~= Seq::<(AddrV, i64)>::empty());
    }
    None
}

fn known_constant(env: &Vec<(Address, i64)>, a: &Address) -> (r: Option<i64>)
    ensures
        r == known(env_v(env@), a.deep_view()),
{
    match a {
        Address::Constant(AddressConstant::Numeric(n)) => Some(*n),
        _ => lookup_constant(env, a),
    }
}

fn record(env: &mut Vec<(Address, i64)>, a: &Address, c: i64)
    ensures
        env_v(final(env)@) == env_v(old(env)@).push((a.deep_view(), c)),
{
    let d = a.duplicate();
    env.push((d, c));
    proof {
        assert(env_v(final(env)@) =~= env_v(old(env)@).push((a.deep_view(), c)));
    }
}

fn fold_statement(env: &mut Vec<(Address, i64)>, s: &Ssa) -> (r: Ssa)
    ensures
        (env_v(final(env)@), r.deep_view()) == fold_step(env_v(old(env)@), s.deep_view()),
{
    match s {
        Ssa::Assignment { dest, source, width } => {
            match known_constant(env, source) {
                Some(c) => {
                    record(env, dest, c);
                    Ssa::Assignment { dest: dest.duplicate(), source: Address::constant_i64(c), width: *width }
                },
                None => s.duplicate(),
            }
        },
        Ssa::Quadriplet(q) => {
            match &q.right {
                Some(right) => {
                    let l = known_constant(env, &q.left);
                    let rv = known_constant(env, right);
                    match (l, rv) {
                        (Some(l), Some(rv)) => match q.op.apply_constant(l, rv) {
                            Some(c) => {
                                record(env, &q.dest, c);
                                Ssa::Assignment { dest: q.dest.duplicate(), source: Address::constant_i64(c), width: q.width }
                            },
                            None => s.duplicate(),
                        },
                        _ => s.duplicate(),
                    }
                },
                None => s.duplicate(),
            }
        },
        Ssa::Return { value } => {
            match value {
                Some((a, w)) => match known_constant(env, a) {
                    Some(c) => Ssa::Return { value: Some((Address::constant_i64(c), *w)) },
                    None => s.duplicate(),
                },
                None => s.duplicate(),
            }
        },
        Ssa::Branch { width, cond, true_target, false_target } => {
            match known_constant(env, cond) {
                Some(c) => Ssa::Branch {
                    width: *width,
                    cond: Address::constant_i64(c),
                    true_target: true_target.duplicate(),
                    false_target: false_target.duplicate(),
                },
                None => s.duplicate(),
            }
        },
        _ => s.duplicate(),
    }
}

/// Folds constants in one block.
pub fn fold_constants_block(block: &[Ssa]) -> (r: Vec<Ssa>)
    ensures
        body_v(r@) == fold_block_spec(body_v(block@)).1,
{
    let mut env: Vec<(Address, i64)> = Vec::new();
    let mut out: Vec<Ssa> = Vec::new();
    let mut i: usize = 0;
    while i < block.len()
        invariant
            i <= block@.len(),
            (env_v(env@), body_v(out@)) == fold_block_spec(body_v(block@).subrange(0, i as int)),
        decreases block@.len() - i,
    {
        let ghost next = body_v(block@).subrange(0, i + 1);
        proof {
            assert(next.drop_last() =~= body_v(block@).subrange(0, i as int));
            assert(next.last() == block@[i as int].deep_view());
        }
        let x = fold_statement(&mut env, &block[i]);
        let ghost prev = out@;
        out.push(x);
        proof {
            assert(body_v(out@) =~= body_v(prev).push(x.deep_view()));
        }
        i += 1;
    }
    proof {
        assert(body_v(block@).subrange(0, block@.len() as int) =~= body_v(block@));
    }
    out
}

/// Block-local constant folding over a whole function body.
pub fn fold_constants(body: &[Ssa]) -> (r: Vec<Ssa>)
    ensures
        exists|bs: Seq<(usize, usize)>| is_block_split(body@, bs) && body_v(r@) == fold_blocks(body_v(body@), bs),
{
    let bounds = block_bounds(body);
    let mut out: Vec<Ssa> = Vec::new();
    let mut k: usize = 0;
    while k < bounds.len()
        invariant
            is_block_split(body@, bounds@),
            k <= bounds@.len(),
            body_v(out@) == fold_blocks(body_v(body@), bounds@.subrange(0, k as int)),
        decreases bounds@.len() - k,
    {
        let (s, e) = bounds[k];
        proof {
            lemma_bound_within(body@, bounds@, k as int);
        }
        let folded = fold_constants_block(&body[s..e]);
        extend_body(&mut out, &folded);
        proof {
            assert(body@.subrange(s as int, e as int) == body@.subrange(s as int, e as int));
            assert(body_v(body@.subrange(s as int, e as int)) =~= body_v(body@).subrange(s as int, e as int));
            let bk = bounds@.subrange(0, k + 1);
            assert(bk.drop_last() =~= bounds@.subrange(0, k as int));
            assert(bk.last() == bounds@[k as int]);
        }
        k += 1;
    }
    proof {
        assert(bounds@.subrange(0, bounds@.len() as int) =~= bounds@);
    }
    out
}

} // verus!
