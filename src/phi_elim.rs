use vstd::prelude::*;
use crate::nodes::{body_v, duplicate_params, AddrV, Address, FunctionParameter, LabelV, ParamV, Quadriplet, Ssa, SsaV};
use crate::common::Width;

verus! {

/// A source variable at version 0; any other address unchanged.
pub open spec fn zero_addr(a: AddrV) -> AddrV {
    match a {
        AddrV::Source(n, _) => AddrV::Source(n, 0),
        _ => a,
    }
}

pub open spec fn zero_opt(a: Option<AddrV>) -> Option<AddrV> {
    match a {
        Some(x) => Some(zero_addr(x)),
        None => None,
    }
}

pub open spec fn zero_pair(a: Option<(AddrV, Width)>) -> Option<(AddrV, Width)> {
    match a {
        Some(x) => Some((zero_addr(x.0), x.1)),
        None => None,
    }
}

pub open spec fn zero_param(p: ParamV) -> ParamV {
    ParamV { number: p.number, value: zero_addr(p.value), width: p.width, is_variadic: p.is_variadic }
}

/// A statement with every source variable it names collapsed to version 0.
pub open spec fn zero_ssa(s: SsaV) -> SsaV {
    match s {
        SsaV::Quad { width, dest, op, left, right } => SsaV::Quad {
            width,
            dest: zero_addr(dest),
            op,
            left: zero_addr(left),
            right: zero_opt(right),
        },
        SsaV::Assign { dest, source, width } => SsaV::Assign {
            dest: zero_addr(dest),
            source: zero_addr(source),
            width,
        },
        SsaV::Call { parameters, dest, func, num_params } => SsaV::Call {
            parameters: parameters.map_values(|p: ParamV| zero_param(p)),
            dest: zero_pair(dest),
            func: zero_addr(func),
            num_params,
        },
        SsaV::Return { value } => SsaV::Return { value: zero_pair(value) },
        SsaV::Branch { width, cond, true_target, false_target } => SsaV::Branch {
            width,
            cond: zero_addr(cond),
            true_target,
            false_target,
        },
        _ => s,
    }
}

/// A body with its φ statements dropped and every version collapsed to 0.
pub open spec fn eliminate_phi_spec(s: Seq<SsaV>) -> Seq<SsaV>
    decreases s.len(),
{
    if s.len() == 0 {
        s
    } else if s.last() is Phi {
        eliminate_phi_spec(s.drop_last())
    } else {
        eliminate_phi_spec(s.drop_last()).push(zero_ssa(s.last()))
    }
}

fn zero_address(a: &Address) -> (r: Address)
    ensures
        r.deep_view() == zero_addr(a.deep_view()),
{
    match a {
        Address::Source(n, _) => Address::Source(n.clone(), 0),
        _ => a.duplicate(),
    }
}

fn zero_opt_pair(a: &Option<(Address, Width)>) -> (r: Option<(Address, Width)>)
    ensures
        crate::nodes::opt_pair_v(r) == zero_pair(crate::nodes::opt_pair_v(*a)),
{
    match a {
        Some((x, w)) => Some((zero_address(x), *w)),
        None => None,
    }
}

fn zero_parameters(ps: &Vec<FunctionParameter>) -> (r: Vec<FunctionParameter>)
    ensures
        crate::nodes::params_v(r@) == crate::nodes::params_v(ps@).map_values(|p: ParamV| zero_param(p)),
{
    let mut out: Vec<FunctionParameter> = Vec::new();
    let mut i: usize = 0;
    while i < ps.len()
        invariant
            i <= ps@.len(),
            out@.len() == i,
            forall|j: int| 0 <= j < i ==> crate::nodes::param_v(#[trigger] out@[j]) == zero_param(crate::nodes::param_v(ps@[j])),
        decreases ps@.len() - i,
    {
        let p = &ps[i];
        out.push(FunctionParameter {
            number: p.number,
            value: zero_address(&p.value),
            width: p.width,
            is_variadic: p.is_variadic,
        });
        i += 1;
    }
    assert(crate::nodes::params_v(out@) =~= crate::nodes::params_v(ps@).map_values(|p: ParamV| zero_param(p)));
    out
}

fn zero_source_variables(ssa: &Ssa) -> (r: Ssa)
    ensures
        r.deep_view() == zero_ssa(ssa.deep_view()),
{
    match ssa {
        Ssa::Assignment { dest, source, width } => Ssa::Assignment {
            dest: zero_address(dest),
            source: zero_address(source),
            width: *width,
        },
        Ssa::Call { parameters, dest, func, num_params } => Ssa::Call {
            parameters: zero_parameters(parameters),
            dest: zero_opt_pair(dest),
            func: zero_address(func),
            num_params: *num_params,
        },
        Ssa::Branch { width, cond, true_target, false_target } => Ssa::Branch {
            width: *width,
            cond: zero_address(cond),
            true_target: true_target.duplicate(),
            false_target: false_target.duplicate(),
        },
        Ssa::Return { value } => Ssa::Return { value: zero_opt_pair(value) },
        Ssa::Quadriplet(q) => Ssa::Quadriplet(Quadriplet {
            width: q.width,
            dest: zero_address(&q.dest),
            op: q.op,
            left: zero_address(&q.left),
            right: match &q.right {
                Some(x) => Some(zero_address(x)),
                None => None,
            },
        }),
        _ => ssa.duplicate(),
    }
}

/// φ-elimination: drops every φ statement and collapses every source version to 0.
pub fn eliminate_phi_body(body: &[Ssa]) -> (r: Vec<Ssa>)
    ensures
        body_v(r@) == eliminate_phi_spec(body_v(body@)),
{
    let mut out: Vec<Ssa> = Vec::new();
    let mut i: usize = 0;
    while i < body.len()
        invariant
            i <= body@.len(),
            body_v(out@) == eliminate_phi_spec(body_v(body@).subrange(0, i as int)),
        decreases body@.len() - i,
    {
        let ghost pre = body_v(body@).subrange(0, i as int);
        let ghost next = body_v(body@).subrange(0, i + 1);
        proof {
            assert(next.drop_last() =~= pre);
            assert(next.last() == body@[i as int].deep_view());
        }
        if !matches!(body[i], Ssa::Phi(_)) {
            let z = zero_source_variables(&body[i]);
            let ghost prev = out@;
            out.push(z);
            proof {
                assert(body_v(out@) =~= body_v(prev).push(z.deep_view()));
            }
        }
        i += 1;
    }
    proof {
        assert(body_v(body@).subrange(0, body@.len() as int) =~= body_v(body@));
    }
    out
}

/// After φ-elimination no φ statement and no non-zero version remains.
pub proof fn eliminated_is_phi_free(s: Seq<SsaV>)
    ensures
        forall|j: int| 0 <= j < eliminate_phi_spec(s).len() ==> !(#[trigger] eliminate_phi_spec(s)[j] is Phi),
        forall|j: int| 0 <= j < eliminate_phi_spec(s).len() ==> zero_ssa(#[trigger] eliminate_phi_spec(s)[j]) == eliminate_phi_spec(s)[j],
    decreases s.len(),
{
    if s.len() > 0 {
        eliminated_is_phi_free(s.drop_last());
        if !(s.last() is Phi) {
            lemma_zero_idempotent(s.last());
        }
    }
}

proof fn lemma_zero_idempotent(s: SsaV)
    ensures
        zero_ssa(zero_ssa(s)) == zero_ssa(s),
{
    if let SsaV::Call { parameters, dest, func, num_params } = s {
        let once = parameters.map_values(|p: ParamV| zero_param(p));
        assert(once.map_values(|p: ParamV| zero_param(p)) =~= once);
    }
}

/// φ-elimination is idempotent: running it on its own output changes nothing.
pub proof fn eliminate_phi_idempotent(s: Seq<SsaV>)
    ensures
        eliminate_phi_spec(eliminate_phi_spec(s)) == eliminate_phi_spec(s),
{
    eliminated_is_phi_free(s);
    lemma_fixed_point(eliminate_phi_spec(s));
}

proof fn lemma_fixed_point(t: Seq<SsaV>)
    requires
        forall|j: int| 0 <= j < t.len() ==> !(#[trigger] t[j] is Phi),
        forall|j: int| 0 <= j < t.len() ==> zero_ssa(#[trigger] t[j]) == t[j],
    ensures
        eliminate_phi_spec(t) == t,
    decreases t.len(),
{
    if t.len() > 0 {
        let d = t.drop_last();
        assert forall|j: int| 0 <= j < d.len() implies !(#[trigger] d[j] is Phi) by {
            assert(d[j] == t[j]);
        }
        assert forall|j: int| 0 <= j < d.len() implies zero_ssa(#[trigger] d[j]) == d[j] by {
            assert(d[j] == t[j]);
        }
        lemma_fixed_point(d);
        assert(t.last() == t[t.len() - 1]);
        assert(d.push(t.last()) =~= t);
    }
}

} // verus!
