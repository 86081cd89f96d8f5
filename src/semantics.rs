use vstd::prelude::*;
use crate::nodes::{apply_spec, AddrV, SsaV};
use crate::phi_elim::{eliminate_phi_spec, zero_addr, zero_ssa};

verus! {

/// Values of the addresses defined so far.
pub type Env = Map<AddrV, i64>;

/// The value of an operand: a numeric constant, or what `env` holds for it.
pub open spec fn value_of(env: Env, a: AddrV) -> Option<i64> {
    match a {
        AddrV::Num(n) => Some(n),
        AddrV::Str(_) => None,
        _ => if env.contains_key(a) { Some(env[a]) } else { None },
    }
}

/// A straight-line body: labels, assignments, quadruples and returns only.
pub open spec fn straight_line(b: Seq<SsaV>) -> bool {
    forall|i: int| 0 <= i < b.len() ==> (#[trigger] b[i] is Label || b[i] is Assign || b[i] is Quad || b[i] is Return)
}

/// Runs a straight-line body from `env`: `Some(r)` when it ends, with the value
/// returned (`None` when it falls off the end or returns nothing); `None` when it
/// reads an undefined value, divides by zero, or meets control flow.
pub open spec fn run(b: Seq<SsaV>, env: Env) -> Option<Option<i64>>
    decreases b.len(),
{
    if b.len() == 0 {
        Some(None)
    } else {
        let rest = b.drop_first();
        match b[0] {
            SsaV::Label(_) => run(rest, env),
            SsaV::Assign { dest, source, .. } => match value_of(env, source) {
                Some(x) => run(rest, env.insert(dest, x)),
                None => None,
            },
            SsaV::Quad { dest, op, left, right: Some(r), .. } => match (value_of(env, left), value_of(env, r)) {
                (Some(l), Some(rv)) => match apply_spec(op, l, rv) {
                    Some(c) => run(rest, env.insert(dest, c)),
                    None => None,
                },
                _ => None,
            },
            SsaV::Return { value: Some((a, _)) } => match value_of(env, a) {
                Some(x) => Some(Some(x)),
                None => None,
            },
            SsaV::Return { value: None } => Some(None),
            _ => None,
        }
    }
}

/// The operands a statement reads.
pub open spec fn operands(s: SsaV) -> Seq<AddrV> {
    match s {
        SsaV::Assign { source, .. } => seq![source],
        SsaV::Quad { left, right: Some(r), .. } => seq![left, r],
        SsaV::Quad { left, right: None, .. } => seq![left],
        SsaV::Return { value: Some((a, _)) } => seq![a],
        _ => seq![],
    }
}

/// Every source variable that `s` reads is at the version last defined, when one was.
pub open spec fn reads_latest(s: SsaV, last: Map<Seq<char>, usize>) -> bool {
    forall|i: int| 0 <= i < operands(s).len() && (#[trigger] operands(s)[i]) is Source && last.contains_key(operands(s)[i]->Source_0)
        ==> operands(s)[i]->Source_1 == last[operands(s)[i]->Source_0]
}

/// The last version defined of each variable, after `s`.
pub open spec fn after_def(last: Map<Seq<char>, usize>, s: SsaV) -> Map<Seq<char>, usize> {
    match s.defined() {
        Some(AddrV::Source(n, v)) => last.insert(n, v),
        _ => last,
    }
}

/// Each statement of `b` reads every variable at its latest version.
pub open spec fn reads_latest_all(b: Seq<SsaV>, last: Map<Seq<char>, usize>) -> bool
    decreases b.len(),
{
    if b.len() == 0 {
        true
    } else {
        reads_latest(b[0], last) && reads_latest_all(b.drop_first(), after_def(last, b[0]))
    }
}

/// `env2` is `env` with each variable collapsed to its latest version.
pub open spec fn collapsed(env: Env, env2: Env, last: Map<Seq<char>, usize>) -> bool {
    &&& forall|t: usize| #[trigger] env.contains_key(AddrV::Temp(t)) == env2.contains_key(AddrV::Temp(t))
    &&& forall|t: usize| env.contains_key(AddrV::Temp(t)) ==> #[trigger] env[AddrV::Temp(t)] == env2[AddrV::Temp(t)]
    &&& forall|n: Seq<char>| #[trigger] env2.contains_key(AddrV::Source(n, 0)) <==> last.contains_key(n)
    &&& forall|n: Seq<char>| #[trigger] last.contains_key(n) ==> env.contains_key(AddrV::Source(n, last[n]))
        && env[AddrV::Source(n, last[n])] == env2[AddrV::Source(n, 0)]
    &&& forall|n: Seq<char>, v: usize| #[trigger] env.contains_key(AddrV::Source(n, v)) ==> last.contains_key(n)
}

proof fn lemma_value_collapsed(env: Env, env2: Env, last: Map<Seq<char>, usize>, a: AddrV)
    requires
        collapsed(env, env2, last),
        a is Source && last.contains_key(a->Source_0) ==> a->Source_1 == last[a->Source_0],
    ensures
        value_of(env2, zero_addr(a)) == value_of(env, a),
{
    match a {
        AddrV::Source(n, v) => {
            if last.contains_key(n) {
                assert(env2.contains_key(AddrV::Source(n, 0)));
            } else {
                assert(!env2.contains_key(AddrV::Source(n, 0)));
                assert(!env.contains_key(AddrV::Source(n, v)));
            }
        },
        AddrV::Temp(t) => {
            assert(env.contains_key(AddrV::Temp(t)) == env2.contains_key(AddrV::Temp(t)));
        },
        _ => {},
    }
}

proof fn lemma_collapsed_insert(env: Env, env2: Env, last: Map<Seq<char>, usize>, d: AddrV, x: i64)
    requires
        collapsed(env, env2, last),
    ensures
        collapsed(env.insert(d, x), env2.insert(zero_addr(d), x), after_def(last, SsaV::Assign { dest: d, source: AddrV::Num(0), width: crate::common::Width::Word })),
{
    let e1 = env.insert(d, x);
    let e2 = env2.insert(zero_addr(d), x);
    let l1 = after_def(last, SsaV::Assign { dest: d, source: AddrV::Num(0), width: crate::common::Width::Word });
    match d {
        AddrV::Source(n, v) => {
            assert(l1 == last.insert(n, v));
            assert forall|m: Seq<char>| #[trigger] l1.contains_key(m) implies e1.contains_key(AddrV::Source(m, l1[m]))
                && e1[AddrV::Source(m, l1[m])] == e2[AddrV::Source(m, 0)] by {
                if m != n {
                    assert(AddrV::Source(m, l1[m]) != AddrV::Source(n, v));
                    assert(AddrV::Source(m, 0) != AddrV::Source(n, 0));
                }
            }
            assert forall|m: Seq<char>| #[trigger] e2.contains_key(AddrV::Source(m, 0)) <==> l1.contains_key(m) by {
                if m != n {
                    assert(AddrV::Source(m, 0) != AddrV::Source(n, 0));
                }
            }
        },
        _ => {
            assert(l1 == last);
            assert forall|m: Seq<char>| #[trigger] l1.contains_key(m) implies e1.contains_key(AddrV::Source(m, l1[m]))
                && e1[AddrV::Source(m, l1[m])] == e2[AddrV::Source(m, 0)] by {
                assert(AddrV::Source(m, l1[m]) != d);
                assert(AddrV::Source(m, 0) != zero_addr(d));
            }
            assert forall|m: Seq<char>| #[trigger] e2.contains_key(AddrV::Source(m, 0)) <==> l1.contains_key(m) by {
                assert(AddrV::Source(m, 0) != zero_addr(d));
            }
        },
    }
}

/// Statement `s` as seen by the collapse: the same kind of step.
proof fn lemma_step(s: SsaV, rest: Seq<SsaV>, env: Env, env2: Env, last: Map<Seq<char>, usize>)
    requires
        collapsed(env, env2, last),
        s is Label || s is Assign || s is Quad || s is Return,
        reads_latest(s, last),
        reads_latest_all(rest, after_def(last, s)),
        straight_line(rest),
    ensures
        run(seq![zero_ssa(s)] + rest.map_values(|x: SsaV| zero_ssa(x)), env2) == run(seq![s] + rest, env),
    decreases rest.len(), 2nat,
{
    let b = seq![s] + rest;
    let b2 = seq![zero_ssa(s)] + rest.map_values(|x: SsaV| zero_ssa(x));
    assert(b.drop_first() =~= rest);
    assert(b2.drop_first() =~= rest.map_values(|x: SsaV| zero_ssa(x)));
    assert(b[0] == s);
    assert(b2[0] == zero_ssa(s));
    match s {
        SsaV::Label(_) => {
            lemma_run_collapsed(rest, env, env2, last);
        },
        SsaV::Assign { dest, source, width } => {
            assert(operands(s)[0] == source);
            lemma_value_collapsed(env, env2, last, source);
            if let Some(x) = value_of(env, source) {
                lemma_collapsed_insert(env, env2, last, dest, x);
                assert(after_def(last, s) == after_def(last, SsaV::Assign { dest, source: AddrV::Num(0), width: crate::common::Width::Word }));
                lemma_run_collapsed(rest, env.insert(dest, x), env2.insert(zero_addr(dest), x), after_def(last, s));
            }
        },
        SsaV::Quad { width, dest, op, left, right } => {
            assert(operands(s)[0] == left);
            lemma_value_collapsed(env, env2, last, left);
            if let Some(r) = right {
                assert(operands(s)[1] == r);
                lemma_value_collapsed(env, env2, last, r);
                if let (Some(l), Some(rv)) = (value_of(env, left), value_of(env, r)) {
                    if let Some(c) = apply_spec(op, l, rv) {
                        lemma_collapsed_insert(env, env2, last, dest, c);
                        assert(after_def(last, s) == after_def(last, SsaV::Assign { dest, source: AddrV::Num(0), width: crate::common::Width::Word }));
                        lemma_run_collapsed(rest, env.insert(dest, c), env2.insert(zero_addr(dest), c), after_def(last, s));
                    }
                }
            }
        },
        SsaV::Return { value } => {
            if let Some((a, w)) = value {
                assert(operands(s)[0] == a);
                lemma_value_collapsed(env, env2, last, a);
            }
        },
        _ => {},
    }
}

proof fn lemma_run_collapsed(b: Seq<SsaV>, env: Env, env2: Env, last: Map<Seq<char>, usize>)
    requires
        collapsed(env, env2, last),
        straight_line(b),
        reads_latest_all(b, last),
    ensures
        run(b.map_values(|x: SsaV| zero_ssa(x)), env2) == run(b, env),
    decreases b.len(), 1nat,
{
    if b.len() > 0 {
        let rest = b.drop_first();
        assert(b =~= seq![b[0]] + rest);
        assert(b.map_values(|x: SsaV| zero_ssa(x)) =~= seq![zero_ssa(b[0])] + rest.map_values(|x: SsaV| zero_ssa(x)));
        assert(straight_line(rest)) by {
            assert forall|i: int| 0 <= i < rest.len() implies (#[trigger] rest[i] is Label || rest[i] is Assign || rest[i] is Quad || rest[i] is Return) by {
                assert(rest[i] == b[i + 1]);
            }
        }
        assert(b[0] is Label || b[0] is Assign || b[0] is Quad || b[0] is Return);
        lemma_step(b[0], rest, env, env2, last);
    } else {
        assert(b.map_values(|x: SsaV| zero_ssa(x)) =~= b);
    }
}

proof fn lemma_elim_is_map(b: Seq<SsaV>)
    requires
        straight_line(b),
    ensures
        eliminate_phi_spec(b) == b.map_values(|x: SsaV| zero_ssa(x)),
    decreases b.len(),
{
    if b.len() > 0 {
        let d = b.drop_last();
        assert(straight_line(d)) by {
            assert forall|i: int| 0 <= i < d.len() implies (#[trigger] d[i] is Label || d[i] is Assign || d[i] is Quad || d[i] is Return) by {
                assert(d[i] == b[i]);
            }
        }
        lemma_elim_is_map(d);
        assert(b.last() == b[b.len() - 1]);
        assert(!(b.last() is Phi));
        assert(b.map_values(|x: SsaV| zero_ssa(x)) =~= d.map_values(|x: SsaV| zero_ssa(x)).push(zero_ssa(b.last())));
    } else {
        assert(b.map_values(|x: SsaV| zero_ssa(x)) =~= b);
    }
}

/// φ-elimination keeps what a straight-line body returns, when every variable is
/// read at the version most recently defined (as the SSA builder emits it).
pub proof fn phi_elimination_preserves_straight_line(b: Seq<SsaV>)
    requires
        straight_line(b),
        reads_latest_all(b, Map::empty()),
    ensures
        run(eliminate_phi_spec(b), Map::empty()) == run(b, Map::empty()),
{
    lemma_elim_is_map(b);
    let e = Map::<AddrV, i64>::empty();
    assert(collapsed(e, e, Map::empty()));
    lemma_run_collapsed(b, e, e, Map::empty());
}

} // verus!
