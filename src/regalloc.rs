use vstd::prelude::*;
use crate::common::Width;
use crate::instructions::{Register, RegisterKind};
use crate::nodes::{addrs_v, body_v, AddrV, Address, ParamV, Ssa, SsaV};

verus! {

broadcast use vstd::seq_lib::lemma_seq_contains_after_push;

/// The non-constant operands a statement reads or writes.
pub open spec fn alive(s: SsaV) -> Seq<AddrV> {
    match s {
        SsaV::Assign { dest, source, .. } => if source.is_const() { seq![dest] } else { seq![dest, source] },
        SsaV::Branch { cond, .. } => seq![cond],
        SsaV::Call { dest, func, parameters, .. } => {
            let d = match dest {
                Some(x) => seq![x.0],
                None => seq![],
            };
            let f = if func is Temp { seq![func] } else { seq![] };
            d + f + parameters.map_values(|p: ParamV| p.value)
        },
        SsaV::Quad { dest, left, right, .. } => {
            let l = seq![dest, left];
            match right {
                Some(r) => if r.is_const() { l } else { l.push(r) },
                None => l,
            }
        },
        SsaV::Return { value: Some((a, _)) } => if a.is_const() { seq![] } else { seq![a] },
        SsaV::Phi { dest, merging, .. } => seq![dest] + merging.map_values(|e: (AddrV, crate::nodes::LabelV)| e.0),
        _ => seq![],
    }
}

/// The operands of a statement that occupy a location while it runs.
pub fn alive_addresses_in_ssa(ssa: &Ssa) -> (r: Vec<Address>)
    ensures
        addrs_v(r@) == alive(ssa.deep_view()),
{
    let mut res: Vec<Address> = Vec::new();
    match ssa {
        Ssa::Assignment { dest, source, .. } => {
            res.push(dest.duplicate());
            if !source.is_constant() {
                res.push(source.duplicate());
            }
        },
        Ssa::Branch { cond, .. } => {
            res.push(cond.duplicate());
        },
        Ssa::Call { dest, func, parameters, .. } => {
            if let Some(d) = dest {
                res.push(d.0.duplicate());
            }
            if matches!(func, Address::CompilerTemp(_)) {
                res.push(func.duplicate());
            }
            let ghost pre = addrs_v(res@);
            let ghost ps = crate::nodes::params_v(parameters@);
            let mut i: usize = 0;
            while i < parameters.len()
                invariant
                    i <= parameters@.len(),
                    ps == crate::nodes::params_v(parameters@),
                    addrs_v(res@) =~= pre + ps.subrange(0, i as int).map_values(|p: ParamV| p.value),
                decreases parameters@.len() - i,
            {
                let ghost sub = ps.subrange(0, i + 1);
                proof {
                    assert(sub =~= ps.subrange(0, i as int).push(ps[i as int]));
                }
                let v = parameters[i].value.duplicate();
                let ghost prev = res@;
                res.push(v);
                proof {
                    assert(addrs_v(res@) =~= addrs_v(prev).push(v.deep_view()));
                    assert(ps[i as int].value == v.deep_view());
                    assert(sub.map_values(|p: ParamV| p.value) =~= ps.subrange(0, i as int).map_values(|p: ParamV| p.value).push(v.deep_view()));
                }
                i += 1;
            }
            proof {
                assert(ps.subrange(0, parameters@.len() as int) =~= ps);
            }
        },
        Ssa::Quadriplet(q) => {
            res.push(q.dest.duplicate());
            res.push(q.left.duplicate());
            if let Some(r) = &q.right {
                if !r.is_constant() {
                    res.push(r.duplicate());
                }
            }
        },
        Ssa::Return { value } => {
            if let Some((a, _)) = value {
                if !a.is_constant() {
                    res.push(a.duplicate());
                }
            }
        },
        Ssa::Phi(p) => {
            res.push(p.dest.duplicate());
            let ghost pre = addrs_v(res@);
            let ghost mv = crate::nodes::merging_v(p.merging@);
            let mut i: usize = 0;
            while i < p.merging.len()
                invariant
                    i <= p.merging@.len(),
                    mv == crate::nodes::merging_v(p.merging@),
                    addrs_v(res@) =~= pre + mv.subrange(0, i as int).map_values(|e: (AddrV, crate::nodes::LabelV)| e.0),
                decreases p.merging@.len() - i,
            {
                let v = p.merging[i].0.duplicate();
                let ghost prev = res@;
                res.push(v);
                proof {
                    assert(addrs_v(res@) =~= addrs_v(prev).push(v.deep_view()));
                    assert(mv.subrange(0, i + 1) =~= mv.subrange(0, i as int).push(mv[i as int]));
                }
                i += 1;
            }
            proof {
                assert(mv.subrange(0, p.merging@.len() as int) =~= mv);
            }
        },
        _ => {},
    }
    proof {
        assert(addrs_v(res@) =~= alive(ssa.deep_view()));
    }
    res
}

/// The span of statement indices over which a value is live, both ends included.
#[derive(Debug, Clone, Copy, PartialEq, Eq, Structural)]
pub struct Lifetime {
    pub start: usize,
    pub end: usize,
}

pub open spec fn intersects_spec(a: Lifetime, b: Lifetime) -> bool {
    a.start <= b.end && b.start <= a.end
}

impl Lifetime {
    pub fn intersects(&self, other: &Lifetime) -> (r: bool)
        ensures
            r == intersects_spec(*self, *other),
    {
        self.start <= other.end && other.start <= self.end
    }
}

/// `a` is a source variable named in `params`.
pub open spec fn is_param(params: Seq<String>, a: AddrV) -> bool {
    a is Source && exists|i: int| 0 <= i < params.len() && #[trigger] params[i]@ == a->Source_0
}

/// `a` occupies a location at statement `i` of `b`.
pub open spec fn occurs(b: Seq<SsaV>, a: AddrV, i: int) -> bool {
    0 <= i < b.len() && alive(b[i]).contains(a)
}

/// `lt` spans from the first to the last statement of `b` at which `a` occurs.
pub open spec fn is_lifetime(b: Seq<SsaV>, a: AddrV, lt: Lifetime) -> bool {
    &&& lt.start <= lt.end
    &&& occurs(b, a, lt.start as int)
    &&& occurs(b, a, lt.end as int)
    &&& forall|t: int| 0 <= t < lt.start ==> !#[trigger] occurs(b, a, t)
    &&& forall|t: int| lt.end < t < b.len() ==> !#[trigger] occurs(b, a, t)
}

fn is_parameter(params: &[String], a: &Address) -> (r: bool)
    ensures
        r == is_param(params@, a.deep_view()),
{
    match a {
        Address::Source(n, _) => {
            let mut i: usize = 0;
            while i < params.len()
                invariant
                    i <= params@.len(),
                    a.deep_view() is Source,
                    a.deep_view()->Source_0 == n@,
                    forall|t: int| 0 <= t < i ==> params@[t]@ != a.deep_view()->Source_0,
                decreases params@.len() - i,
            {
                let eq = params[i] == *n;
                proof {
                    assert(eq == (params@[i as int]@ == n@));
                }
                if eq {
                    return true;
                }
                i += 1;
            }
            false
        },
        _ => false,
    }
}

fn find_entry(entries: &Vec<(Address, Lifetime)>, a: &Address) -> (r: Option<usize>)
    ensures
        match r {
            Some(k) => k < entries@.len() && entries@[k as int].0.deep_view() == a.deep_view(),
            None => forall|k: int| 0 <= k < entries@.len() ==> #[trigger] entries@[k].0.deep_view() != a.deep_view(),
        },
{
    let mut k: usize = 0;
    while k < entries.len()
        invariant
            k <= entries@.len(),
            forall|t: int| 0 <= t < k ==> #[trigger] entries@[t].0.deep_view() != a.deep_view(),
        decreases entries@.len() - k,
    {
        if entries[k].0.same(a) {
            return Some(k);
        }
        k += 1;
    }
    None
}

/// Entries are in order of their lifetimes' starts.
pub open spec fn sorted_by_start(s: Seq<(Address, Lifetime)>) -> bool {
    forall|k: int, m: int| 0 <= k < m < s.len() ==> (#[trigger] s[k]).1.start <= (#[trigger] s[m]).1.start
}

/// The lifetime of every non-parameter operand of a body, each listed once, in
/// order of first occurrence.
pub fn analyze_lifetimes(body: &[Ssa], parameters: &[String]) -> (r: Vec<(Address, Lifetime)>)
    ensures
        forall|k: int| 0 <= k < r@.len() ==> is_lifetime(body_v(body@), (#[trigger] r@[k]).0.deep_view(), r@[k].1),
        forall|k: int| 0 <= k < r@.len() ==> !is_param(parameters@, (#[trigger] r@[k]).0.deep_view()),
        forall|k: int, m: int| 0 <= k < m < r@.len() ==> (#[trigger] r@[k]).0.deep_view() != (#[trigger] r@[m]).0.deep_view(),
        forall|a: AddrV, i: int| #[trigger] occurs(body_v(body@), a, i) && !is_param(parameters@, a) ==>
            exists|k: int| 0 <= k < r@.len() && (#[trigger] r@[k]).0.deep_view() == a,
        sorted_by_start(r@),
{
    let ghost b = body_v(body@);
    let mut entries: Vec<(Address, Lifetime)> = Vec::new();
    let mut idx: usize = 0;
    while idx < body.len()
        invariant
            idx <= body@.len(),
            b == body_v(body@),
            forall|k: int| 0 <= k < entries@.len() ==> (#[trigger] entries@[k]).1.start <= entries@[k].1.end < idx,
            sorted_by_start(entries@),
            forall|k: int| 0 <= k < entries@.len() ==> occurs(b, (#[trigger] entries@[k]).0.deep_view(), entries@[k].1.start as int)
                && occurs(b, entries@[k].0.deep_view(), entries@[k].1.end as int),
            forall|k: int, t: int| 0 <= k < entries@.len() && 0 <= t < (#[trigger] entries@[k]).1.start ==> !#[trigger] occurs(b, entries@[k].0.deep_view(), t),
            forall|k: int, t: int| 0 <= k < entries@.len() && (#[trigger] entries@[k]).1.end < t < idx ==> !#[trigger] occurs(b, entries@[k].0.deep_view(), t),
            forall|k: int| 0 <= k < entries@.len() ==> !is_param(parameters@, (#[trigger] entries@[k]).0.deep_view()),
            forall|k: int, m: int| 0 <= k < m < entries@.len() ==> (#[trigger] entries@[k]).0.deep_view() != (#[trigger] entries@[m]).0.deep_view(),
            forall|a: AddrV, i: int| #[trigger] occurs(b, a, i) && i < idx && !is_param(parameters@, a) ==>
                exists|k: int| 0 <= k < entries@.len() && (#[trigger] entries@[k]).0.deep_view() == a,
        decreases body@.len() - idx,
    {
        let here = alive_addresses_in_ssa(&body[idx]);
        proof {
            assert(b[idx as int] == body@[idx as int].deep_view());
        }
        let mut j: usize = 0;
        while j < here.len()
            invariant
                idx < body@.len(),
                b == body_v(body@),
                addrs_v(here@) == alive(b[idx as int]),
                j <= here@.len(),
                forall|k: int| 0 <= k < entries@.len() ==> (#[trigger] entries@[k]).1.start <= entries@[k].1.end <= idx,
                sorted_by_start(entries@),
                forall|k: int| 0 <= k < entries@.len() ==> occurs(b, (#[trigger] entries@[k]).0.deep_view(), entries@[k].1.start as int)
                    && occurs(b, entries@[k].0.deep_view(), entries@[k].1.end as int),
                forall|k: int, t: int| 0 <= k < entries@.len() && 0 <= t < (#[trigger] entries@[k]).1.start ==> !#[trigger] occurs(b, entries@[k].0.deep_view(), t),
                forall|k: int, t: int| 0 <= k < entries@.len() && (#[trigger] entries@[k]).1.end < t < idx ==> !#[trigger] occurs(b, entries@[k].0.deep_view(), t),
                forall|k: int| 0 <= k < entries@.len() && entries@[k].1.end < idx ==> !addrs_v(here@).subrange(0, j as int).contains((#[trigger] entries@[k]).0.deep_view()),
                forall|k: int| 0 <= k < entries@.len() ==> !is_param(parameters@, (#[trigger] entries@[k]).0.deep_view()),
                forall|k: int, m: int| 0 <= k < m < entries@.len() ==> (#[trigger] entries@[k]).0.deep_view() != (#[trigger] entries@[m]).0.deep_view(),
                forall|a: AddrV, i: int| #[trigger] occurs(b, a, i) && i < idx && !is_param(parameters@, a) ==>
                    exists|k: int| 0 <= k < entries@.len() && (#[trigger] entries@[k]).0.deep_view() == a,
                forall|t: int| 0 <= t < j && !is_param(parameters@, addrs_v(here@)[t]) ==>
                    exists|k: int| 0 <= k < entries@.len() && (#[trigger] entries@[k]).0.deep_view() == #[trigger] addrs_v(here@)[t],
            decreases here@.len() - j,
        {
            let a = &here[j];
            proof {
                assert(addrs_v(here@)[j as int] == a.deep_view());
                assert(occurs(b, a.deep_view(), idx as int));
            }
            if !is_parameter(parameters, a) {
                match find_entry(&entries, a) {
                    Some(k) => {
                        let start = entries[k].1.start;
                        let ghost prev = entries@;
                        let d = a.duplicate();
                        entries.set(k, (d, Lifetime { start, end: idx }));
                        proof {
                            assert forall|kk: int| 0 <= kk < entries@.len() && kk != k implies #[trigger] entries@[kk] == prev[kk] by {}
                            assert forall|t: int| 0 <= t < j + 1 && !is_param(parameters@, addrs_v(here@)[t]) implies
                                exists|kk: int| 0 <= kk < entries@.len() && (#[trigger] entries@[kk]).0.deep_view() == #[trigger] addrs_v(here@)[t] by {
                                if t < j {
                                    let kk = choose|kk: int| 0 <= kk < prev.len() && (#[trigger] prev[kk]).0.deep_view() == addrs_v(here@)[t];
                                    if kk == k {
                                        assert(entries@[kk].0.deep_view() == addrs_v(here@)[t]);
                                    } else {
                                        assert(entries@[kk] == prev[kk]);
                                    }
                                } else {
                                    assert(entries@[k as int].0.deep_view() == addrs_v(here@)[t]);
                                }
                            }
                            assert forall|aa: AddrV, i: int| #[trigger] occurs(b, aa, i) && i < idx && !is_param(parameters@, aa) implies
                                exists|kk: int| 0 <= kk < entries@.len() && (#[trigger] entries@[kk]).0.deep_view() == aa by {
                                let kk = choose|kk: int| 0 <= kk < prev.len() && (#[trigger] prev[kk]).0.deep_view() == aa;
                                if kk == k {
                                    assert(entries@[kk].0.deep_view() == aa);
                                } else {
                                    assert(entries@[kk] == prev[kk]);
                                }
                            }
                            assert forall|kk: int| 0 <= kk < entries@.len() && entries@[kk].1.end < idx implies !addrs_v(here@).subrange(0, j + 1).contains((#[trigger] entries@[kk]).0.deep_view()) by {
                                assert(kk != k);
                                assert(entries@[kk] == prev[kk]);
                                assert(prev[kk].0.deep_view() != a.deep_view());
                                assert(addrs_v(here@).subrange(0, j + 1) =~= addrs_v(here@).subrange(0, j as int).push(a.deep_view()));
                            }
                        }
                    },
                    None => {
                        let d = a.duplicate();
                        let ghost prev = entries@;
                        entries.push((d, Lifetime { start: idx, end: idx }));
                        proof {
                            assert forall|t: int| 0 <= t < idx implies !#[trigger] occurs(b, a.deep_view(), t) by {
                                if occurs(b, a.deep_view(), t) && !is_param(parameters@, a.deep_view()) {
                                    let kk = choose|kk: int| 0 <= kk < prev.len() && (#[trigger] prev[kk]).0.deep_view() == a.deep_view();
                                }
                            }
                            assert forall|t: int| 0 <= t < j + 1 && !is_param(parameters@, addrs_v(here@)[t]) implies
                                exists|kk: int| 0 <= kk < entries@.len() && (#[trigger] entries@[kk]).0.deep_view() == #[trigger] addrs_v(here@)[t] by {
                                if t < j {
                                    let kk = choose|kk: int| 0 <= kk < prev.len() && (#[trigger] prev[kk]).0.deep_view() == addrs_v(here@)[t];
                                    assert(entries@[kk] == prev[kk]);
                                } else {
                                    assert(entries@[prev.len() as int].0.deep_view() == addrs_v(here@)[t]);
                                }
                            }
                            assert forall|aa: AddrV, i: int| #[trigger] occurs(b, aa, i) && i < idx && !is_param(parameters@, aa) implies
                                exists|kk: int| 0 <= kk < entries@.len() && (#[trigger] entries@[kk]).0.deep_view() == aa by {
                                let kk = choose|kk: int| 0 <= kk < prev.len() && (#[trigger] prev[kk]).0.deep_view() == aa;
                                assert(entries@[kk] == prev[kk]);
                            }
                            assert forall|kk: int| 0 <= kk < entries@.len() && entries@[kk].1.end < idx implies !addrs_v(here@).subrange(0, j + 1).contains((#[trigger] entries@[kk]).0.deep_view()) by {
                                assert(entries@[kk] == prev[kk]);
                                assert(addrs_v(here@).subrange(0, j + 1) =~= addrs_v(here@).subrange(0, j as int).push(a.deep_view()));
                            }
                        }
                    },
                }
            } else {
                proof {
                    assert forall|kk: int| 0 <= kk < entries@.len() && entries@[kk].1.end < idx implies !addrs_v(here@).subrange(0, j + 1).contains((#[trigger] entries@[kk]).0.deep_view()) by {
                        assert(addrs_v(here@).subrange(0, j + 1) =~= addrs_v(here@).subrange(0, j as int).push(a.deep_view()));
                    }
                }
            }
            j += 1;
        }
        proof {
            assert(addrs_v(here@).subrange(0, here@.len() as int) =~= addrs_v(here@));
            assert forall|k: int, t: int| 0 <= k < entries@.len() && (#[trigger] entries@[k]).1.end < t < idx + 1 implies !#[trigger] occurs(b, entries@[k].0.deep_view(), t) by {
                if t == idx {
                    assert(!addrs_v(here@).contains(entries@[k].0.deep_view()));
                }
            }
            assert forall|a: AddrV, i: int| #[trigger] occurs(b, a, i) && i < idx + 1 && !is_param(parameters@, a) implies
                exists|k: int| 0 <= k < entries@.len() && (#[trigger] entries@[k]).0.deep_view() == a by {
                if i == idx {
                    let t = choose|t: int| 0 <= t < addrs_v(here@).len() && addrs_v(here@)[t] == a;
                }
            }
        }
        idx += 1;
    }
    entries
}

/// Where a value lives.
#[derive(Debug, Clone, Copy, PartialEq, Eq, Structural)]
pub enum Location {
    Reg(Register),
    /// Offset from the stack pointer after the prologue.
    Spill(i64),
}

#[derive(Debug, Clone, Copy, PartialEq, Eq, Structural)]
pub struct Allocation {
    pub loc: Location,
    pub lifetime: Lifetime,
}

/// Two locations are the same physical place: one register at any width, or one slot.
pub open spec fn same_place(a: Location, b: Location) -> bool {
    match (a, b) {
        (Location::Reg(x), Location::Reg(y)) => x.kind == y.kind,
        (Location::Spill(x), Location::Spill(y)) => x == y,
        _ => false,
    }
}

pub open spec fn conflict(a: Allocation, b: Allocation) -> bool {
    intersects_spec(a.lifetime, b.lifetime) && same_place(a.loc, b.loc)
}

/// Number of spilled allocations in `s`.
pub open spec fn spill_count(s: Seq<(Address, Allocation)>) -> int
    decreases s.len(),
{
    if s.len() == 0 {
        0
    } else {
        spill_count(s.drop_last()) + if s.last().1.loc is Spill { 1int } else { 0int }
    }
}

/// Some allocation of `s` whose lifetime intersects `lt` holds register `r`.
pub open spec fn taken(s: Seq<(Address, Allocation)>, r: Register, lt: Lifetime) -> bool {
    exists|i: int| 0 <= i < s.len() && conflict(#[trigger] s[i].1, Allocation { loc: Location::Reg(r), lifetime: lt })
}

/// `r` is the first register of `free` that no allocation of intersecting
/// lifetime holds.
pub open spec fn first_free(s: Seq<(Address, Allocation)>, free: Seq<Register>, r: Register, lt: Lifetime) -> bool {
    exists|k: int| 0 <= k < free.len() && free[k] == r && !taken(s, r, lt)
        && forall|kk: int| 0 <= kk < k ==> taken(s, #[trigger] free[kk], lt)
}

/// No two allocations whose lifetimes intersect share a location.
pub open spec fn conflict_free(s: Seq<(Address, Allocation)>) -> bool {
    forall|i: int, j: int| 0 <= i < s.len() && 0 <= j < s.len() && i != j ==> !conflict(#[trigger] s[i].1, #[trigger] s[j].1)
}

/// The first allocation recorded for `a`.
pub open spec fn alloc_lookup(s: Seq<(Address, Allocation)>, a: AddrV) -> Option<Allocation>
    decreases s.len(),
{
    if s.len() == 0 {
        None
    } else if s[0].0.deep_view() == a {
        Some(s[0].1)
    } else {
        alloc_lookup(s.drop_first(), a)
    }
}

/// Some pre-colored value holds a register of kind `k`.
pub open spec fn precolor_holds(pre: Seq<(Address, Allocation)>, k: RegisterKind) -> bool {
    exists|i: int| 0 <= i < pre.len() && (#[trigger] pre[i]).1.loc->Reg_0.kind == k
}

/// The registers of `av` that no pre-colored value holds, in order.
pub open spec fn keep_free(av: Seq<Register>, pre: Seq<(Address, Allocation)>) -> Seq<Register>
    decreases av.len(),
{
    if av.len() == 0 {
        Seq::empty()
    } else if precolor_holds(pre, av.last().kind) {
        keep_free(av.drop_last(), pre)
    } else {
        keep_free(av.drop_last(), pre).push(av.last())
    }
}

/// Linear-scan register allocator for one function.
pub struct LinearScanRegisterAlloc {
    available_regs: Vec<Register>,
    allocations: Vec<(Address, Allocation)>,
    next_spill_slot: i64,
    precolored: usize,
}

impl LinearScanRegisterAlloc {
    pub closed spec fn allocs(&self) -> Seq<(Address, Allocation)> {
        self.allocations@
    }

    pub closed spec fn free_regs(&self) -> Seq<Register> {
        self.available_regs@
    }

    /// Bytes of spill area in use.
    pub closed spec fn spill_top(&self) -> int {
        self.next_spill_slot as int
    }

    /// Number of leading allocations that were fixed before the scan.
    pub closed spec fn precolored_count(&self) -> int {
        self.precolored as int
    }

    /// Allocations never clash, spill slots lie inside the spill area, and no
    /// allocatable register is one that a pre-colored value holds.
    pub open spec fn wf(&self) -> bool {
        &&& conflict_free(self.allocs())
        &&& 0 <= self.spill_top() <= i64::MAX
        &&& forall|i: int| 0 <= i < self.allocs().len() && (#[trigger] self.allocs()[i]).1.loc is Spill ==>
            0 <= self.allocs()[i].1.loc->Spill_0 < self.spill_top()
        &&& 0 <= self.precolored_count() <= self.allocs().len()
        &&& forall|i: int| 0 <= i < self.precolored_count() ==> (#[trigger] self.allocs()[i]).1.loc is Reg
        &&& forall|i: int, k: int| 0 <= i < self.precolored_count() && 0 <= k < self.free_regs().len()
            ==> (#[trigger] self.allocs()[i]).1.loc->Reg_0.kind != (#[trigger] self.free_regs()[k]).kind
    }

    /// An allocator that may hand out `available_regs`, less any register that a
    /// pre-colored value holds; the pre-colored values keep their locations.
    pub fn new(available_regs: Vec<Register>, precolor: Vec<(Address, Allocation)>) -> (r: LinearScanRegisterAlloc)
        requires
            conflict_free(precolor@),
            forall|i: int| 0 <= i < precolor@.len() ==> (#[trigger] precolor@[i]).1.loc is Reg,
        ensures
            r.wf(),
            r.allocs() == precolor@,
            r.precolored_count() == precolor@.len(),
            r.spill_top() == 0,
            forall|k: int| 0 <= k < r.free_regs().len() ==> available_regs@.contains(#[trigger] r.free_regs()[k]),
            forall|k: int| 0 <= k < available_regs@.len() && (forall|i: int| 0 <= i < precolor@.len() ==>
                (#[trigger] precolor@[i]).1.loc->Reg_0.kind != available_regs@[k].kind) ==> r.free_regs().contains(#[trigger] available_regs@[k]),
            r.free_regs() == keep_free(available_regs@, precolor@),
    {
        let mut free: Vec<Register> = Vec::new();
        let mut k: usize = 0;
        while k < available_regs.len()
            invariant
                k <= available_regs@.len(),
                forall|i: int| 0 <= i < precolor@.len() ==> (#[trigger] precolor@[i]).1.loc is Reg,
                forall|t: int| 0 <= t < free@.len() ==> available_regs@.contains(#[trigger] free@[t]),
                forall|i: int, t: int| 0 <= i < precolor@.len() && 0 <= t < free@.len()
                    ==> (#[trigger] precolor@[i]).1.loc->Reg_0.kind != (#[trigger] free@[t]).kind,
                forall|t: int| 0 <= t < k && (forall|i: int| 0 <= i < precolor@.len() ==>
                    (#[trigger] precolor@[i]).1.loc->Reg_0.kind != available_regs@[t].kind) ==> free@.contains(#[trigger] available_regs@[t]),
                free@ == keep_free(available_regs@.subrange(0, k as int), precolor@),
            decreases available_regs@.len() - k,
        {
            let r = available_regs[k];
            let mut taken = false;
            let mut i: usize = 0;
            while i < precolor.len()
                invariant
                    i <= precolor@.len(),
                    r == available_regs@[k as int],
                    forall|t: int| 0 <= t < precolor@.len() ==> (#[trigger] precolor@[t]).1.loc is Reg,
                    !taken ==> forall|t: int| 0 <= t < i ==> (#[trigger] precolor@[t]).1.loc->Reg_0.kind != r.kind,
                    taken ==> exists|t: int| 0 <= t < precolor@.len() && (#[trigger] precolor@[t]).1.loc->Reg_0.kind == r.kind,
                decreases precolor@.len() - i,
            {
                if let Location::Reg(x) = precolor[i].1.loc {
                    if x.kind == r.kind {
                        taken = true;
                    }
                }
                i += 1;
            }
            let ghost prev = free@;
            proof {
                let sub = available_regs@.subrange(0, k + 1);
                assert(sub.drop_last() =~= available_regs@.subrange(0, k as int));
                assert(sub.last() == r);
                if taken {
                    assert(precolor_holds(precolor@, r.kind));
                } else {
                    assert forall|t: int| 0 <= t < precolor@.len() implies (#[trigger] precolor@[t]).1.loc->Reg_0.kind != r.kind by {}
                    assert(!precolor_holds(precolor@, r.kind));
                }
            }
            if !taken {
                free.push(r);
            }
            proof {
                assert forall|t: int| 0 <= t < free@.len() implies available_regs@.contains(#[trigger] free@[t]) by {
                    if t < prev.len() {
                        assert(free@[t] == prev[t]);
                    } else {
                        assert(available_regs@[k as int] == free@[t]);
                    }
                }
                assert forall|ii: int, t: int| 0 <= ii < precolor@.len() && 0 <= t < free@.len()
                    implies (#[trigger] precolor@[ii]).1.loc->Reg_0.kind != (#[trigger] free@[t]).kind by {
                    if t < prev.len() {
                        assert(free@[t] == prev[t]);
                    }
                }
            }
            k += 1;
        }
        proof {
            assert(available_regs@.subrange(0, available_regs@.len() as int) =~= available_regs@);
        }
        let n = precolor.len();
        LinearScanRegisterAlloc { available_regs: free, allocations: precolor, next_spill_slot: 0, precolored: n }
    }

    /// Bytes of stack the spilled values need.
    pub fn stack_size(&self) -> (r: u64)
        requires
            self.wf(),
        ensures
            r == self.spill_top(),
    {
        self.next_spill_slot as u64
    }

    /// Gives each interval a location: the first allocatable register that no
    /// allocation of intersecting lifetime holds, otherwise a fresh 8-byte spill slot.
    pub fn linear_scan(&mut self, lifetimes: &Vec<(Address, Lifetime)>)
        requires
            old(self).wf(),
            old(self).spill_top() + 8 * lifetimes@.len() <= i64::MAX,
        ensures
            final(self).wf(),
            final(self).spill_top() <= old(self).spill_top() + 8 * lifetimes@.len(),
            final(self).spill_top() == old(self).spill_top() + 8 * spill_count(final(self).allocs().subrange(old(self).allocs().len() as int, final(self).allocs().len() as int)),
            final(self).precolored_count() == old(self).precolored_count(),
            final(self).free_regs() == old(self).free_regs(),
            final(self).allocs().len() == old(self).allocs().len() + lifetimes@.len(),
            final(self).allocs().subrange(0, old(self).allocs().len() as int) == old(self).allocs(),
            forall|m: int| 0 <= m < lifetimes@.len() ==> (#[trigger] final(self).allocs()[old(self).allocs().len() + m]).0 == lifetimes@[m].0
                && final(self).allocs()[old(self).allocs().len() + m].1.lifetime == lifetimes@[m].1,
            forall|m: int, k: int| 0 <= m < lifetimes@.len() && 0 <= k < final(self).free_regs().len()
                && (#[trigger] final(self).allocs()[old(self).allocs().len() + m]).1.loc is Spill
                ==> taken(final(self).allocs().subrange(0, old(self).allocs().len() + m), #[trigger] final(self).free_regs()[k], lifetimes@[m].1),
            forall|m: int| 0 <= m < lifetimes@.len() && (#[trigger] final(self).allocs()[old(self).allocs().len() + m]).1.loc is Spill
                ==> final(self).allocs()[old(self).allocs().len() + m].1.loc->Spill_0 == old(self).spill_top()
                    + 8 * spill_count(final(self).allocs().subrange(old(self).allocs().len() as int, old(self).allocs().len() + m)),
            forall|m: int| 0 <= m < lifetimes@.len() && (#[trigger] final(self).allocs()[old(self).allocs().len() + m]).1.loc is Reg
                ==> first_free(final(self).allocs().subrange(0, old(self).allocs().len() + m), final(self).free_regs(),
                    final(self).allocs()[old(self).allocs().len() + m].1.loc->Reg_0, lifetimes@[m].1),
    {
        let ghost start_len = self.allocations@.len();
        let ghost start_top = self.next_spill_slot as int;
        let mut m: usize = 0;
        while m < lifetimes.len()
            invariant
                m <= lifetimes@.len(),
                self.wf(),
                self.precolored_count() == old(self).precolored_count(),
                self.free_regs() == old(self).free_regs(),
                start_len == old(self).allocs().len(),
                start_top == old(self).spill_top(),
                self.allocs().len() == start_len + m,
                self.allocs().subrange(0, start_len as int) == old(self).allocs(),
                self.spill_top() <= start_top + 8 * m,
                self.spill_top() == start_top + 8 * spill_count(self.allocs().subrange(start_len as int, self.allocs().len() as int)),
                start_top + 8 * lifetimes@.len() <= i64::MAX,
                forall|t: int| 0 <= t < m ==> (#[trigger] self.allocs()[start_len + t]).0 == lifetimes@[t].0
                    && self.allocs()[start_len + t].1.lifetime == lifetimes@[t].1,
                forall|t: int, k: int| 0 <= t < m && 0 <= k < self.free_regs().len()
                    && (#[trigger] self.allocs()[start_len + t]).1.loc is Spill
                    ==> taken(self.allocs().subrange(0, start_len + t), #[trigger] self.free_regs()[k], lifetimes@[t].1),
                forall|t: int| 0 <= t < m && (#[trigger] self.allocs()[start_len + t]).1.loc is Spill
                    ==> self.allocs()[start_len + t].1.loc->Spill_0 == start_top
                        + 8 * spill_count(self.allocs().subrange(start_len as int, start_len + t)),
                forall|t: int| 0 <= t < m && (#[trigger] self.allocs()[start_len + t]).1.loc is Reg
                    ==> first_free(self.allocs().subrange(0, start_len + t), self.free_regs(), self.allocs()[start_len + t].1.loc->Reg_0, lifetimes@[t].1),
            decreases lifetimes@.len() - m,
        {
            let cur = lifetimes[m].1;
            let mut chosen: Option<Register> = None;
            let mut k: usize = 0;
            while k < self.available_regs.len()
                invariant
                    k <= self.free_regs().len(),
                    self.wf(),
                    chosen matches Some(r) ==> forall|i: int| 0 <= i < self.allocs().len() ==>
                        !conflict(#[trigger] self.allocs()[i].1, Allocation { loc: Location::Reg(r), lifetime: cur }),
                    chosen is None ==> forall|kk: int| 0 <= kk < k ==> taken(self.allocs(), #[trigger] self.free_regs()[kk], cur),
                    chosen matches Some(r) ==> first_free(self.allocs(), self.free_regs(), r, cur),
                decreases self.free_regs().len() - k,
            {
                if chosen.is_none() {
                    let r = self.available_regs[k];
                    let mut clash = false;
                    let mut i: usize = 0;
                    while i < self.allocations.len()
                        invariant
                            i <= self.allocs().len(),
                            !clash ==> forall|t: int| 0 <= t < i ==> !conflict(#[trigger] self.allocs()[t].1, Allocation { loc: Location::Reg(r), lifetime: cur }),
                            clash ==> taken(self.allocs(), r, cur),
                        decreases self.allocs().len() - i,
                    {
                        let al = self.allocations[i].1;
                        if let Location::Reg(x) = al.loc {
                            if x.kind == r.kind && al.lifetime.intersects(&cur) {
                                clash = true;
                                proof {
                                    assert(conflict(self.allocs()[i as int].1, Allocation { loc: Location::Reg(r), lifetime: cur }));
                                }
                            }
                        }
                        i += 1;
                    }
                    if !clash {
                        chosen = Some(r);
                        proof {
                            assert(self.free_regs()[k as int] == r);
                            assert(!taken(self.allocs(), r, cur));
                        }
                    }
                }
                k += 1;
            }
            let loc = match chosen {
                Some(r) => Location::Reg(r),
                None => {
                    let off = self.next_spill_slot;
                    self.next_spill_slot = self.next_spill_slot + 8;
                    Location::Spill(off)
                },
            };
            let ghost prev = self.allocations@;
            let entry = (lifetimes[m].0.duplicate(), Allocation { loc, lifetime: cur });
            self.allocations.push(entry);
            proof {
                let s = self.allocations@;
                assert(s == prev.push(entry));
                assert forall|i: int, j: int| 0 <= i < s.len() && 0 <= j < s.len() && i != j implies !conflict(#[trigger] s[i].1, #[trigger] s[j].1) by {
                    if i < prev.len() && j < prev.len() {
                        assert(s[i] == prev[i] && s[j] == prev[j]);
                    } else if i < prev.len() {
                        assert(s[i] == prev[i]);
                    } else {
                        assert(s[j] == prev[j]);
                    }
                }
                assert forall|i: int| 0 <= i < s.len() && (#[trigger] s[i]).1.loc is Spill implies
                    0 <= s[i].1.loc->Spill_0 < self.spill_top() by {
                    if i < prev.len() {
                        assert(s[i] == prev[i]);
                    }
                }
                assert forall|i: int| 0 <= i < self.precolored_count() implies (#[trigger] s[i]).1.loc is Reg by {
                    assert(s[i] == prev[i]);
                }
                assert forall|i: int, k: int| 0 <= i < self.precolored_count() && 0 <= k < self.free_regs().len()
                    implies (#[trigger] s[i]).1.loc->Reg_0.kind != (#[trigger] self.free_regs()[k]).kind by {
                    assert(s[i] == prev[i]);
                }
                assert(s.subrange(0, start_len as int) =~= prev.subrange(0, start_len as int));
                let tail = s.subrange(start_len as int, s.len() as int);
                assert(tail.drop_last() =~= prev.subrange(start_len as int, prev.len() as int));
                assert(tail.last() == entry);
                assert forall|t: int| 0 <= t < m + 1 implies (#[trigger] s[start_len + t]).0 == lifetimes@[t].0
                    && s[start_len + t].1.lifetime == lifetimes@[t].1 by {
                    if t < m {
                        assert(s[start_len + t] == prev[start_len + t]);
                    }
                }
                assert forall|t: int, k: int| 0 <= t < m + 1 && 0 <= k < self.free_regs().len()
                    && (#[trigger] s[start_len + t]).1.loc is Spill
                    implies taken(s.subrange(0, start_len + t), #[trigger] self.free_regs()[k], lifetimes@[t].1) by {
                    if t < m {
                        assert(s[start_len + t] == prev[start_len + t]);
                        assert(s.subrange(0, start_len + t) =~= prev.subrange(0, start_len + t));
                    } else {
                        assert(s.subrange(0, start_len + t) =~= prev);
                        assert(chosen is None);
                        assert(taken(prev, self.free_regs()[k], cur));
                    }
                }
                assert forall|t: int| 0 <= t < m + 1 && (#[trigger] s[start_len + t]).1.loc is Spill
                    implies s[start_len + t].1.loc->Spill_0 == start_top + 8 * spill_count(s.subrange(start_len as int, start_len + t)) by {
                    if t < m {
                        assert(s[start_len + t] == prev[start_len + t]);
                        assert(s.subrange(start_len as int, start_len + t) =~= prev.subrange(start_len as int, start_len + t));
                    } else {
                        assert(s.subrange(start_len as int, start_len + t) =~= prev.subrange(start_len as int, prev.len() as int));
                    }
                }
                assert forall|t: int| 0 <= t < m + 1 && (#[trigger] s[start_len + t]).1.loc is Reg
                    implies first_free(s.subrange(0, start_len + t), self.free_regs(), s[start_len + t].1.loc->Reg_0, lifetimes@[t].1) by {
                    if t < m {
                        assert(s[start_len + t] == prev[start_len + t]);
                        assert(s.subrange(0, start_len + t) =~= prev.subrange(0, start_len + t));
                    } else {
                        assert(s.subrange(0, start_len + t) =~= prev);
                    }
                }
            }
            m += 1;
        }
    }

    /// The location of `addr` at statement `instr_index`, if it is live there.
    pub fn location_of(&self, addr: &Address, instr_index: usize) -> (r: Option<Location>)
        ensures
            r == match alloc_lookup(self.allocs(), addr.deep_view()) {
                Some(a) => if a.lifetime.start <= instr_index <= a.lifetime.end { Some(a.loc) } else { None },
                None => None,
            },
    {
        let mut i: usize = 0;
        proof {
            assert(self.allocs().subrange(0, self.allocs().len() as int) =~= self.allocs());
        }
        while i < self.allocations.len()
            invariant
                i <= self.allocs().len(),
                alloc_lookup(self.allocs(), addr.deep_view()) == alloc_lookup(self.allocs().subrange(i as int, self.allocs().len() as int), addr.deep_view()),
            decreases self.allocs().len() - i,
        {
            proof {
                let rest = self.allocs().subrange(i as int, self.allocs().len() as int);
                assert(rest.drop_first() =~= self.allocs().subrange(i + 1, self.allocs().len() as int));
                assert(rest[0] == self.allocs()[i as int]);
            }
            if self.allocations[i].0.same(addr) {
                let a = self.allocations[i].1;
                if a.lifetime.start <= instr_index && instr_index <= a.lifetime.end {
                    return Some(a.loc);
                } else {
                    return None;
                }
            }
            i += 1;
        }
        None
    }

    /// Registers held at statement `instr_idx` by values live across it.
    pub fn used_registers_at(&self, instr_idx: usize) -> (r: Vec<Register>)
        requires
            self.wf(),
        ensures
            forall|a: int, b: int| 0 <= a < b < r@.len() ==> (#[trigger] r@[a]).kind != (#[trigger] r@[b]).kind,
            r@.len() <= self.allocs().len(),
            forall|reg: Register| #[trigger] r@.contains(reg) <==> exists|i: int| 0 <= i < self.allocs().len()
                && (#[trigger] self.allocs()[i]).1.loc == Location::Reg(reg)
                && self.allocs()[i].1.lifetime.start <= instr_idx <= self.allocs()[i].1.lifetime.end,
    {
        let mut out: Vec<Register> = Vec::new();
        let mut i: usize = 0;
        while i < self.allocations.len()
            invariant
                i <= self.allocs().len(),
                forall|reg: Register| #[trigger] out@.contains(reg) <==> exists|t: int| 0 <= t < i
                    && (#[trigger] self.allocs()[t]).1.loc == Location::Reg(reg)
                    && self.allocs()[t].1.lifetime.start <= instr_idx <= self.allocs()[t].1.lifetime.end,
                self.wf(),
                out@.len() <= i,
                forall|a: int, b: int| 0 <= a < b < out@.len() ==> (#[trigger] out@[a]).kind != (#[trigger] out@[b]).kind,
                forall|a: int| 0 <= a < out@.len() ==> exists|t: int| 0 <= t < i
                    && (#[trigger] self.allocs()[t]).1.loc == Location::Reg(#[trigger] out@[a])
                    && self.allocs()[t].1.lifetime.start <= instr_idx <= self.allocs()[t].1.lifetime.end,
            decreases self.allocs().len() - i,
        {
            let a = self.allocations[i].1;
            let ghost prev = out@;
            if a.lifetime.start <= instr_idx && instr_idx <= a.lifetime.end {
                if let Location::Reg(reg) = a.loc {
                    proof {
                        assert forall|x: int| 0 <= x < out@.len() implies (#[trigger] out@[x]).kind != reg.kind by {
                            let t = choose|t: int| 0 <= t < i
                                && (#[trigger] self.allocs()[t]).1.loc == Location::Reg(out@[x])
                                && self.allocs()[t].1.lifetime.start <= instr_idx <= self.allocs()[t].1.lifetime.end;
                            if out@[x].kind == reg.kind {
                                assert(conflict(self.allocs()[t].1, self.allocs()[i as int].1));
                                assert(t != i);
                            }
                        }
                    }
                    out.push(reg);
                }
            }
            proof {
                assert forall|reg: Register| #[trigger] out@.contains(reg) <==> exists|t: int| 0 <= t < i + 1
                    && (#[trigger] self.allocs()[t]).1.loc == Location::Reg(reg)
                    && self.allocs()[t].1.lifetime.start <= instr_idx <= self.allocs()[t].1.lifetime.end by {
                    if exists|t: int| 0 <= t < i + 1 && (#[trigger] self.allocs()[t]).1.loc == Location::Reg(reg)
                        && self.allocs()[t].1.lifetime.start <= instr_idx <= self.allocs()[t].1.lifetime.end {
                        let t = choose|t: int| 0 <= t < i + 1 && (#[trigger] self.allocs()[t]).1.loc == Location::Reg(reg)
                            && self.allocs()[t].1.lifetime.start <= instr_idx <= self.allocs()[t].1.lifetime.end;
                        if t < i {
                            assert(prev.contains(reg));
                        }
                    }
                    if prev.contains(reg) {
                        let t = choose|t: int| 0 <= t < i && (#[trigger] self.allocs()[t]).1.loc == Location::Reg(reg)
                            && self.allocs()[t].1.lifetime.start <= instr_idx <= self.allocs()[t].1.lifetime.end;
                    }
                }
            }
            i += 1;
        }
        out
    }
}

/// Allocation is correct: two distinct allocated values whose lifetimes intersect
/// never share a register or a spill slot.
pub proof fn allocator_correctness(alloc: LinearScanRegisterAlloc, i: int, j: int)
    requires
        alloc.wf(),
        0 <= i < alloc.allocs().len(),
        0 <= j < alloc.allocs().len(),
        i != j,
        intersects_spec(alloc.allocs()[i].1.lifetime, alloc.allocs()[j].1.lifetime),
    ensures
        !same_place(alloc.allocs()[i].1.loc, alloc.allocs()[j].1.loc),
{
    assert(!conflict(alloc.allocs()[i].1, alloc.allocs()[j].1));
}

} // verus!
