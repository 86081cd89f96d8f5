use vstd::prelude::*;
use vstd::string::*;
use crate::nodes::{addrs_v, body_v, duplicate_body, AddrV, Address, Ssa, SsaV};
use crate::text::IrTextRepr;

verus! {

broadcast use vstd::seq_lib::lemma_seq_contains_after_push;

/// The operands a statement reads inside its block.
pub open spec fn reads(s: SsaV) -> Seq<AddrV> {
    match s {
        SsaV::Assign { source, .. } => if source.is_const() { seq![] } else { seq![source] },
        SsaV::Quad { left, right, .. } => match right {
            Some(r) => seq![left, r],
            None => seq![left],
        },
        SsaV::Call { parameters, .. } => parameters.map_values(|p: crate::nodes::ParamV| p.value),
        SsaV::Return { value: Some((a, _)) } => seq![a],
        SsaV::Branch { cond, .. } => seq![cond],
        _ => seq![],
    }
}

/// The last statement before `u` that defines `a`.
pub open spec fn most_recent_def(b: Seq<SsaV>, a: AddrV, u: int) -> Option<int>
    decreases u,
{
    if u <= 0 {
        None
    } else if b[u - 1].defined() == Some(a) {
        Some(u - 1)
    } else {
        most_recent_def(b, a, u - 1)
    }
}

/// The value defined at `d` is read at `u`.
pub open spec fn flows_to(b: Seq<SsaV>, d: int, u: int) -> bool {
    &&& 0 <= u < b.len()
    &&& exists|i: int| 0 <= i < reads(b[u]).len() && most_recent_def(b, #[trigger] reads(b[u])[i], u) == Some(d)
}

/// Statement `u` is the only one that reads the value defined at `d`.
pub open spec fn only_user(b: Seq<SsaV>, d: int, u: int) -> bool {
    flows_to(b, d, u) && forall|v: int| flows_to(b, d, v) ==> v == u
}

/// Statement `t` belongs to one of the components `cs`.
pub open spec fn in_components(cs: Seq<Vec<usize>>, t: int) -> bool {
    exists|c: int, k: int| 0 <= c < cs.len() && 0 <= k < cs[c]@.len() && #[trigger] cs[c]@[k] == t
}

/// A statement that optimisations keep in place: labels, jumps and branches.
pub open spec fn is_anchor(s: SsaV) -> bool {
    s is Label || s is Jump || s is Branch
}

/// Def-use graph of one basic block.
pub struct DataFlowGraph {
    ir: Vec<Ssa>,
    adjacency: Vec<Vec<usize>>,
    do_not_optimize: Vec<usize>,
}

impl DataFlowGraph {
    /// The statements the graph was built from.
    pub closed spec fn block(&self) -> Seq<SsaV> {
        body_v(self.ir@)
    }

    /// For each statement, the statements that read the value it defines.
    pub closed spec fn uses(&self) -> Seq<Seq<usize>> {
        self.adjacency@.map_values(|v: Vec<usize>| v@)
    }

    pub closed spec fn anchors(&self) -> Seq<usize> {
        self.do_not_optimize@
    }

    pub open spec fn wf(&self) -> bool {
        &&& self.uses().len() == self.block().len()
        &&& self.block().len() <= usize::MAX
        &&& forall|d: int, u: usize| 0 <= d < self.block().len() ==> (#[trigger] self.uses()[d].contains(u)
            <==> flows_to(self.block(), d, u as int))
        &&& forall|i: int| 0 <= i < self.block().len() ==> (self.anchors().contains(i as usize) <==> is_anchor(
            #[trigger] self.block()[i]))
        &&& forall|d: int, a: int, b: int| 0 <= d < self.block().len() && 0 <= a < b < self.uses()[d].len()
            ==> #[trigger] self.uses()[d][a] < #[trigger] self.uses()[d][b]
        &&& forall|a: int, b: int| 0 <= a < b < self.anchors().len() ==> #[trigger] self.anchors()[a] < #[trigger] self.anchors()[b]
        &&& forall|a: int| 0 <= a < self.anchors().len() ==> #[trigger] self.anchors()[a] < self.block().len()
    }

    pub fn from_basic_block(block: &[Ssa]) -> (r: DataFlowGraph)
        ensures
            r.wf(),
            r.block() == body_v(block@),
    {
        let n = block.len();
        let mut adjacency: Vec<Vec<usize>> = Vec::new();
        let mut do_not_optimize: Vec<usize> = Vec::new();
        let mut d: usize = 0;
        while d < n
            invariant
                n == block@.len(),
                d <= n,
                adjacency@.len() == d,
                forall|dd: int, u: usize| 0 <= dd < d ==> (#[trigger] adjacency@[dd]@.contains(u)
                    <==> flows_to(body_v(block@), dd, u as int)),
                forall|dd: int, a: int, b: int| 0 <= dd < d && 0 <= a < b < adjacency@[dd]@.len()
                    ==> #[trigger] adjacency@[dd]@[a] < #[trigger] adjacency@[dd]@[b],
                forall|i: int| 0 <= i < n ==> (#[trigger] do_not_optimize@.contains(i as usize) <==> (i < d && is_anchor(
                    body_v(block@)[i]))),
                forall|a: int, b: int| 0 <= a < b < do_not_optimize@.len() ==> #[trigger] do_not_optimize@[a] < #[trigger] do_not_optimize@[b],
                forall|a: int| 0 <= a < do_not_optimize@.len() ==> #[trigger] do_not_optimize@[a] < d,
            decreases n - d,
        {
            let mut users: Vec<usize> = Vec::new();
            let mut u: usize = 0;
            while u < n
                invariant
                    n == block@.len(),
                    d < n,
                    u <= n,
                    forall|x: usize| #[trigger] users@.contains(x) <==> (x < u && flows_to(body_v(block@), d as int, x as int)),
                    forall|a: int, b: int| 0 <= a < b < users@.len() ==> #[trigger] users@[a] < #[trigger] users@[b],
                    forall|a: int| 0 <= a < users@.len() ==> #[trigger] users@[a] < u,
                decreases n - u,
            {
                let ghost prev = users@;
                if value_flows(block, d, u) {
                    users.push(u);
                }
                proof {
                    assert forall|x: usize| #[trigger] users@.contains(x) <==> (x < u + 1 && flows_to(body_v(block@), d as int, x as int)) by {
                        if users@.len() > prev.len() {
                            assert(users@ == prev.push(u));
                            if prev.contains(x) {
                                let t = choose|t: int| 0 <= t < prev.len() && prev[t] == x;
                                assert(users@[t] == x);
                            }
                            if users@.contains(x) && x != u {
                                let t = choose|t: int| 0 <= t < users@.len() && users@[t] == x;
                                assert(prev[t] == x);
                            }
                        }
                    }
                }
                u += 1;
            }
            let ghost preva = adjacency@;
            adjacency.push(users);
            proof {
                assert forall|dd: int, a: int, b: int| 0 <= dd < d + 1 && 0 <= a < b < adjacency@[dd]@.len()
                    implies #[trigger] adjacency@[dd]@[a] < #[trigger] adjacency@[dd]@[b] by {
                    if dd < d {
                        assert(adjacency@[dd] == preva[dd]);
                    }
                }
                assert forall|dd: int, u: usize| 0 <= dd < d + 1 implies (#[trigger] adjacency@[dd]@.contains(u)
                    <==> flows_to(body_v(block@), dd, u as int)) by {
                    if dd < d {
                        assert(adjacency@[dd] == preva[dd]);
                    }
                }
            }
            let anchor = matches!(block[d], Ssa::Label(_)) || matches!(block[d], Ssa::Jump(_)) || matches!(block[d], Ssa::Branch { .. });
            let ghost prevd = do_not_optimize@;
            if anchor {
                do_not_optimize.push(d);
            }
            proof {
                assert(body_v(block@)[d as int] == block@[d as int].deep_view());
                assert forall|i: int| 0 <= i < n implies (#[trigger] do_not_optimize@.contains(i as usize) <==> (i < d + 1 && is_anchor(
                    body_v(block@)[i]))) by {
                    assert(prevd.contains(i as usize) <==> (i < d && is_anchor(body_v(block@)[i])));
                }
            }
            d += 1;
        }
        let r = DataFlowGraph { ir: duplicate_body(block), adjacency, do_not_optimize };
        proof {
            assert(r.uses().len() == r.block().len());
            assert forall|dd: int, u: usize| 0 <= dd < r.block().len() implies (#[trigger] r.uses()[dd].contains(u)
                <==> flows_to(r.block(), dd, u as int)) by {
                assert(r.uses()[dd] == adjacency@[dd]@);
            }
            assert forall|dd: int, a: int, b: int| 0 <= dd < r.block().len() && 0 <= a < b < r.uses()[dd].len()
                implies #[trigger] r.uses()[dd][a] < #[trigger] r.uses()[dd][b] by {
                assert(r.uses()[dd] == adjacency@[dd]@);
            }
        }
        r
    }

    /// Indices of the labels, jumps and branches of the block.
    pub fn do_not_optimize(&self) -> (r: &Vec<usize>)
        ensures
            r@ == self.anchors(),
    {
        &self.do_not_optimize
    }

    /// For each statement, the indices of the statements that read its value.
    pub fn adjacency(&self) -> (r: &Vec<Vec<usize>>)
        ensures
            r@.map_values(|v: Vec<usize>| v@) == self.uses(),
    {
        &self.adjacency
    }

    /// The one statement that reads the value defined at `d`, if exactly one does.
    pub fn single_user(&self, d: usize) -> (r: Option<usize>)
        requires
            self.wf(),
            d < self.block().len(),
        ensures
            match r {
                Some(u) => only_user(self.block(), d as int, u as int),
                None => !exists|u: int| only_user(self.block(), d as int, u),
            },
    {
        let us = &self.adjacency[d];
        proof {
            assert(self.uses()[d as int] == us@);
        }
        if us.len() == 1 {
            let u = us[0];
            proof {
                assert(us@.contains(u));
                assert forall|v: int| flows_to(self.block(), d as int, v) implies v == u by {
                    assert(0 <= v < self.block().len());
                    let vv = v as usize;
                    assert(self.uses()[d as int].contains(vv));
                }
            }
            Some(u)
        } else {
            proof {
                assert forall|u: int| !only_user(self.block(), d as int, u) by {
                    if only_user(self.block(), d as int, u) {
                        let uu = u as usize;
                        assert(self.uses()[d as int].contains(uu));
                        if us@.len() == 0 {
                        } else {
                            assert(us@.len() >= 2);
                            let a = us@[0];
                            let b = us@[1];
                            assert(us@.contains(a) && us@.contains(b));
                            assert(flows_to(self.block(), d as int, a as int));
                            assert(flows_to(self.block(), d as int, b as int));
                            assert(a < b);
                        }
                    }
                }
            }
            None
        }
    }

    /// Groups of statements linked by def-use edges: starting from each statement
    /// that has users and is not yet grouped, everything reachable from it that is
    /// not yet grouped. No statement is in two groups.
    pub fn connected_components(&self) -> (r: Vec<Vec<usize>>)
        requires
            self.wf(),
        ensures
            forall|c: int, k: int| 0 <= c < r@.len() && 0 <= k < r@[c]@.len() ==> (#[trigger] r@[c]@[k]) < self.block().len(),
            forall|c1: int, k1: int, c2: int, k2: int|
                0 <= c1 < r@.len() && 0 <= k1 < r@[c1]@.len() && 0 <= c2 < r@.len() && 0 <= k2 < r@[c2]@.len()
                && (c1 != c2 || k1 != k2) ==> #[trigger] r@[c1]@[k1] != #[trigger] r@[c2]@[k2],
            forall|s: int| 0 <= s < self.block().len() && (#[trigger] self.uses()[s]).len() > 0 ==> in_components(r@, s),
    {
        let n = self.adjacency.len();
        let mut visited: Vec<bool> = Vec::new();
        let mut i: usize = 0;
        while i < n
            invariant
                i <= n,
                visited@.len() == i,
                forall|t: int| 0 <= t < i ==> !#[trigger] visited@[t],
            decreases n - i,
        {
            visited.push(false);
            i += 1;
        }
        let mut components: Vec<Vec<usize>> = Vec::new();
        let mut start: usize = 0;
        while start < n
            invariant
                self.wf(),
                n == self.block().len(),
                visited@.len() == n,
                forall|c: int, k: int| 0 <= c < components@.len() && 0 <= k < components@[c]@.len() ==>
                    (#[trigger] components@[c]@[k]) < n && visited@[components@[c]@[k] as int],
                forall|c1: int, k1: int, c2: int, k2: int|
                    0 <= c1 < components@.len() && 0 <= k1 < components@[c1]@.len() && 0 <= c2 < components@.len()
                    && 0 <= k2 < components@[c2]@.len() && (c1 != c2 || k1 != k2)
                    ==> #[trigger] components@[c1]@[k1] != #[trigger] components@[c2]@[k2],
                start <= n,
                forall|t: int| 0 <= t < n && #[trigger] visited@[t] ==> in_components(components@, t),
                forall|x: int| 0 <= x < start && (#[trigger] self.uses()[x]).len() > 0 ==> visited@[x],
            decreases n - start,
        {
            if !visited[start] && self.adjacency[start].len() > 0 {
                let ghost vis0 = visited@;
                let mut component: Vec<usize> = Vec::new();
                let mut stack: Vec<usize> = Vec::new();
                stack.push(start);
                let m = n as u64;
                let mut fuel: u64 = if m <= 0xFFFF_FFFF {
                    proof {
                        assert(m * m <= 0xFFFF_FFFF * 0xFFFF_FFFF) by (nonlinear_arith)
                            requires
                                m <= 0xFFFF_FFFF,
                        ;
                    }
                    m * m + m + 1
                } else {
                    u64::MAX
                };
                while stack.len() > 0 && fuel > 0
                    invariant
                        self.wf(),
                        n == self.block().len(),
                        visited@.len() == n,
                        vis0.len() == n,
                        forall|t: int| 0 <= t < stack@.len() ==> (#[trigger] stack@[t]) < n,
                        forall|k: int| 0 <= k < component@.len() ==> (#[trigger] component@[k]) < n && visited@[component@[k] as int]
                            && !vis0[component@[k] as int],
                        forall|a: int, b: int| 0 <= a < b < component@.len() ==> #[trigger] component@[a] != #[trigger] component@[b],
                        forall|t: int| 0 <= t < n && vis0[t] ==> #[trigger] visited@[t],
                        forall|c: int, k: int| 0 <= c < components@.len() && 0 <= k < components@[c]@.len() ==>
                            (#[trigger] components@[c]@[k]) < n && vis0[components@[c]@[k] as int],
                        start < n,
                        !visited@[start as int] ==> stack@ == seq![start] && fuel > 0,
                        forall|t: int| 0 <= t < n && #[trigger] visited@[t] && !vis0[t] ==> component@.contains(t as usize),
                    decreases fuel,
                {
                    fuel -= 1;
                    let ghost vis_before = visited@;
                    let node = stack.pop().unwrap();
                    if !visited[node] {
                        let ghost before = component@;
                        visited.set(node, true);
                        component.push(node);
                        proof {
                            assert forall|t: int| 0 <= t < n && #[trigger] visited@[t] && !vis0[t] implies component@.contains(t as usize) by {
                                if t != node {
                                    assert(vis_before[t]);
                                    assert(before.contains(t as usize));
                                    let x = choose|x: int| 0 <= x < before.len() && before[x] == t as usize;
                                    assert(component@[x] == t as usize);
                                } else {
                                    assert(component@[before.len() as int] == node);
                                }
                            }
                            assert forall|a: int, b: int| 0 <= a < b < component@.len() implies #[trigger] component@[a] != #[trigger] component@[b] by {
                                if b == component@.len() - 1 {
                                    assert(visited@.len() == n);
                                    assert(component@[a] == before[a]);
                                }
                            }
                        }
                        let users = &self.adjacency[node];
                        proof {
                            assert(self.uses()[node as int] == users@);
                        }
                        let mut k: usize = 0;
                        while k < users.len()
                            invariant
                                self.wf(),
                                n == self.block().len(),
                                node < n,
                                users@ == self.uses()[node as int],
                                k <= users@.len(),
                                forall|t: int| 0 <= t < stack@.len() ==> (#[trigger] stack@[t]) < n,
                            decreases users@.len() - k,
                        {
                            let u = users[k];
                            proof {
                                assert(self.uses()[node as int].contains(u));
                                assert(flows_to(self.block(), node as int, u as int));
                            }
                            stack.push(u);
                            k += 1;
                        }
                    }
                }
                proof {
                    assert(visited@[start as int]);
                    let all = components@.push(component);
                    assert forall|t: int| 0 <= t < n && #[trigger] visited@[t] implies in_components(all, t) by {
                        if vis0[t] {
                            let (c, k) = choose|c: int, k: int| 0 <= c < components@.len() && 0 <= k < components@[c]@.len()
                                && #[trigger] components@[c]@[k] == t;
                            assert(all[c] == components@[c]);
                        } else {
                            let x = choose|x: int| 0 <= x < component@.len() && component@[x] == t as usize;
                            assert(all[components@.len() as int] == component);
                            assert(all[components@.len() as int]@[x] == t);
                        }
                    }
                    assert forall|c1: int, k1: int, c2: int, k2: int|
                        0 <= c1 < components@.len() + 1 && 0 <= k1 < components@.push(component)[c1]@.len() && 0 <= c2 < components@.len() + 1
                        && 0 <= k2 < components@.push(component)[c2]@.len() && (c1 != c2 || k1 != k2)
                        implies #[trigger] components@.push(component)[c1]@[k1] != #[trigger] components@.push(component)[c2]@[k2] by {
                        let all = components@.push(component);
                        if c1 == components@.len() && c2 < components@.len() {
                            assert(all[c1]@[k1] == component@[k1]);
                            assert(!vis0[component@[k1] as int]);
                            assert(vis0[all[c2]@[k2] as int]);
                        } else if c2 == components@.len() && c1 < components@.len() {
                            assert(all[c2]@[k2] == component@[k2]);
                            assert(!vis0[component@[k2] as int]);
                            assert(vis0[all[c1]@[k1] as int]);
                        } else if c1 == components@.len() && c2 == components@.len() {
                            if k1 < k2 {
                                assert(component@[k1] != component@[k2]);
                            } else {
                                assert(component@[k2] != component@[k1]);
                            }
                        }
                    }
                }
                components.push(component);
            }
            start += 1;
        }
        components
    }

    /// Graphviz text of the graph: a node for each statement that is not a label,
    /// jump or branch, labelled with its HTML-safe IR, and an edge per def-use pair.
    pub fn to_dot(&self) -> (r: String)
        ensures
            r@.len() >= 23,
            r@.subrange(0, 23) == "digraph SSA_Dataflow {\n"@,
    {
        proof {
            reveal_strlit("digraph SSA_Dataflow {\n");
        }
        let mut dot = "digraph SSA_Dataflow {\n".to_owned();
        let ghost head = dot@;
        dot.append("rankdir=TB;\n");
        dot.append("node [shape=box, fontname=\"Courier\"];\n");
        dot.append("edge [fontname=\"Courier\"];\n");
        let mut idx: usize = 0;
        while idx < self.ir.len()
            invariant
                idx <= self.ir@.len(),
                head.len() == 23,
                dot@.len() >= 23,
                dot@.subrange(0, 23) == head,
            decreases self.ir@.len() - idx,
        {
            let anchor = matches!(self.ir[idx], Ssa::Label(_)) || matches!(self.ir[idx], Ssa::Jump(_))
                || matches!(self.ir[idx], Ssa::Branch { .. });
            if !anchor {
                let ghost before = dot@;
                dot.append("block_");
                crate::numtext::push_usize(&mut dot, idx);
                dot.append(" [label=\"");
                let text = self.ir[idx].to_ir_string();
                crate::graphviz::push_html_safe(&mut dot, text.as_str());
                dot.append("\"];\n");
                proof {
                    assert(dot@.subrange(0, 23) =~= before.subrange(0, 23));
                }
            }
            idx += 1;
        }
        let mut d: usize = 0;
        while d < self.adjacency.len()
            invariant
                d <= self.adjacency@.len(),
                dot@.len() >= 23,
                dot@.subrange(0, 23) == head,
            decreases self.adjacency@.len() - d,
        {
            let mut k: usize = 0;
            while k < self.adjacency[d].len()
                invariant
                    d < self.adjacency@.len(),
                    k <= self.adjacency@[d as int]@.len(),
                    dot@.len() >= 23,
                    dot@.subrange(0, 23) == head,
                decreases self.adjacency@[d as int]@.len() - k,
            {
                let ghost before = dot@;
                dot.append("block_");
                crate::numtext::push_usize(&mut dot, d);
                dot.append(" -> block_");
                crate::numtext::push_usize(&mut dot, self.adjacency[d][k]);
                dot.append(";\n");
                proof {
                    assert(dot@.subrange(0, 23) =~= before.subrange(0, 23));
                }
                k += 1;
            }
            d += 1;
        }
        let ghost before = dot@;
        dot.append("}\n");
        proof {
            assert(dot@.subrange(0, 23) =~= before.subrange(0, 23));
        }
        dot
    }

    /// Whether the value defined at `d` is read anywhere in the block.
    pub fn has_users(&self, d: usize) -> (r: bool)
        requires
            self.wf(),
            d < self.block().len(),
        ensures
            r == exists|u: int| flows_to(self.block(), d as int, u),
    {
        let r = self.adjacency[d].len() > 0;
        proof {
            let us = self.uses()[d as int];
            assert(us == self.adjacency@[d as int]@);
            if r {
                let u = us[0];
                assert(us.contains(u));
                assert(flows_to(self.block(), d as int, u as int));
            } else {
                assert forall|u: int| !flows_to(self.block(), d as int, u) by {
                    if flows_to(self.block(), d as int, u) {
                        assert(0 <= u < self.block().len());
                        assert(self.block().len() == self.ir@.len());
                        let uu = u as usize;
                        assert(uu as int == u);
                        assert(flows_to(self.block(), d as int, uu as int));
                        assert(self.uses()[d as int].contains(uu));
                    }
                }
            }
        }
        r
    }
}

/// The operands read by a statement.
pub fn reads_of(s: &Ssa) -> (r: Vec<Address>)
    ensures
        r@.map_values(|a: Address| a.deep_view()) == reads(s.deep_view()),
{
    let mut out: Vec<Address> = Vec::new();
    match s {
        Ssa::Assignment { source, .. } => {
            if !source.is_constant() {
                out.push(source.duplicate());
            }
        },
        Ssa::Quadriplet(q) => {
            out.push(q.left.duplicate());
            match &q.right {
                Some(x) => out.push(x.duplicate()),
                None => {},
            }
        },
        Ssa::Call { parameters, .. } => {
            let mut i: usize = 0;
            while i < parameters.len()
                invariant
                    i <= parameters@.len(),
                    out@.map_values(|a: Address| a.deep_view()) =~= crate::nodes::params_v(parameters@).subrange(0, i as int).map_values(|p: crate::nodes::ParamV| p.value),
                decreases parameters@.len() - i,
            {
                let v = parameters[i].value.duplicate();
                let ghost prev = out@;
                out.push(v);
                proof {
                    assert(out@ == prev.push(v));
                    assert(crate::nodes::params_v(parameters@).subrange(0, i + 1) =~= crate::nodes::params_v(parameters@).subrange(0, i as int).push(crate::nodes::param_v(parameters@[i as int])));
                    assert(out@.map_values(|a: Address| a.deep_view()) =~= prev.map_values(|a: Address| a.deep_view()).push(v.deep_view()));
                }
                i += 1;
            }
            proof {
                assert(crate::nodes::params_v(parameters@).subrange(0, i as int) =~= crate::nodes::params_v(parameters@));
            }
        },
        Ssa::Return { value } => {
            match value {
                Some((a, _)) => out.push(a.duplicate()),
                None => {},
            }
        },
        Ssa::Branch { cond, .. } => out.push(cond.duplicate()),
        _ => {},
    }
    proof {
        assert(out@.map_values(|a: Address| a.deep_view()) =~= reads(s.deep_view()));
    }
    out
}

/// The address a statement defines, if any.
pub fn defined_of(s: &Ssa) -> (r: Option<&Address>)
    ensures
        match r {
            Some(a) => s.deep_view().defined() == Some(a.deep_view()),
            None => s.deep_view().defined() is None,
        },
{
    match s {
        Ssa::Quadriplet(q) => Some(&q.dest),
        Ssa::Assignment { dest, .. } => Some(dest),
        Ssa::Phi(p) => Some(&p.dest),
        Ssa::Call { dest: Some((d, _)), .. } => Some(d),
        _ => None,
    }
}

/// The last statement before `u` that defines `a`.
pub fn find_most_recent_def(block: &[Ssa], a: &Address, u: usize) -> (r: Option<usize>)
    requires
        u <= block@.len(),
    ensures
        match r {
            Some(d) => most_recent_def(body_v(block@), a.deep_view(), u as int) == Some(d as int),
            None => most_recent_def(body_v(block@), a.deep_view(), u as int) is None,
        },
{
    let mut i: usize = u;
    while i > 0
        invariant
            i <= u <= block@.len(),
            most_recent_def(body_v(block@), a.deep_view(), u as int) == most_recent_def(body_v(block@), a.deep_view(), i as int),
        decreases i,
    {
        match defined_of(&block[i - 1]) {
            Some(x) => {
                if x.same(a) {
                    return Some(i - 1);
                }
            },
            None => {},
        }
        i -= 1;
    }
    None
}

/// Whether the value defined at `d` is read at `u`.
pub fn value_flows(block: &[Ssa], d: usize, u: usize) -> (r: bool)
    requires
        d < block@.len(),
        u < block@.len(),
    ensures
        r == flows_to(body_v(block@), d as int, u as int),
{
    let rs = reads_of(&block[u]);
    let ghost rv = reads(body_v(block@)[u as int]);
    proof {
        assert(rv == rs@.map_values(|a: Address| a.deep_view()));
    }
    let mut i: usize = 0;
    while i < rs.len()
        invariant
            i <= rs@.len(),
            u < block@.len(),
            rv == rs@.map_values(|a: Address| a.deep_view()),
            rv == reads(body_v(block@)[u as int]),
            forall|t: int| 0 <= t < i ==> most_recent_def(body_v(block@), #[trigger] rv[t], u as int) != Some(d as int),
        decreases rs@.len() - i,
    {
        let m = find_most_recent_def(block, &rs[i], u);
        if m == Some(d) {
            proof {
                assert(rv[i as int] == rs@[i as int].deep_view());
                assert(rv == reads(body_v(block@)[u as int]));
                assert(0 <= i < reads(body_v(block@)[u as int]).len() && most_recent_def(body_v(block@), reads(body_v(block@)[u as int])[i as int], u as int) == Some(d as int));
            }
            return true;
        }
        proof {
            assert(rv[i as int] == rs@[i as int].deep_view());
        }
        i += 1;
    }
    false
}

} // verus!
