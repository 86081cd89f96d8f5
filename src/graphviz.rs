use vstd::prelude::*;
use vstd::string::*;
use crate::controlflow::{BasicBlock, ControlFlowGraph};
use crate::numtext::digits;
use crate::nodes::{FunctionDef, Label, Ssa};
use crate::text::IrTextRepr;

verus! {

/// `c` as HTML-safe text: `&`, `<`, `>`, `"`, `'` and `/` become entities.
pub open spec fn html_safe_char(c: char) -> Seq<char> {
    if c == '&' {
        "&amp;"@
    } else if c == '<' {
        "&lt;"@
    } else if c == '>' {
        "&gt;"@
    } else if c == '"' {
        "&quot;"@
    } else if c == '\'' {
        "&#x27;"@
    } else if c == '/' {
        "&#x2F;"@
    } else {
        seq![c]
    }
}

/// `s` with each character made HTML-safe.
pub open spec fn html_safe(s: Seq<char>) -> Seq<char>
    decreases s.len(),
{
    if s.len() == 0 {
        Seq::empty()
    } else {
        html_safe(s.drop_last()) + html_safe_char(s.last())
    }
}

/// Relies on html_escape::encode_safe_to_string: it appends `text` to `out` with
/// `&`, `<`, `>`, `"`, `'` and `/` replaced by their HTML entities.
#[verifier::external_body]
pub(crate) fn push_html_safe(out: &mut String, text: &str)
    ensures
        final(out)@ == old(out)@ + html_safe(text@),
{
    html_escape::encode_safe_to_string(text, out);
}

/// Appends the IR text of a statement, made HTML-safe.
pub fn push_escaped_statement(out: &mut String, s: &Ssa)
    ensures
        final(out)@ == old(out)@ + html_safe(crate::text::ssa_text(*s)),
{
    let text = s.to_ir_string();
    push_html_safe(out, text.as_str());
}

fn push_label(out: &mut String, l: &Label)
    ensures
        final(out)@ == old(out)@ + crate::text::label_text(l.deep_view()),
{
    let t = l.to_ir_string();
    out.append(t.as_str());
}

/// Graphviz text of a function's control-flow graph.
pub fn graphviz_function(declaration: &FunctionDef) -> (r: String)
    ensures
        exists|g: ControlFlowGraph| #[trigger] g.graph_of(declaration.body@) && r@.len() >= (dot_header() + nodes_text(g.blocks_spec()) + edges_text(g.successors())).len()
            && r@.subrange(0, (dot_header() + nodes_text(g.blocks_spec()) + edges_text(g.successors())).len() as int)
                == dot_header() + nodes_text(g.blocks_spec()) + edges_text(g.successors()),
{
    let cfg = ControlFlowGraph::new(&declaration.body);
    cfg.to_dot()
}

/// The separator between the statements of a node.
pub open spec fn dot_sep() -> Seq<char> {
    "<BR ALIGN=\"LEFT\"/>    "@
}

/// The graph's opening lines.
pub open spec fn dot_header() -> Seq<char> {
    "digraph SSA {\n"@ + "rankdir=TB;\n"@ + "node [shape=rectangle, fontname=\"Courier\"];\n"@
}

/// The statements of a block as HTML-safe IR, each followed by the separator.
pub open spec fn stmts_text(ir: Seq<Ssa>) -> Seq<char>
    decreases ir.len(),
{
    if ir.len() == 0 {
        Seq::empty()
    } else {
        stmts_text(ir.drop_last()) + html_safe(crate::text::ssa_text(ir.last())) + dot_sep()
    }
}

/// The node of block `k`.
pub open spec fn node_text(k: nat, b: BasicBlock) -> Seq<char> {
    "block_"@ + digits(k) + " [label=<"@ + stmts_text(b.ir@) + ">];\n"@
}

/// One node per block, in order.
pub open spec fn nodes_text(bl: Seq<BasicBlock>) -> Seq<char>
    decreases bl.len(),
{
    if bl.len() == 0 {
        Seq::empty()
    } else {
        nodes_text(bl.drop_last()) + node_text((bl.len() - 1) as nat, bl.last())
    }
}

/// The edges from block `k` to each of `ss`.
pub open spec fn edges_of(k: nat, ss: Seq<usize>) -> Seq<char>
    decreases ss.len(),
{
    if ss.len() == 0 {
        Seq::empty()
    } else {
        edges_of(k, ss.drop_last()) + "block_"@ + digits(k) + " -> block_"@ + digits(ss.last() as nat) + ";\n"@
    }
}

/// One edge per successor of each block, in order.
pub open spec fn edges_text(succ: Seq<Seq<usize>>) -> Seq<char>
    decreases succ.len(),
{
    if succ.len() == 0 {
        Seq::empty()
    } else {
        edges_text(succ.drop_last()) + edges_of((succ.len() - 1) as nat, succ.last())
    }
}

impl ControlFlowGraph {
    /// Graphviz text of the graph: one node per block, listing its statements as
    /// HTML-safe IR, then an edge per successor, then a dashed edge per value a φ
    /// takes from another block.
    pub fn to_dot(&self) -> (r: String)
        ensures
            r@.len() >= (dot_header() + nodes_text(self.blocks_spec()) + edges_text(self.successors())).len(),
            r@.subrange(0, (dot_header() + nodes_text(self.blocks_spec()) + edges_text(self.successors())).len() as int)
                == dot_header() + nodes_text(self.blocks_spec()) + edges_text(self.successors()),
            r@.last() == '}',
    {
        let blocks = self.blocks();
        let succ = self.control_adjacency();
        let sep = "<BR ALIGN=\"LEFT\"/>    ";
        proof {
            reveal_strlit("<BR ALIGN=\"LEFT\"/>    ");
            assert(sep@ == dot_sep());
        }
        let mut res = "digraph SSA {\n".to_owned();
        res.append("rankdir=TB;\n");
        res.append("node [shape=rectangle, fontname=\"Courier\"];\n");
        proof {
            assert(blocks@.subrange(0, 0) =~= Seq::<BasicBlock>::empty());
            assert(res@ =~= dot_header() + nodes_text(blocks@.subrange(0, 0)));
        }
        let mut k: usize = 0;
        while k < blocks.len()
            invariant
                k <= blocks@.len(),
                sep@ == dot_sep(),
                res@ == dot_header() + nodes_text(blocks@.subrange(0, k as int)),
            decreases blocks@.len() - k,
        {
            let ghost before = res@;
            res.append("block_");
            crate::numtext::push_usize(&mut res, k);
            res.append(" [label=<");
            let ghost opened = res@;
            let ir = &blocks[k].ir;
            proof {
                assert(ir@.subrange(0, 0) =~= Seq::<Ssa>::empty());
                assert(res@ =~= opened + stmts_text(ir@.subrange(0, 0)));
            }
            let mut j: usize = 0;
            while j < ir.len()
                invariant
                    j <= ir@.len(),
                    sep@ == dot_sep(),
                    res@ == opened + stmts_text(ir@.subrange(0, j as int)),
                decreases ir@.len() - j,
            {
                push_escaped_statement(&mut res, &ir[j]);
                res.append(sep);
                proof {
                    let sub = ir@.subrange(0, j + 1);
                    assert(sub.drop_last() =~= ir@.subrange(0, j as int));
                    assert(sub.last() == ir@[j as int]);
                    assert(res@ =~= opened + stmts_text(sub));
                }
                j += 1;
            }
            res.append(">];\n");
            proof {
                assert(ir@.subrange(0, ir@.len() as int) =~= ir@);
                let sub = blocks@.subrange(0, k + 1);
                assert(sub.drop_last() =~= blocks@.subrange(0, k as int));
                assert(sub.last() == blocks@[k as int]);
                assert(res@ =~= dot_header() + nodes_text(sub));
            }
            k += 1;
        }
        let ghost sv = succ@.map_values(|v: Vec<usize>| v@);
        proof {
            assert(blocks@.subrange(0, blocks@.len() as int) =~= blocks@);
            assert(sv.subrange(0, 0) =~= Seq::<Seq<usize>>::empty());
            assert(res@ =~= dot_header() + nodes_text(blocks@) + edges_text(sv.subrange(0, 0)));
        }
        let mut k: usize = 0;
        while k < succ.len()
            invariant
                k <= succ@.len(),
                sv == succ@.map_values(|v: Vec<usize>| v@),
                res@ == dot_header() + nodes_text(blocks@) + edges_text(sv.subrange(0, k as int)),
            decreases succ@.len() - k,
        {
            let ghost start = res@;
            proof {
                assert(succ@[k as int]@.subrange(0, 0) =~= Seq::<usize>::empty());
                assert(res@ =~= start + edges_of(k as nat, succ@[k as int]@.subrange(0, 0)));
            }
            let mut j: usize = 0;
            while j < succ[k].len()
                invariant
                    k < succ@.len(),
                    j <= succ@[k as int]@.len(),
                    res@ == start + edges_of(k as nat, succ@[k as int]@.subrange(0, j as int)),
                decreases succ@[k as int]@.len() - j,
            {
                res.append("block_");
                crate::numtext::push_usize(&mut res, k);
                res.append(" -> block_");
                crate::numtext::push_usize(&mut res, succ[k][j]);
                res.append(";\n");
                proof {
                    let sub = succ@[k as int]@.subrange(0, j + 1);
                    assert(sub.drop_last() =~= succ@[k as int]@.subrange(0, j as int));
                    assert(sub.last() == succ@[k as int]@[j as int]);
                    assert(res@ =~= start + edges_of(k as nat, sub));
                }
                j += 1;
            }
            proof {
                assert(succ@[k as int]@.subrange(0, succ@[k as int]@.len() as int) =~= succ@[k as int]@);
                let sub = sv.subrange(0, k + 1);
                assert(sub.drop_last() =~= sv.subrange(0, k as int));
                assert(sub.last() == succ@[k as int]@);
                assert(res@ =~= dot_header() + nodes_text(blocks@) + edges_text(sub));
            }
            k += 1;
        }
        let ghost prefix = res@;
        proof {
            assert(sv.subrange(0, succ@.len() as int) =~= sv);
            assert(prefix == dot_header() + nodes_text(self.blocks_spec()) + edges_text(self.successors()));
            assert(res@.subrange(0, prefix.len() as int) =~= prefix);
        }
        res.append("edge [color=red, style=dashed, constraint=false];\n");
        let mut k: usize = 0;
        while k < blocks.len()
            invariant
                k <= blocks@.len(),
                res@.len() >= prefix.len(),
                res@.subrange(0, prefix.len() as int) == prefix,
            decreases blocks@.len() - k,
        {
            let ir = &blocks[k].ir;
            let mut j: usize = 0;
            while j < ir.len()
                invariant
                    j <= ir@.len(),
                    k < blocks@.len(),
                    ir@ == blocks@[k as int].ir@,
                    res@.len() >= prefix.len(),
                    res@.subrange(0, prefix.len() as int) == prefix,
                decreases ir@.len() - j,
            {
                if let Ssa::Phi(phi) = &ir[j] {
                    let mut m: usize = 0;
                    while m < phi.merging.len()
                        invariant
                            m <= phi.merging@.len(),
                            res@.len() >= prefix.len(),
                            res@.subrange(0, prefix.len() as int) == prefix,
                        decreases phi.merging@.len() - m,
                    {
                        let ghost before = res@;
                        res.append("\"");
                        push_label(&mut res, &phi.merging[m].1);
                        res.append("\" -> block_");
                        crate::numtext::push_usize(&mut res, k);
                        res.append(" [label=\"");
                        push_html_safe(&mut res, phi.merging[m].0.to_ir_string().as_str());
                        res.append(" -&gt; phi\"];\n");
                        proof {
                            assert(res@.subrange(0, prefix.len() as int) =~= before.subrange(0, prefix.len() as int));
                        }
                        m += 1;
                    }
                }
                j += 1;
            }
            k += 1;
        }
        let ghost before = res@;
        res.append("}");
        proof {
            reveal_strlit("}");
            assert(res@.subrange(0, prefix.len() as int) =~= before.subrange(0, prefix.len() as int));
        }
        res
    }
}

} // verus!
