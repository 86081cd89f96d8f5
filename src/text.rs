use vstd::prelude::*;
use vstd::string::*;
use crate::common::Width;
use crate::nodes::{AddrV, Address, AddressConstant, FunctionParameter, Label, LabelV, Op, Ssa, ToplevelDeclaration, ToplevelItem};
use crate::numtext::{dec, digits, push_int, push_usize};

verus! {

pub open spec fn width_text(w: Width) -> Seq<char> {
    match w {
        Width::Byte => "b"@,
        Width::Short => "s"@,
        Width::Word => "w"@,
        Width::Long => "l"@,
    }
}

pub open spec fn op_text(op: Op) -> Seq<char> {
    match op {
        Op::Plus => "+"@,
        Op::Minus => "-"@,
        Op::Mul => "*"@,
        Op::Div => "/"@,
        Op::Gt => ">"@,
        Op::Lt => "<"@,
        Op::Eq => "=="@,
    }
}

/// `%_t<n>`, `%<name>.<version>`, `#<n>` or `s'<text>'`.
pub open spec fn addr_text(a: AddrV) -> Seq<char> {
    match a {
        AddrV::Temp(n) => "%_t"@ + digits(n as nat),
        AddrV::Source(name, v) => "%"@ + name + "."@ + digits(v as nat),
        AddrV::Num(n) => "#"@ + dec(n as int),
        AddrV::Str(s) => "s'"@ + s + "'"@,
    }
}

/// `@<name>`, or `@_l<n>` for a compiler label.
pub open spec fn label_text(l: LabelV) -> Seq<char> {
    match l {
        LabelV::Source(s) => "@"@ + s,
        LabelV::Temp(n) => "@"@ + "_l"@ + digits(n as nat),
    }
}

fn push_width(s: &mut String, w: Width)
    ensures
        final(s)@ == old(s)@ + width_text(w),
{
    match w {
        Width::Byte => s.append("b"),
        Width::Short => s.append("s"),
        Width::Word => s.append("w"),
        Width::Long => s.append("l"),
    }
}

fn push_op(s: &mut String, op: Op)
    ensures
        final(s)@ == old(s)@ + op_text(op),
{
    match op {
        Op::Plus => s.append("+"),
        Op::Minus => s.append("-"),
        Op::Mul => s.append("*"),
        Op::Div => s.append("/"),
        Op::Gt => s.append(">"),
        Op::Lt => s.append("<"),
        Op::Eq => s.append("=="),
    }
}

/// Textual form of IR values.
pub trait IrTextRepr {
    spec fn ir_text(&self) -> Seq<char>;

    fn to_ir_string(&self) -> (r: String)
        ensures
            r@ == self.ir_text();
}

impl IrTextRepr for Address {
    open spec fn ir_text(&self) -> Seq<char> {
        addr_text(self.deep_view())
    }

    fn to_ir_string(&self) -> (r: String) {
        let mut s = String::new();
        match self {
            Address::CompilerTemp(n) => {
                s.append("%_t");
                push_usize(&mut s, *n);
            },
            Address::Source(name, v) => {
                s.append("%");
                s.append(name.as_str());
                s.append(".");
                push_usize(&mut s, *v);
            },
            Address::Constant(AddressConstant::Numeric(n)) => {
                s.append("#");
                push_int(&mut s, *n);
            },
            Address::Constant(AddressConstant::StringLiteral(t)) => {
                s.append("s'");
                s.append(t.as_str());
                s.append("'");
            },
        }
        s
    }
}

impl IrTextRepr for Label {
    open spec fn ir_text(&self) -> Seq<char> {
        label_text(self.deep_view())
    }

    fn to_ir_string(&self) -> (r: String) {
        let mut s = "@".to_owned();
        match self {
            Label::Source(name) => {
                s.append(name.as_str());
            },
            Label::CompilerTemp(n) => {
                s.append("_l");
                push_usize(&mut s, *n);
            },
        }
        s
    }
}

/// `\tparam<n> <w> <value>`.
pub open spec fn param_text(p: FunctionParameter) -> Seq<char> {
    "\tparam"@ + digits(p.number as nat) + " "@ + width_text(p.width) + " "@ + addr_text(p.value.deep_view())
}

impl IrTextRepr for FunctionParameter {
    open spec fn ir_text(&self) -> Seq<char> {
        param_text(*self)
    }

    fn to_ir_string(&self) -> (r: String) {
        let mut s = "\tparam".to_owned();
        push_usize(&mut s, self.number);
        s.append(" ");
        push_width(&mut s, self.width);
        s.append(" ");
        s.append(self.value.to_ir_string().as_str());
        s
    }
}

/// The parameter lines of a call, each ended by a newline.
pub open spec fn params_text(ps: Seq<FunctionParameter>) -> Seq<char>
    decreases ps.len(),
{
    if ps.len() == 0 {
        Seq::empty()
    } else {
        params_text(ps.drop_last()) + param_text(ps.last()) + "\n"@
    }
}

/// The entries of a φ: `[<a>, <label>]`, separated by `, `.
pub open spec fn merging_text(m: Seq<(Address, Label)>) -> Seq<char>
    decreases m.len(),
{
    if m.len() == 0 {
        Seq::empty()
    } else {
        let entry = "["@ + addr_text(m.last().0.deep_view()) + ", "@ + label_text(m.last().1.deep_view()) + "]"@;
        if m.len() == 1 {
            entry
        } else {
            merging_text(m.drop_last()) + ", "@ + entry
        }
    }
}

/// The text of a statement.
pub open spec fn ssa_text(s: Ssa) -> Seq<char> {
    match s {
        Ssa::Quadriplet(q) => "\t"@ + addr_text(q.dest.deep_view()) + " ="@ + width_text(q.width) + " "@
            + addr_text(q.left.deep_view()) + " "@ + op_text(q.op) + match q.right {
                Some(r) => " "@ + addr_text(r.deep_view()),
                None => Seq::empty(),
            },
        Ssa::Assignment { dest, source, width } => "\t"@ + addr_text(dest.deep_view()) + " ="@ + width_text(width) + " "@
            + addr_text(source.deep_view()),
        Ssa::Phi(p) => "\t"@ + addr_text(p.dest.deep_view()) + " ="@ + width_text(p.width) + " phi "@ + merging_text(p.merging@),
        Ssa::Call { parameters, dest, func, .. } => params_text(parameters@) + match dest {
            Some((d, w)) => "\t"@ + addr_text(d.deep_view()) + " ="@ + width_text(w) + " call "@ + addr_text(func.deep_view()),
            None => "\tcall "@ + addr_text(func.deep_view()),
        },
        Ssa::Return { value } => match value {
            Some((a, w)) => "\treturn "@ + width_text(w) + " "@ + addr_text(a.deep_view()),
            None => "\treturn"@,
        },
        Ssa::Label(l) => label_text(l.deep_view()) + ":"@,
        Ssa::Jump(l) => "\tjump "@ + label_text(l.deep_view()),
        Ssa::Branch { cond, true_target, false_target, .. } => "\tbranch "@ + addr_text(cond.deep_view()) + ": "@
            + label_text(true_target.deep_view()) + " "@ + label_text(false_target.deep_view()),
    }
}

impl IrTextRepr for Ssa {
    open spec fn ir_text(&self) -> Seq<char> {
        ssa_text(*self)
    }

    fn to_ir_string(&self) -> (r: String) {
        let mut s = String::new();
        match self {
            Ssa::Quadriplet(q) => {
                s.append("\t");
                s.append(q.dest.to_ir_string().as_str());
                s.append(" =");
                push_width(&mut s, q.width);
                s.append(" ");
                s.append(q.left.to_ir_string().as_str());
                s.append(" ");
                push_op(&mut s, q.op);
                match &q.right {
                    Some(r) => {
                        s.append(" ");
                        s.append(r.to_ir_string().as_str());
                    },
                    None => {},
                }
            },
            Ssa::Assignment { dest, source, width } => {
                s.append("\t");
                s.append(dest.to_ir_string().as_str());
                s.append(" =");
                push_width(&mut s, *width);
                s.append(" ");
                s.append(source.to_ir_string().as_str());
            },
            Ssa::Phi(p) => {
                s.append("\t");
                s.append(p.dest.to_ir_string().as_str());
                s.append(" =");
                push_width(&mut s, p.width);
                s.append(" phi ");
                let mut i: usize = 0;
                let ghost base = s@;
                while i < p.merging.len()
                    invariant
                        i <= p.merging@.len(),
                        s@ == base + merging_text(p.merging@.subrange(0, i as int)),
                    decreases p.merging@.len() - i,
                {
                    let ghost sub = p.merging@.subrange(0, i + 1);
                    proof {
                        assert(sub.drop_last() =~= p.merging@.subrange(0, i as int));
                        assert(sub.last() == p.merging@[i as int]);
                    }
                    if i > 0 {
                        s.append(", ");
                    }
                    s.append("[");
                    s.append(p.merging[i].0.to_ir_string().as_str());
                    s.append(", ");
                    s.append(p.merging[i].1.to_ir_string().as_str());
                    s.append("]");
                    proof {
                        if i == 0 {
                            assert(p.merging@.subrange(0, 0) =~= Seq::<(Address, Label)>::empty());
                        }
                    }
                    i += 1;
                }
                proof {
                    assert(p.merging@.subrange(0, p.merging@.len() as int) =~= p.merging@);
                }
            },
            Ssa::Call { parameters, dest, func, .. } => {
                let mut i: usize = 0;
                while i < parameters.len()
                    invariant
                        i <= parameters@.len(),
                        s@ == params_text(parameters@.subrange(0, i as int)),
                    decreases parameters@.len() - i,
                {
                    let ghost sub = parameters@.subrange(0, i + 1);
                    proof {
                        assert(sub.drop_last() =~= parameters@.subrange(0, i as int));
                        assert(sub.last() == parameters@[i as int]);
                    }
                    s.append(parameters[i].to_ir_string().as_str());
                    s.append("\n");
                    i += 1;
                }
                proof {
                    assert(parameters@.subrange(0, parameters@.len() as int) =~= parameters@);
                }
                match dest {
                    Some((d, w)) => {
                        s.append("\t");
                        s.append(d.to_ir_string().as_str());
                        s.append(" =");
                        push_width(&mut s, *w);
                        s.append(" call ");
                    },
                    None => {
                        s.append("\tcall ");
                    },
                }
                s.append(func.to_ir_string().as_str());
            },
            Ssa::Return { value } => {
                match value {
                    Some((a, w)) => {
                        s.append("\treturn ");
                        push_width(&mut s, *w);
                        s.append(" ");
                        s.append(a.to_ir_string().as_str());
                    },
                    None => {
                        s.append("\treturn");
                    },
                }
            },
            Ssa::Label(l) => {
                s.append(l.to_ir_string().as_str());
                s.append(":");
            },
            Ssa::Jump(l) => {
                s.append("\tjump ");
                s.append(l.to_ir_string().as_str());
            },
            Ssa::Branch { cond, true_target, false_target, .. } => {
                s.append("\tbranch ");
                s.append(cond.to_ir_string().as_str());
                s.append(": ");
                s.append(true_target.to_ir_string().as_str());
                s.append(" ");
                s.append(false_target.to_ir_string().as_str());
            },
        }
        s
    }
}

/// The body lines of a function, each ended by a newline.
pub open spec fn body_text(b: Seq<Ssa>) -> Seq<char>
    decreases b.len(),
{
    if b.len() == 0 {
        Seq::empty()
    } else {
        body_text(b.drop_last()) + ssa_text(b.last()) + "\n"@
    }
}

/// `<w> %<name>` entries separated by `, `.
pub open spec fn fn_params_text(ps: Seq<(String, Width)>) -> Seq<char>
    decreases ps.len(),
{
    if ps.len() == 0 {
        Seq::empty()
    } else {
        let entry = width_text(ps.last().1) + " %"@ + ps.last().0@;
        if ps.len() == 1 {
            entry
        } else {
            fn_params_text(ps.drop_last()) + ", "@ + entry
        }
    }
}

/// `function <w> <name> (<params>) {`, the body, `}`; a declaration prints as
/// `declare <w> <name>`.
pub open spec fn item_text(item: ToplevelItem) -> Seq<char> {
    match item {
        ToplevelItem::Function(f) => "function "@ + width_text(f.return_width) + " "@ + f.name@ + " ("@
            + fn_params_text(f.parameters@) + ") {\n"@ + body_text(f.body@) + "}\n"@,
        ToplevelItem::Declaration(ToplevelDeclaration::Function { name, return_width, .. }) => "declare "@
            + width_text(return_width) + " "@ + name@ + "\n"@,
    }
}

pub open spec fn unit_text(u: Seq<ToplevelItem>) -> Seq<char>
    decreases u.len(),
{
    if u.len() == 0 {
        Seq::empty()
    } else {
        unit_text(u.drop_last()) + item_text(u.last())
    }
}

fn item_into_text(s: &mut String, item: &ToplevelItem)
    ensures
        final(s)@ == old(s)@ + item_text(*item),
{
    match item {
        ToplevelItem::Function(f) => {
            s.append("function ");
            push_width(s, f.return_width);
            s.append(" ");
            s.append(f.name.as_str());
            s.append(" (");
            let ghost base = s@;
            let mut i: usize = 0;
            while i < f.parameters.len()
                invariant
                    i <= f.parameters@.len(),
                    s@ == base + fn_params_text(f.parameters@.subrange(0, i as int)),
                decreases f.parameters@.len() - i,
            {
                let ghost sub = f.parameters@.subrange(0, i + 1);
                proof {
                    assert(sub.drop_last() =~= f.parameters@.subrange(0, i as int));
                    assert(sub.last() == f.parameters@[i as int]);
                    if i == 0 {
                        assert(f.parameters@.subrange(0, 0) =~= Seq::<(String, Width)>::empty());
                    }
                }
                if i > 0 {
                    s.append(", ");
                }
                push_width(s, f.parameters[i].1);
                s.append(" %");
                s.append(f.parameters[i].0.as_str());
                i += 1;
            }
            proof {
                assert(f.parameters@.subrange(0, f.parameters@.len() as int) =~= f.parameters@);
            }
            s.append(") {\n");
            let ghost base2 = s@;
            let mut k: usize = 0;
            while k < f.body.len()
                invariant
                    k <= f.body@.len(),
                    s@ == base2 + body_text(f.body@.subrange(0, k as int)),
                decreases f.body@.len() - k,
            {
                let ghost sub = f.body@.subrange(0, k + 1);
                proof {
                    assert(sub.drop_last() =~= f.body@.subrange(0, k as int));
                    assert(sub.last() == f.body@[k as int]);
                }
                s.append(f.body[k].to_ir_string().as_str());
                s.append("\n");
                k += 1;
            }
            proof {
                assert(f.body@.subrange(0, f.body@.len() as int) =~= f.body@);
            }
            s.append("}\n");
        },
        ToplevelItem::Declaration(ToplevelDeclaration::Function { name, return_width, .. }) => {
            s.append("declare ");
            push_width(s, *return_width);
            s.append(" ");
            s.append(name.as_str());
            s.append("\n");
        },
    }
}

/// The textual IR of a translation unit.
pub fn into_text(unit: &[ToplevelItem]) -> (r: String)
    ensures
        r@ == unit_text(unit@),
{
    let mut s = String::new();
    let mut i: usize = 0;
    while i < unit.len()
        invariant
            i <= unit@.len(),
            s@ == unit_text(unit@.subrange(0, i as int)),
        decreases unit@.len() - i,
    {
        let ghost sub = unit@.subrange(0, i + 1);
        proof {
            assert(sub.drop_last() =~= unit@.subrange(0, i as int));
            assert(sub.last() == unit@[i as int]);
        }
        item_into_text(&mut s, &unit[i]);
        i += 1;
    }
    proof {
        assert(unit@.subrange(0, unit@.len() as int) =~= unit@);
    }
    s
}

} // verus!
