use vstd::prelude::*;
use crate::common::{StorageClass, Width};
use crate::ast;

verus! {

/// Binary operator of a quadruple.
#[derive(Debug, Clone, Copy, PartialEq, Eq, Structural)]
pub enum Op {
    Plus,
    Mul,
    Minus,
    Div,
    Gt,
    Lt,
    Eq,
}

/// Value of `op` applied to two constants: two's-complement wrapping arithmetic,
/// comparisons give 0 or 1, and division by zero has no value.
pub open spec fn apply_spec(op: Op, left: i64, right: i64) -> Option<i64> {
    match op {
        Op::Plus => Some(left.wrapping_add(right)),
        Op::Minus => Some(left.wrapping_sub(right)),
        Op::Mul => Some(left.wrapping_mul(right)),
        Op::Div => if right == 0 {
            None
        } else if left == i64::MIN && right == -1 {
            Some(i64::MIN)
        } else {
            left.checked_div(right)
        },
        Op::Eq => Some(if left == right { 1i64 } else { 0i64 }),
        Op::Gt => Some(if left > right { 1i64 } else { 0i64 }),
        Op::Lt => Some(if left < right { 1i64 } else { 0i64 }),
    }
}

pub open spec fn is_cmp_spec(op: Op) -> bool {
    op == Op::Eq || op == Op::Lt || op == Op::Gt
}

impl Op {
    pub fn from_binop(binop: &ast::BinOp) -> (r: Op)
        ensures
            r == op_of_binop(*binop),
    {
        match binop {
            ast::BinOp::Mul => Op::Mul,
            ast::BinOp::Plus => Op::Plus,
            ast::BinOp::Minus => Op::Minus,
            ast::BinOp::Div => Op::Div,
            ast::BinOp::Gt => Op::Gt,
            ast::BinOp::Lt => Op::Lt,
            ast::BinOp::Eq => Op::Eq,
        }
    }

    pub fn is_cmp(&self) -> (r: bool)
        ensures
            r == is_cmp_spec(*self),
    {
        match self {
            Op::Eq | Op::Lt | Op::Gt => true,
            _ => false,
        }
    }

    /// Evaluates the operator on two constants; `None` for a division by zero.
    pub fn apply_constant(&self, left: i64, right: i64) -> (r: Option<i64>)
        ensures
            r == apply_spec(*self, left, right),
            is_cmp_spec(*self) ==> (r == Some(0i64) || r == Some(1i64)),
    {
        match self {
            Op::Div => {
                if right == 0 {
                    None
                } else if left == i64::MIN && right == -1 {
                    Some(i64::MIN)
                } else {
                    left.checked_div(right)
                }
            },
            Op::Mul => Some(left.wrapping_mul(right)),
            Op::Plus => Some(left.wrapping_add(right)),
            Op::Minus => Some(left.wrapping_sub(right)),
            Op::Eq => Some(if left == right { 1i64 } else { 0i64 }),
            Op::Gt => Some(if left > right { 1i64 } else { 0i64 }),
            Op::Lt => Some(if left < right { 1i64 } else { 0i64 }),
        }
    }
}

pub open spec fn op_of_binop(b: ast::BinOp) -> Op {
    match b {
        ast::BinOp::Mul => Op::Mul,
        ast::BinOp::Plus => Op::Plus,
        ast::BinOp::Minus => Op::Minus,
        ast::BinOp::Div => Op::Div,
        ast::BinOp::Gt => Op::Gt,
        ast::BinOp::Lt => Op::Lt,
        ast::BinOp::Eq => Op::Eq,
    }
}

/// A constant operand.
#[derive(Debug, Clone)]
pub enum AddressConstant {
    Numeric(i64),
    StringLiteral(String),
}

/// An SSA value operand.
#[derive(Debug, Clone)]
pub enum Address {
    Source(String, usize),
    CompilerTemp(usize),
    Constant(AddressConstant),
}

/// Mathematical model of an [`Address`].
pub enum AddrV {
    Source(Seq<char>, usize),
    Temp(usize),
    Num(i64),
    Str(Seq<char>),
}

impl DeepView for Address {
    type V = AddrV;

    open spec fn deep_view(&self) -> AddrV {
        match self {
            Address::Source(n, v) => AddrV::Source(n@, *v),
            Address::CompilerTemp(t) => AddrV::Temp(*t),
            Address::Constant(AddressConstant::Numeric(n)) => AddrV::Num(*n),
            Address::Constant(AddressConstant::StringLiteral(s)) => AddrV::Str(s@),
        }
    }
}

impl AddrV {
    pub open spec fn is_const(self) -> bool {
        self is Num || self is Str
    }
}

impl AddressConstant {
    pub fn duplicate(&self) -> (r: AddressConstant)
        ensures
            r == *self,
    {
        match self {
            AddressConstant::Numeric(n) => AddressConstant::Numeric(*n),
            AddressConstant::StringLiteral(s) => AddressConstant::StringLiteral(s.clone()),
        }
    }
}

impl Address {
    pub fn source_count(s: String, count: usize) -> (r: Address)
        ensures
            r.deep_view() == AddrV::Source(s@, count),
    {
        Address::Source(s, count)
    }

    pub fn constant(c: AddressConstant) -> (r: Address)
        ensures
            r == Address::Constant(c),
    {
        Address::Constant(c)
    }

    pub fn constant_i64(c: i64) -> (r: Address)
        ensures
            r.deep_view() == AddrV::Num(c),
    {
        Address::Constant(AddressConstant::Numeric(c))
    }

    pub fn compiler_temp(n: usize) -> (r: Address)
        ensures
            r.deep_view() == AddrV::Temp(n),
    {
        Address::CompilerTemp(n)
    }

    /// The variable name of a source address.
    pub fn get_source(&self) -> (r: &str)
        requires
            self is Source,
        ensures
            self.deep_view() == AddrV::Source(r@, self->Source_1),
    {
        match self {
            Address::Source(s, _) => s.as_str(),
            _ => "",
        }
    }

    pub fn try_get_source(&self) -> (r: Option<&str>)
        ensures
            r is Some <==> self is Source,
            r is Some ==> self.deep_view() == AddrV::Source(r->0@, self->Source_1),
    {
        match self {
            Address::Source(s, _) => Some(s.as_str()),
            _ => None,
        }
    }

    pub fn duplicate(&self) -> (r: Address)
        ensures
            r == *self,
    {
        match self {
            Address::Source(s, v) => Address::Source(s.clone(), *v),
            Address::CompilerTemp(t) => Address::CompilerTemp(*t),
            Address::Constant(c) => Address::Constant(c.duplicate()),
        }
    }

    /// Compares two addresses by value.
    pub fn same(&self, other: &Address) -> (r: bool)
        ensures
            r == (self.deep_view() == other.deep_view()),
    {
        match (self, other) {
            (Address::Source(a, va), Address::Source(b, vb)) => *va == *vb && *a == *b,
            (Address::CompilerTemp(a), Address::CompilerTemp(b)) => *a == *b,
            (Address::Constant(AddressConstant::Numeric(a)), Address::Constant(AddressConstant::Numeric(b))) => *a == *b,
            (Address::Constant(AddressConstant::StringLiteral(a)), Address::Constant(AddressConstant::StringLiteral(b))) => *a == *b,
            _ => false,
        }
    }

    pub fn is_constant(&self) -> (r: bool)
        ensures
            r == self.deep_view().is_const(),
    {
        matches!(self, Address::Constant(_))
    }
}

/// A jump target.
#[derive(Debug, Clone)]
pub enum Label {
    Source(String),
    CompilerTemp(usize),
}

/// Mathematical model of a [`Label`].
pub enum LabelV {
    Source(Seq<char>),
    Temp(usize),
}

impl DeepView for Label {
    type V = LabelV;

    open spec fn deep_view(&self) -> LabelV {
        match self {
            Label::Source(s) => LabelV::Source(s@),
            Label::CompilerTemp(t) => LabelV::Temp(*t),
        }
    }
}

impl Label {
    pub fn source(s: String) -> (r: Label)
        ensures
            r.deep_view() == LabelV::Source(s@),
    {
        Label::Source(s)
    }

    pub fn compiler_temp(n: usize) -> (r: Label)
        ensures
            r.deep_view() == LabelV::Temp(n),
    {
        Label::CompilerTemp(n)
    }

    pub fn duplicate(&self) -> (r: Label)
        ensures
            r == *self,
    {
        match self {
            Label::Source(s) => Label::Source(s.clone()),
            Label::CompilerTemp(t) => Label::CompilerTemp(*t),
        }
    }

    /// Compares two labels by value.
    pub fn same(&self, other: &Label) -> (r: bool)
        ensures
            r == (self.deep_view() == other.deep_view()),
    {
        match (self, other) {
            (Label::Source(a), Label::Source(b)) => *a == *b,
            (Label::CompilerTemp(a), Label::CompilerTemp(b)) => *a == *b,
            _ => false,
        }
    }
}

/// A three-address instruction `dest = left op right`.
#[derive(Debug, Clone)]
pub struct Quadriplet {
    pub width: Width,
    pub dest: Address,
    pub op: Op,
    pub left: Address,
    pub right: Option<Address>,
}

/// A φ-function: `dest` takes the value that flows in from the predecessor labelled
/// in each entry of `merging`.
#[derive(Debug, Clone)]
pub struct PhiFunction {
    pub dest: Address,
    pub width: Width,
    pub merging: Vec<(Address, Label)>,
}

/// One argument of a call.
#[derive(Debug, Clone)]
pub struct FunctionParameter {
    pub number: usize,
    pub value: Address,
    pub width: Width,
    pub is_variadic: bool,
}

/// An SSA statement.
#[derive(Debug, Clone)]
pub enum Ssa {
    Quadriplet(Quadriplet),
    Assignment { dest: Address, source: Address, width: Width },
    Phi(PhiFunction),
    Call {
        parameters: Vec<FunctionParameter>,
        dest: Option<(Address, Width)>,
        func: Address,
        num_params: usize,
    },
    Return { value: Option<(Address, Width)> },
    Label(Label),
    Jump(Label),
    Branch { width: Width, cond: Address, true_target: Label, false_target: Label },
}

/// Model of a call argument.
pub struct ParamV {
    pub number: usize,
    pub value: AddrV,
    pub width: Width,
    pub is_variadic: bool,
}

/// Mathematical model of an [`Ssa`] statement.
pub enum SsaV {
    Quad { width: Width, dest: AddrV, op: Op, left: AddrV, right: Option<AddrV> },
    Assign { dest: AddrV, source: AddrV, width: Width },
    Phi { dest: AddrV, width: Width, merging: Seq<(AddrV, LabelV)> },
    Call { parameters: Seq<ParamV>, dest: Option<(AddrV, Width)>, func: AddrV, num_params: usize },
    Return { value: Option<(AddrV, Width)> },
    Label(LabelV),
    Jump(LabelV),
    Branch { width: Width, cond: AddrV, true_target: LabelV, false_target: LabelV },
}

pub open spec fn opt_addr_v(a: Option<Address>) -> Option<AddrV> {
    match a {
        Some(x) => Some(x.deep_view()),
        None => None,
    }
}

pub open spec fn opt_pair_v(a: Option<(Address, Width)>) -> Option<(AddrV, Width)> {
    match a {
        Some(x) => Some((x.0.deep_view(), x.1)),
        None => None,
    }
}

pub open spec fn param_v(p: FunctionParameter) -> ParamV {
    ParamV { number: p.number, value: p.value.deep_view(), width: p.width, is_variadic: p.is_variadic }
}

pub open spec fn params_v(ps: Seq<FunctionParameter>) -> Seq<ParamV> {
    ps.map_values(|p: FunctionParameter| param_v(p))
}

pub open spec fn merging_v(m: Seq<(Address, Label)>) -> Seq<(AddrV, LabelV)> {
    m.map_values(|e: (Address, Label)| (e.0.deep_view(), e.1.deep_view()))
}

impl DeepView for Ssa {
    type V = SsaV;

    open spec fn deep_view(&self) -> SsaV {
        match self {
            Ssa::Quadriplet(q) => SsaV::Quad {
                width: q.width,
                dest: q.dest.deep_view(),
                op: q.op,
                left: q.left.deep_view(),
                right: opt_addr_v(q.right),
            },
            Ssa::Assignment { dest, source, width } => SsaV::Assign {
                dest: dest.deep_view(),
                source: source.deep_view(),
                width: *width,
            },
            Ssa::Phi(p) => SsaV::Phi { dest: p.dest.deep_view(), width: p.width, merging: merging_v(p.merging@) },
            Ssa::Call { parameters, dest, func, num_params } => SsaV::Call {
                parameters: params_v(parameters@),
                dest: opt_pair_v(*dest),
                func: func.deep_view(),
                num_params: *num_params,
            },
            Ssa::Return { value } => SsaV::Return { value: opt_pair_v(*value) },
            Ssa::Label(l) => SsaV::Label(l.deep_view()),
            Ssa::Jump(l) => SsaV::Jump(l.deep_view()),
            Ssa::Branch { width, cond, true_target, false_target } => SsaV::Branch {
                width: *width,
                cond: cond.deep_view(),
                true_target: true_target.deep_view(),
                false_target: false_target.deep_view(),
            },
        }
    }
}

impl SsaV {
    /// Whether control never falls through to the next statement.
    pub open spec fn is_terminator(self) -> bool {
        self is Jump || self is Branch || self is Return
    }

    /// The address this statement defines, if any.
    pub open spec fn defined(self) -> Option<AddrV> {
        match self {
            SsaV::Quad { dest, .. } => Some(dest),
            SsaV::Assign { dest, .. } => Some(dest),
            SsaV::Phi { dest, .. } => Some(dest),
            SsaV::Call { dest: Some(d), .. } => Some(d.0),
            _ => None,
        }
    }
}

pub fn duplicate_opt_pair(a: &Option<(Address, Width)>) -> (r: Option<(Address, Width)>)
    ensures
        r == *a,
{
    match a {
        Some((x, w)) => Some((x.duplicate(), *w)),
        None => None,
    }
}

impl FunctionParameter {
    pub fn duplicate(&self) -> (r: FunctionParameter)
        ensures
            r == *self,
    {
        FunctionParameter {
            number: self.number,
            value: self.value.duplicate(),
            width: self.width,
            is_variadic: self.is_variadic,
        }
    }
}

pub fn duplicate_params(ps: &Vec<FunctionParameter>) -> (r: Vec<FunctionParameter>)
    ensures
        r@ == ps@,
{
    let mut out: Vec<FunctionParameter> = Vec::new();
    let mut i: usize = 0;
    while i < ps.len()
        invariant
            i <= ps@.len(),
            out@ == ps@.subrange(0, i as int),
        decreases ps@.len() - i,
    {
        out.push(ps[i].duplicate());
        i += 1;
        proof {
            assert(out@ =~= ps@.subrange(0, i as int));
        }
    }
    proof {
        assert(out@ =~= ps@);
    }
    out
}

pub fn duplicate_merging(ps: &Vec<(Address, Label)>) -> (r: Vec<(Address, Label)>)
    ensures
        r@ == ps@,
{
    let mut out: Vec<(Address, Label)> = Vec::new();
    let mut i: usize = 0;
    while i < ps.len()
        invariant
            i <= ps@.len(),
            out@ == ps@.subrange(0, i as int),
        decreases ps@.len() - i,
    {
        out.push((ps[i].0.duplicate(), ps[i].1.duplicate()));
        i += 1;
        proof {
            assert(out@ =~= ps@.subrange(0, i as int));
        }
    }
    proof {
        assert(out@ =~= ps@);
    }
    out
}

impl Ssa {
    pub fn duplicate(&self) -> (r: Ssa)
        ensures
            r.deep_view() == self.deep_view(),
    {
        match self {
            Ssa::Quadriplet(q) => Ssa::Quadriplet(Quadriplet {
                width: q.width,
                dest: q.dest.duplicate(),
                op: q.op,
                left: q.left.duplicate(),
                right: match &q.right {
                    Some(x) => Some(x.duplicate()),
                    None => None,
                },
            }),
            Ssa::Assignment { dest, source, width } => Ssa::Assignment {
                dest: dest.duplicate(),
                source: source.duplicate(),
                width: *width,
            },
            Ssa::Phi(p) => Ssa::Phi(PhiFunction {
                dest: p.dest.duplicate(),
                width: p.width,
                merging: duplicate_merging(&p.merging),
            }),
            Ssa::Call { parameters, dest, func, num_params } => Ssa::Call {
                parameters: duplicate_params(parameters),
                dest: duplicate_opt_pair(dest),
                func: func.duplicate(),
                num_params: *num_params,
            },
            Ssa::Return { value } => Ssa::Return { value: duplicate_opt_pair(value) },
            Ssa::Label(l) => Ssa::Label(l.duplicate()),
            Ssa::Jump(l) => Ssa::Jump(l.duplicate()),
            Ssa::Branch { width, cond, true_target, false_target } => Ssa::Branch {
                width: *width,
                cond: cond.duplicate(),
                true_target: true_target.duplicate(),
                false_target: false_target.duplicate(),
            },
        }
    }
}

/// Model of a sequence of addresses.
pub open spec fn addrs_v(v: Seq<Address>) -> Seq<AddrV> {
    v.map_values(|x: Address| x.deep_view())
}

/// Model of a sequence of statements.
pub open spec fn body_v(s: Seq<Ssa>) -> Seq<SsaV> {
    s.map_values(|x: Ssa| x.deep_view())
}

/// Copies a sequence of statements.
pub fn duplicate_body(body: &[Ssa]) -> (r: Vec<Ssa>)
    ensures
        body_v(r@) == body_v(body@),
{
    let mut out: Vec<Ssa> = Vec::new();
    let mut i: usize = 0;
    while i < body.len()
        invariant
            i <= body@.len(),
            out@.len() == i,
            body_v(out@) =~= body_v(body@).subrange(0, i as int),
        decreases body@.len() - i,
    {
        let d = body[i].duplicate();
        let ghost prev = out@;
        out.push(d);
        proof {
            assert(out@ == prev.push(d));
            assert forall|j: int| 0 <= j < i + 1 implies #[trigger] body_v(out@)[j] == body_v(body@)[j] by {
                if j < i {
                    assert(out@[j] == prev[j]);
                    assert(body_v(prev)[j] == body_v(body@).subrange(0, i as int)[j]);
                }
            }
            assert(body_v(out@) =~= body_v(body@).subrange(0, i + 1));
        }
        i += 1;
    }
    proof {
        assert(body_v(out@) =~= body_v(body@));
    }
    out
}

/// Appends copies of `src` to `out`.
pub fn extend_body(out: &mut Vec<Ssa>, src: &[Ssa])
    ensures
        body_v(final(out)@) == body_v(old(out)@) + body_v(src@),
{
    let ghost start = out@;
    let mut j: usize = 0;
    while j < src.len()
        invariant
            j <= src@.len(),
            out@.len() == start.len() + j,
            body_v(out@) =~= body_v(start) + body_v(src@).subrange(0, j as int),
        decreases src@.len() - j,
    {
        let d = src[j].duplicate();
        let ghost prev = out@;
        out.push(d);
        proof {
            assert(out@ == prev.push(d));
            assert forall|t: int| 0 <= t < out@.len() implies #[trigger] body_v(out@)[t] == (body_v(start) + body_v(src@).subrange(0, j + 1))[t] by {
                if t < prev.len() {
                    assert(out@[t] == prev[t]);
                    assert(body_v(prev)[t] == (body_v(start) + body_v(src@).subrange(0, j as int))[t]);
                }
            }
            assert(body_v(out@) =~= body_v(start) + body_v(src@).subrange(0, j + 1));
        }
        j += 1;
    }
    proof {
        assert(body_v(src@).subrange(0, src@.len() as int) =~= body_v(src@));
    }
}

/// A function definition with its SSA body.
#[derive(Debug, Clone)]
pub struct FunctionDef {
    pub name: String,
    pub return_width: Width,
    pub parameters: Vec<(String, Width)>,
    pub body: Vec<Ssa>,
}

/// A declaration without a body.
#[derive(Debug, Clone)]
pub enum ToplevelDeclaration {
    Function { storage_class: StorageClass, name: String, return_width: Width, parameters: Vec<Width> },
}

impl ToplevelDeclaration {
    pub fn name(&self) -> (r: String)
        ensures
            r@ == self->Function_name@,
    {
        match self {
            ToplevelDeclaration::Function { name, .. } => name.clone(),
        }
    }
}

/// An item of a translation unit.
#[derive(Debug, Clone)]
pub enum ToplevelItem {
    Function(FunctionDef),
    Declaration(ToplevelDeclaration),
}

} // verus!
