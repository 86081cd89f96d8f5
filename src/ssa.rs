use vstd::prelude::*;
use vstd::string::*;
use crate::ast;
use crate::common::Width;
use crate::nodes::{
    op_of_binop, AddrV, Address, AddressConstant, SsaV, FunctionDef, FunctionParameter, Label, Op, PhiFunction, Quadriplet, Ssa,
    ToplevelDeclaration, ToplevelItem,
};
use crate::table::{parameter_types, resolve, width_of, Symbol, SymbolKind, SymbolTable, SymbolType};

verus! {

/// Why a translation unit could not be lowered to SSA.
#[derive(Debug, Clone, Copy, PartialEq, Eq, Structural)]
pub enum SsaError {
    UnknownIdentifier,
    WrongArgumentCount,
    WidthMismatch,
    /// A numeric literal stands where no width can be inferred.
    MissingWidth,
    /// A value of a variable was called, or a function was used as a value.
    NotAFunction,
    UnsupportedConstruct,
    /// A temporary, label or version counter reached its maximum.
    CounterOverflow,
    /// The symbol table rejected a declarator.
    InvalidDeclarator,
}

/// `new` extends `old`; the labels it adds are compiler labels numbered in
/// `[lo, hi)`, no number twice.
pub open spec fn appended_fresh(old: Seq<Ssa>, new: Seq<Ssa>, lo: int, hi: int) -> bool {
    &&& new.len() >= old.len()
    &&& forall|i: int| 0 <= i < old.len() ==> #[trigger] new[i] == old[i]
    &&& forall|i: int| old.len() <= i < new.len() && (#[trigger] new[i]) is Label ==> new[i]->Label_0 is CompilerTemp
        && lo <= new[i]->Label_0->CompilerTemp_0 < hi
    &&& forall|i: int, j: int| old.len() <= i < j < new.len() && (#[trigger] new[i]) is Label && (#[trigger] new[j]) is Label
        ==> new[i]->Label_0->CompilerTemp_0 != new[j]->Label_0->CompilerTemp_0
}

proof fn lemma_appended_chain(s0: Seq<Ssa>, s1: Seq<Ssa>, s2: Seq<Ssa>, lo: int, mid: int, hi: int)
    requires
        appended_fresh(s0, s1, lo, mid),
        appended_fresh(s1, s2, mid, hi),
        lo <= mid <= hi,
    ensures
        appended_fresh(s0, s2, lo, hi),
{
    assert forall|i: int| 0 <= i < s0.len() implies #[trigger] s2[i] == s0[i] by {
        assert(s2[i] == s1[i]);
    }
    assert forall|i: int| s0.len() <= i < s2.len() && (#[trigger] s2[i]) is Label implies s2[i]->Label_0 is CompilerTemp
        && lo <= s2[i]->Label_0->CompilerTemp_0 < hi by {
        if i < s1.len() {
            assert(s2[i] == s1[i]);
        }
    }
    assert forall|i: int, j: int| s0.len() <= i < j < s2.len() && (#[trigger] s2[i]) is Label && (#[trigger] s2[j]) is Label
        implies s2[i]->Label_0->CompilerTemp_0 != s2[j]->Label_0->CompilerTemp_0 by {
        if j < s1.len() {
            assert(s2[i] == s1[i] && s2[j] == s1[j]);
        } else if i < s1.len() {
            assert(s2[i] == s1[i]);
        }
    }
}

/// The variable and version a statement defines, when it defines a variable.
pub open spec fn src_def(s: Ssa) -> Option<(Seq<char>, usize)> {
    match s.deep_view().defined() {
        Some(AddrV::Source(n, v)) => Some((n, v)),
        _ => None,
    }
}

/// The variable a statement defines.
pub open spec fn def_name(s: Ssa) -> Seq<char> {
    match src_def(s) {
        Some((n, _)) => n,
        None => Seq::empty(),
    }
}

/// The version of the variable a statement defines.
pub open spec fn def_ver(s: Ssa) -> usize {
    match src_def(s) {
        Some((_, v)) => v,
        None => 0,
    }
}

/// No version record goes down from `l0` to `l1`.
pub open spec fn mono(l0: Seq<(String, usize)>, l1: Seq<(String, usize)>) -> bool {
    forall|n: Seq<char>| #[trigger] lat(l1, n) >= lat(l0, n)
}

/// `new` extends `old`; each variable version it defines was handed out between
/// the version records `l0` and `l1`, and none is defined twice.
pub open spec fn defs_fresh(old: Seq<Ssa>, new: Seq<Ssa>, l0: Seq<(String, usize)>, l1: Seq<(String, usize)>) -> bool {
    &&& new.len() >= old.len()
    &&& forall|i: int| 0 <= i < old.len() ==> #[trigger] new[i] == old[i]
    &&& mono(l0, l1)
    &&& forall|i: int| old.len() <= i < new.len() && (#[trigger] src_def(new[i])) is Some ==>
        lat(l0, def_name(new[i])) < def_ver(new[i]) <= lat(l1, def_name(new[i]))
    &&& forall|i: int, j: int| old.len() <= i < j < new.len() && (#[trigger] src_def(new[i])) is Some && (#[trigger] src_def(new[j])) is Some
        ==> src_def(new[i]) != src_def(new[j])
}

proof fn lemma_defs_chain(s0: Seq<Ssa>, s1: Seq<Ssa>, s2: Seq<Ssa>, l0: Seq<(String, usize)>, l1: Seq<(String, usize)>, l2: Seq<(String, usize)>)
    requires
        defs_fresh(s0, s1, l0, l1),
        defs_fresh(s1, s2, l1, l2),
    ensures
        defs_fresh(s0, s2, l0, l2),
{
    assert forall|n: Seq<char>| #[trigger] lat(l2, n) >= lat(l0, n) by {
        assert(lat(l2, n) >= lat(l1, n));
        assert(lat(l1, n) >= lat(l0, n));
    }
    assert forall|i: int| 0 <= i < s0.len() implies #[trigger] s2[i] == s0[i] by {
        assert(s2[i] == s1[i]);
    }
    assert forall|i: int| s0.len() <= i < s2.len() && (#[trigger] src_def(s2[i])) is Some implies
        lat(l0, def_name(s2[i])) < def_ver(s2[i]) <= lat(l2, def_name(s2[i])) by {
        let n = def_name(s2[i]);
        assert(lat(l2, n) >= lat(l1, n) && lat(l1, n) >= lat(l0, n));
        if i < s1.len() {
            assert(s2[i] == s1[i]);
        }
    }
    assert forall|i: int, j: int| s0.len() <= i < j < s2.len() && (#[trigger] src_def(s2[i])) is Some && (#[trigger] src_def(s2[j])) is Some
        implies src_def(s2[i]) != src_def(s2[j]) by {
        if j < s1.len() {
            assert(s2[i] == s1[i] && s2[j] == s1[j]);
        } else if i < s1.len() {
            assert(s2[i] == s1[i]);
            let n = def_name(s2[i]);
            assert(lat(l1, n) >= lat(l0, n));
        }
    }
}

/// Pushes a statement that is not a label.
fn emit(out: &mut Vec<Ssa>, x: Ssa)
    requires
        !(x is Label),
    ensures
        final(out)@ == old(out)@.push(x),
        forall|lo: int, hi: int| appended_fresh(old(out)@, final(out)@, lo, hi),
        src_def(x) is None ==> forall|l: Seq<(String, usize)>| #[trigger] defs_fresh(old(out)@, final(out)@, l, l),
{
    out.push(x);
}

/// Pushes a statement that defines a variable version handed out between `l0` and `l1`.
fn emit_def(out: &mut Vec<Ssa>, x: Ssa, Ghost(l0): Ghost<Seq<(String, usize)>>, Ghost(l1): Ghost<Seq<(String, usize)>>)
    requires
        !(x is Label),
        mono(l0, l1),
        src_def(x) matches Some((n, v)) ==> lat(l0, n) < v <= lat(l1, n),
    ensures
        final(out)@ == old(out)@.push(x),
        forall|lo: int, hi: int| appended_fresh(old(out)@, final(out)@, lo, hi),
        defs_fresh(old(out)@, final(out)@, l0, l1),
{
    out.push(x);
}

/// Pushes the definition of compiler label `n`.
fn emit_label(out: &mut Vec<Ssa>, n: usize)
    ensures
        final(out)@ == old(out)@.push(Ssa::Label(Label::CompilerTemp(n))),
        appended_fresh(old(out)@, final(out)@, n as int, n + 1),
        forall|l: Seq<(String, usize)>| #[trigger] defs_fresh(old(out)@, final(out)@, l, l),
{
    out.push(Ssa::Label(Label::CompilerTemp(n)));
}

/// Appends a segment whose labels are fresh in `[lo, hi)`.
fn append_segment(
    out: &mut Vec<Ssa>,
    seg: Vec<Ssa>,
    Ghost(lo): Ghost<int>,
    Ghost(hi): Ghost<int>,
    Ghost(l0): Ghost<Seq<(String, usize)>>,
    Ghost(l1): Ghost<Seq<(String, usize)>>,
)
    requires
        appended_fresh(Seq::empty(), seg@, lo, hi),
        defs_fresh(Seq::empty(), seg@, l0, l1),
    ensures
        final(out)@ == old(out)@ + seg@,
        appended_fresh(old(out)@, final(out)@, lo, hi),
        defs_fresh(old(out)@, final(out)@, l0, l1),
{
    let mut seg = seg;
    let ghost sv = seg@;
    out.append(&mut seg);
    proof {
        let n = old(out)@.len();
        assert forall|i: int| n <= i < final(out)@.len() implies #[trigger] final(out)@[i] == sv[i - n] by {}
        assert forall|i: int, j: int| n <= i < j < final(out)@.len() && (#[trigger] final(out)@[i]) is Label && (#[trigger] final(out)@[j]) is Label
            implies final(out)@[i]->Label_0->CompilerTemp_0 != final(out)@[j]->Label_0->CompilerTemp_0 by {
            assert(final(out)@[i] == sv[i - n] && final(out)@[j] == sv[j - n]);
            assert(sv[i - n] is Label && sv[j - n] is Label);
        }
        assert forall|i: int, j: int| n <= i < j < final(out)@.len() && (#[trigger] src_def(final(out)@[i])) is Some && (#[trigger] src_def(final(out)@[j])) is Some
            implies src_def(final(out)@[i]) != src_def(final(out)@[j]) by {
            assert(final(out)@[i] == sv[i - n] && final(out)@[j] == sv[j - n]);
            assert(src_def(sv[i - n]) is Some && src_def(sv[j - n]) is Some);
        }
        assert forall|i: int| n <= i < final(out)@.len() && (#[trigger] src_def(final(out)@[i])) is Some implies
            lat(l0, def_name(final(out)@[i])) < def_ver(final(out)@[i]) <= lat(l1, def_name(final(out)@[i])) by {
            assert(final(out)@[i] == sv[i - n]);
            assert(src_def(sv[i - n]) is Some);
        }
    }
}

/// Width of the innermost local variable named `n`.
pub open spec fn local_w(locals: Seq<(String, Width)>, n: Seq<char>) -> Option<Width>
    decreases locals.len(),
{
    if locals.len() == 0 {
        None
    } else if locals.last().0@ == n {
        Some(locals.last().1)
    } else {
        local_w(locals.drop_last(), n)
    }
}

/// The global symbol `n` resolves to.
pub open spec fn global_sym(table: SymbolTable, n: Seq<char>) -> Option<Symbol> {
    resolve(table.scopes@, table.global_scope as int, n)
}

/// The width of what `n` names: an innermost local, else a global symbol.
pub open spec fn name_width(locals: Seq<(String, Width)>, table: SymbolTable, n: Seq<char>) -> Option<Width> {
    match local_w(locals, n) {
        Some(w) => Some(w),
        None => match global_sym(table, n) {
            Some(s) => Some(width_of(s.type_info)),
            None => None,
        },
    }
}

/// `n` names a function.
pub open spec fn is_fn_name(locals: Seq<(String, Width)>, table: SymbolTable, n: Seq<char>) -> bool {
    local_w(locals, n) is None && (global_sym(table, n) matches Some(s) && s.kind is Function)
}

/// The parameter widths of the function `n` names.
pub open spec fn fn_params(table: SymbolTable, n: Seq<char>) -> Seq<Width> {
    global_sym(table, n)->0.kind->Function_parameters@.map_values(|t: SymbolType| width_of(t))
}

/// Whether the function `n` names takes variadic arguments.
pub open spec fn fn_variadic(table: SymbolTable, n: Seq<char>) -> bool {
    global_sym(table, n)->0.kind->Function_is_variadic
}

/// The width an expression has of itself (`Some(None)` for a bare literal);
/// `None` when it has none.
pub open spec fn ewidth(locals: Seq<(String, Width)>, table: SymbolTable, e: ast::Expression) -> Option<Option<Width>>
    decreases e,
{
    match e {
        ast::Expression::Identifier(id) => match name_width(locals, table, id.0@) {
            Some(w) => Some(Some(w)),
            None => None,
        },
        ast::Expression::Binary(bin) => match (ewidth(locals, table, *bin.left), ewidth(locals, table, *bin.right)) {
            (Some(Some(a)), Some(Some(b))) => if a == b { Some(Some(a)) } else { None },
            (Some(Some(a)), Some(None)) => Some(Some(a)),
            (Some(None), Some(Some(b))) => Some(Some(b)),
            (Some(None), Some(None)) => Some(None),
            _ => None,
        },
        ast::Expression::Assignment(a) => match a.lvalue {
            ast::LValue::Identifier(id) => match name_width(locals, table, id.0@) {
                Some(w) => Some(Some(w)),
                None => None,
            },
        },
        ast::Expression::Call(c) => match *c.function {
            ast::Expression::Identifier(f) => match name_width(locals, table, f.0@) {
                Some(w) => Some(Some(w)),
                None => None,
            },
            _ => None,
        },
        ast::Expression::Parenthesized(p) => ewidth(locals, table, *p.expression),
        ast::Expression::NumberLiteral(_) => Some(None),
        ast::Expression::StringLiteral(_) => Some(Some(Width::Long)),
        ast::Expression::Empty => None,
    }
}

/// The visible version of `n`; 0 before any write.
pub open spec fn cur_ver(m: Seq<(String, usize)>, n: Seq<char>) -> usize {
    match ver(m, n) {
        Some(v) => v,
        None => 0,
    }
}

/// A counter of the builder state reached its maximum.
pub open spec fn exhausted(var_count: usize, label_count: usize, latest: Seq<(String, usize)>) -> bool {
    var_count == usize::MAX || label_count == usize::MAX || exists|n: Seq<char>| lat(latest, n) == usize::MAX
}

/// The context width `ctx` admits a value of width `w`.
pub open spec fn ctx_ok(ctx: Option<Width>, w: Width) -> bool {
    ctx is None || ctx == Some(w)
}

/// The expression yields a value (it is not empty).
pub open spec fn valued(e: ast::Expression) -> bool
    decreases e,
{
    match e {
        ast::Expression::Empty => false,
        ast::Expression::Parenthesized(p) => valued(*p.expression),
        _ => true,
    }
}

/// The width a binary expression is computed at, from its context and its own width.
pub open spec fn binary_width(ctx: Option<Width>, own: Option<Width>) -> Option<Width> {
    match (ctx, own) {
        (Some(c), Some(o)) => if c == o { Some(c) } else { None },
        (Some(c), None) => Some(c),
        (None, Some(o)) => Some(o),
        (None, None) => None,
    }
}

/// The width argument `i` of a call is lowered at: the parameter's, or its own
/// (a word for a bare literal) beyond the declared parameters.
pub open spec fn arg_width(locals: Seq<(String, Width)>, table: SymbolTable, params: Seq<Width>, arg: ast::Expression, i: int) -> Option<Width> {
    if i < params.len() {
        Some(params[i])
    } else {
        match ewidth(locals, table, arg) {
            Some(Some(w)) => Some(w),
            Some(None) => Some(Width::Word),
            None => None,
        }
    }
}

/// The expression lowers without error in context `ctx`: every name resolves,
/// variables are not called and functions not read, calls get as many arguments
/// as declared (more only when variadic), widths agree, and every literal has a width.
pub open spec fn expr_ok(locals: Seq<(String, Width)>, table: SymbolTable, e: ast::Expression, ctx: Option<Width>) -> bool
    decreases e,
{
    match e {
        ast::Expression::Identifier(id) => name_width(locals, table, id.0@) matches Some(w)
            && !is_fn_name(locals, table, id.0@) && ctx_ok(ctx, w),
        ast::Expression::NumberLiteral(_) => ctx is Some,
        ast::Expression::StringLiteral(_) => ctx_ok(ctx, Width::Long),
        ast::Expression::Parenthesized(p) => expr_ok(locals, table, *p.expression, ctx),
        ast::Expression::Binary(bin) => ewidth(locals, table, e) matches Some(own)
            && (binary_width(ctx, own) matches Some(w)
            && expr_ok(locals, table, *bin.left, Some(w)) && valued(*bin.left)
            && expr_ok(locals, table, *bin.right, Some(w)) && valued(*bin.right)),
        ast::Expression::Assignment(a) => match a.lvalue {
            ast::LValue::Identifier(id) => name_width(locals, table, id.0@) matches Some(w)
                && !is_fn_name(locals, table, id.0@) && ctx_ok(ctx, w)
                && expr_ok(locals, table, *a.rvalue, Some(w)) && valued(*a.rvalue),
        },
        ast::Expression::Call(c) => match *c.function {
            ast::Expression::Identifier(f) => {
                let params = fn_params(table, f.0@);
                let n = c.arguments@.len();
                &&& is_fn_name(locals, table, f.0@)
                &&& n >= params.len()
                &&& (n > params.len() ==> fn_variadic(table, f.0@))
                &&& forall|i: int| 0 <= i < n ==> (arg_width(locals, table, params, #[trigger] c.arguments@[i], i) matches Some(w)
                    && expr_ok(locals, table, c.arguments@[i], Some(w)) && valued(c.arguments@[i]))
                &&& ctx_ok(ctx, width_of(global_sym(table, f.0@)->0.type_info))
            },
            _ => false,
        },
        ast::Expression::Empty => true,
    }
}

/// What a name refers to.
struct NameInfo {
    width: Width,
    function: Option<(Vec<Width>, bool)>,
}

/// The state threaded through the lowering of one function.
struct BuilderState {
    var_count: usize,
    label_count: usize,
    return_width: Width,
    /// The label of the block being emitted: the predecessor that φ entries name.
    current_label: Label,
    /// Version of each variable visible at this point.
    current: Vec<(String, usize)>,
    /// Highest version of each variable handed out so far.
    latest: Vec<(String, usize)>,
    /// Variables in scope, innermost last.
    locals: Vec<(String, Width)>,
}

fn copy_versions(m: &Vec<(String, usize)>) -> (r: Vec<(String, usize)>)
    ensures
        r@ == m@,
{
    let mut out: Vec<(String, usize)> = Vec::new();
    let mut i: usize = 0;
    while i < m.len()
        invariant
            i <= m@.len(),
            out@ == m@.subrange(0, i as int),
        decreases m@.len() - i,
    {
        out.push((m[i].0.clone(), m[i].1));
        i += 1;
        proof {
            assert(out@ =~= m@.subrange(0, i as int));
        }
    }
    proof {
        assert(out@ =~= m@);
    }
    out
}

fn copy_locals(m: &Vec<(String, Width)>) -> (r: Vec<(String, Width)>)
    ensures
        r@ == m@,
{
    let mut out: Vec<(String, Width)> = Vec::new();
    let mut i: usize = 0;
    while i < m.len()
        invariant
            i <= m@.len(),
            out@ == m@.subrange(0, i as int),
        decreases m@.len() - i,
    {
        out.push((m[i].0.clone(), m[i].1));
        i += 1;
        proof {
            assert(out@ =~= m@.subrange(0, i as int));
        }
    }
    proof {
        assert(out@ =~= m@);
    }
    out
}

fn find_name(m: &Vec<(String, usize)>, name: &String) -> (r: Option<usize>)
    ensures
        r matches Some(i) ==> i < m@.len() && m@[i as int].0@ == name@,
{
    let mut i: usize = m.len();
    while i > 0
        invariant
            i <= m@.len(),
        decreases i,
    {
        if m[i - 1].0 == *name {
            return Some(i - 1);
        }
        i -= 1;
    }
    None
}

/// The version a map records for `n`: its last entry under that name.
pub open spec fn ver(m: Seq<(String, usize)>, n: Seq<char>) -> Option<usize>
    decreases m.len(),
{
    if m.len() == 0 {
        None
    } else if m.last().0@ == n {
        Some(m.last().1)
    } else {
        ver(m.drop_last(), n)
    }
}

/// The highest version recorded for `n`, or -1 when none is.
pub open spec fn lat(m: Seq<(String, usize)>, n: Seq<char>) -> int {
    match ver(m, n) {
        Some(v) => v as int,
        None => -1,
    }
}

fn get_version(m: &Vec<(String, usize)>, name: &String) -> (r: Option<usize>)
    ensures
        r == ver(m@, name@),
{
    let mut i: usize = m.len();
    proof {
        assert(m@.subrange(0, i as int) =~= m@);
    }
    while i > 0
        invariant
            i <= m@.len(),
            ver(m@, name@) == ver(m@.subrange(0, i as int), name@),
        decreases i,
    {
        proof {
            let sub = m@.subrange(0, i as int);
            assert(sub.drop_last() =~= m@.subrange(0, i - 1));
            assert(sub.last() == m@[i - 1]);
        }
        if m[i - 1].0 == *name {
            return Some(m[i - 1].1);
        }
        i -= 1;
    }
    proof {
        assert(m@.subrange(0, 0).len() == 0);
    }
    None
}

fn set_version(m: &mut Vec<(String, usize)>, name: &String, v: usize)
    ensures
        forall|n: Seq<char>| #[trigger] ver(final(m)@, n) == if n == name@ { Some(v) } else { ver(old(m)@, n) },
{
    m.push((name.clone(), v));
    proof {
        assert forall|n: Seq<char>| #[trigger] ver(final(m)@, n) == if n == name@ { Some(v) } else { ver(old(m)@, n) } by {
            assert(final(m)@.drop_last() =~= old(m)@);
        }
    }
}

impl BuilderState {
    fn duplicate(&self) -> (r: BuilderState)
        ensures
            r.var_count == self.var_count,
            r.label_count == self.label_count,
    {
        BuilderState {
            var_count: self.var_count,
            label_count: self.label_count,
            return_width: self.return_width,
            current_label: self.current_label.duplicate(),
            current: copy_versions(&self.current),
            latest: copy_versions(&self.latest),
            locals: copy_locals(&self.locals),
        }
    }

    fn fresh_temp(&mut self) -> (r: Result<usize, SsaError>)
        ensures
            r matches Ok(t) ==> t == old(self).var_count && final(self).var_count == t + 1,
            r is Err ==> final(self).var_count == old(self).var_count && old(self).var_count == usize::MAX,
            final(self).label_count == old(self).label_count,
            final(self).latest == old(self).latest,
            final(self).locals == old(self).locals,
            final(self).current == old(self).current,
    {
        if self.var_count == usize::MAX {
            return Err(SsaError::CounterOverflow);
        }
        let t = self.var_count;
        self.var_count = t + 1;
        Ok(t)
    }

    fn fresh_label(&mut self) -> (r: Result<Label, SsaError>)
        ensures
            r matches Ok(l) ==> l == Label::CompilerTemp(old(self).label_count) && final(self).label_count == old(self).label_count + 1,
            final(self).label_count >= old(self).label_count,
            r is Err ==> old(self).label_count == usize::MAX,
            final(self).var_count == old(self).var_count,
            final(self).latest == old(self).latest,
            final(self).locals == old(self).locals,
    {
        if self.label_count == usize::MAX {
            return Err(SsaError::CounterOverflow);
        }
        let t = self.label_count;
        self.label_count = t + 1;
        Ok(Label::CompilerTemp(t))
    }

    /// The version of `name` visible here; 0 before any write.
    fn current_version(&self, name: &String) -> (r: usize)
        ensures
            r == cur_ver(self.current@, name@),
    {
        match get_version(&self.current, name) {
            Some(v) => v,
            None => 0,
        }
    }

    /// A version of `name` never handed out before, made the visible one.
    fn next_version(&mut self, name: &String) -> (r: Result<usize, SsaError>)
        ensures
            final(self).var_count == old(self).var_count,
            final(self).label_count == old(self).label_count,
            r matches Ok(v) ==> v == lat(old(self).latest@, name@) + 1 && lat(final(self).latest@, name@) == v,
            forall|n: Seq<char>| n != name@ ==> #[trigger] lat(final(self).latest@, n) == lat(old(self).latest@, n),
            forall|n: Seq<char>| #[trigger] lat(old(self).latest@, n) <= lat(final(self).latest@, n),
            r is Err ==> lat(final(self).latest@, name@) == usize::MAX,
            final(self).locals == old(self).locals,
    {
        let v = match get_version(&self.latest, name) {
            Some(v) => {
                if v == usize::MAX {
                    return Err(SsaError::CounterOverflow);
                }
                v + 1
            },
            None => 0,
        };
        set_version(&mut self.latest, name, v);
        set_version(&mut self.current, name, v);
        Ok(v)
    }

    fn local_width(&self, name: &String) -> (r: Option<Width>)
        ensures
            r == local_w(self.locals@, name@),
    {
        let mut i: usize = self.locals.len();
        proof {
            assert(self.locals@.subrange(0, i as int) =~= self.locals@);
        }
        while i > 0
            invariant
                i <= self.locals@.len(),
                local_w(self.locals@, name@) == local_w(self.locals@.subrange(0, i as int), name@),
            decreases i,
        {
            proof {
                let sub = self.locals@.subrange(0, i as int);
                assert(sub.drop_last() =~= self.locals@.subrange(0, i - 1));
                assert(sub.last() == self.locals@[i - 1]);
            }
            if self.locals[i - 1].0 == *name {
                return Some(self.locals[i - 1].1);
            }
            i -= 1;
        }
        None
    }
}

fn widths_of(types: &Vec<SymbolType>) -> (r: Vec<Width>)
    ensures
        r@ == types@.map_values(|t: SymbolType| width_of(t)),
{
    let mut out: Vec<Width> = Vec::new();
    let mut i: usize = 0;
    while i < types.len()
        invariant
            i <= types@.len(),
            out@ =~= types@.subrange(0, i as int).map_values(|t: SymbolType| width_of(t)),
        decreases types@.len() - i,
    {
        out.push(types[i].width());
        i += 1;
        proof {
            assert(out@ =~= types@.subrange(0, i as int).map_values(|t: SymbolType| width_of(t)));
        }
    }
    proof {
        assert(types@.subrange(0, types@.len() as int) =~= types@);
    }
    out
}

/// What `name` refers to: a local variable, else a global symbol.
fn lookup_name(st: &BuilderState, table: &SymbolTable, name: &String) -> (r: Result<NameInfo, SsaError>)
    requires
        table.wf(),
    ensures
        match r {
            Err(e) => e == SsaError::UnknownIdentifier && name_width(st.locals@, *table, name@) is None,
            Ok(info) => name_width(st.locals@, *table, name@) == Some(info.width)
                && (info.function is Some <==> is_fn_name(st.locals@, *table, name@))
                && (info.function matches Some(f) ==> f.0@ == fn_params(*table, name@) && f.1 == fn_variadic(*table, name@)),
        },
{
    match st.local_width(name) {
        Some(w) => Ok(NameInfo { width: w, function: None }),
        None => match table.query_in(table.global_scope, name.as_str()) {
            Some(sym) => {
                let function = match &sym.kind {
                    SymbolKind::Function { parameters, is_variadic } => Some((widths_of(parameters), *is_variadic)),
                    SymbolKind::Variable { .. } => None,
                };
                Ok(NameInfo { width: sym.type_info.width(), function })
            },
            None => Err(SsaError::UnknownIdentifier),
        },
    }
}

/// The width an expression has of itself; `None` for a bare numeric literal, which
/// takes the width of its context.
fn expression_width(st: &BuilderState, table: &SymbolTable, e: &ast::Expression) -> (r: Result<Option<Width>, SsaError>)
    requires
        table.wf(),
    ensures
        match r {
            Ok(x) => ewidth(st.locals@, *table, *e) == Some(x),
            Err(_) => ewidth(st.locals@, *table, *e) is None,
        },
    decreases e,
{
    match e {
        ast::Expression::Identifier(id) => Ok(Some(lookup_name(st, table, &id.0)?.width)),
        ast::Expression::Binary(bin) => {
            let l = expression_width(st, table, &bin.left)?;
            let r = expression_width(st, table, &bin.right)?;
            match (l, r) {
                (Some(a), Some(b)) => if a == b { Ok(Some(a)) } else { Err(SsaError::WidthMismatch) },
                (Some(a), None) => Ok(Some(a)),
                (None, Some(b)) => Ok(Some(b)),
                (None, None) => Ok(None),
            }
        },
        ast::Expression::Assignment(a) => match &a.lvalue {
            ast::LValue::Identifier(id) => Ok(Some(lookup_name(st, table, &id.0)?.width)),
        },
        ast::Expression::Call(c) => match &*c.function {
            ast::Expression::Identifier(f) => Ok(Some(lookup_name(st, table, &f.0)?.width)),
            _ => Err(SsaError::UnsupportedConstruct),
        },
        ast::Expression::Parenthesized(p) => expression_width(st, table, &p.expression),
        ast::Expression::NumberLiteral(_) => Ok(None),
        ast::Expression::StringLiteral(_) => Ok(Some(Width::Long)),
        ast::Expression::Empty => Err(SsaError::UnsupportedConstruct),
    }
}

fn check_width(ctx: Option<Width>, w: Width) -> (r: Result<(), SsaError>)
    ensures
        r is Ok <==> (ctx is None || ctx == Some(w)),
{
    match ctx {
        Some(c) => if c == w { Ok(()) } else { Err(SsaError::WidthMismatch) },
        None => Ok(()),
    }
}

/// Lowers an expression, appending its statements to `out`; returns the temporary
/// that holds its value, or `None` for the empty expression.
fn lower_expression(
    st: &mut BuilderState,
    table: &SymbolTable,
    e: &ast::Expression,
    ctx: Option<Width>,
    out: &mut Vec<Ssa>,
) -> (r: Result<Option<usize>, SsaError>)
    requires
        table.wf(),
    ensures
        final(st).label_count == old(st).label_count,
        final(st).var_count >= old(st).var_count,
        r matches Ok(Some(t)) ==> t < final(st).var_count,
        r is Ok ==> appended_fresh(old(out)@, final(out)@, old(st).label_count as int, old(st).label_count as int),
        r is Ok ==> defs_fresh(old(out)@, final(out)@, old(st).latest@, final(st).latest@),
        r matches Ok(v) ==> (v is Some <==> valued(*e)),
        r matches Ok(Some(_)) ==> final(out)@.len() > old(out)@.len(),
        final(st).locals == old(st).locals,
        r is Ok ==> expr_ok(old(st).locals@, *table, *e, ctx),
        (*e is NumberLiteral && ctx is Some && old(st).var_count < usize::MAX) ==> r is Ok && final(st).var_count == old(st).var_count + 1,
        *e is Empty ==> r == Ok::<Option<usize>, SsaError>(None) && final(st).var_count == old(st).var_count,
        (*e is Identifier && r is Ok) ==> final(out)@.len() == old(out)@.len() + 1 && final(out)@.last().deep_view() == (SsaV::Assign {
            dest: AddrV::Temp(r->Ok_0->Some_0),
            source: AddrV::Source((*e)->Identifier_0.0@, cur_ver(old(st).current@, (*e)->Identifier_0.0@)),
            width: name_width(old(st).locals@, *table, (*e)->Identifier_0.0@)->0,
        }),
        (*e is NumberLiteral && r is Ok) ==> final(out)@.len() == old(out)@.len() + 1 && final(out)@.last().deep_view() == (SsaV::Assign {
            dest: AddrV::Temp(r->Ok_0->Some_0),
            source: AddrV::Num((*e)->NumberLiteral_0.0),
            width: ctx->0,
        }),
    decreases e,
{
    let ghost o0 = out@;
    let ghost lc = st.label_count as int;
    let ghost g0 = st.latest@;
    match e {
        ast::Expression::Identifier(id) => {
            let info = lookup_name(st, table, &id.0)?;
            if info.function.is_some() {
                return Err(SsaError::NotAFunction);
            }
            check_width(ctx, info.width)?;
            let version = st.current_version(&id.0);
            let t = st.fresh_temp()?;
            let ghost pre0 = out@;
            let ghost gq0 = st.latest@;
            emit(out, Ssa::Assignment {
                dest: Address::CompilerTemp(t),
                source: Address::Source(id.0.clone(), version),
                width: info.width,
            });
            proof {
                lemma_appended_chain(o0, pre0, out@, lc, lc, lc);
                lemma_defs_chain(o0, pre0, out@, g0, gq0, st.latest@);
            }
            Ok(Some(t))
        },
        ast::Expression::NumberLiteral(nl) => {
            let w = match ctx {
                Some(w) => w,
                None => {
                    return Err(SsaError::MissingWidth);
                },
            };
            let t = st.fresh_temp()?;
            let ghost pre0 = out@;
            let ghost gq0 = st.latest@;
            emit(out, Ssa::Assignment {
                dest: Address::CompilerTemp(t),
                source: Address::Constant(AddressConstant::Numeric(nl.0)),
                width: w,
            });
            proof {
                lemma_appended_chain(o0, pre0, out@, lc, lc, lc);
                lemma_defs_chain(o0, pre0, out@, g0, gq0, st.latest@);
            }
            Ok(Some(t))
        },
        ast::Expression::StringLiteral(sl) => {
            check_width(ctx, Width::Long)?;
            let t = st.fresh_temp()?;
            let ghost pre0 = out@;
            let ghost gq0 = st.latest@;
            emit(out, Ssa::Assignment {
                dest: Address::CompilerTemp(t),
                source: Address::Constant(AddressConstant::StringLiteral(sl.0.clone())),
                width: Width::Long,
            });
            proof {
                lemma_appended_chain(o0, pre0, out@, lc, lc, lc);
                lemma_defs_chain(o0, pre0, out@, g0, gq0, st.latest@);
            }
            Ok(Some(t))
        },
        ast::Expression::Parenthesized(p) => lower_expression(st, table, &p.expression, ctx, out),
        ast::Expression::Binary(bin) => {
            let own = expression_width(st, table, e)?;
            let w = match (ctx, own) {
                (Some(c), Some(o)) => if c == o { c } else {
                    return Err(SsaError::WidthMismatch);
                },
                (Some(c), None) => c,
                (None, Some(o)) => o,
                (None, None) => {
                    return Err(SsaError::MissingWidth);
                },
            };
            let ghost pre1 = out@;
            let ghost g1 = st.latest@;
            let l = match lower_expression(st, table, &bin.left, Some(w), out)? {
                Some(t) => t,
                None => {
                    return Err(SsaError::UnsupportedConstruct);
                },
            };
            proof {
                lemma_appended_chain(o0, pre1, out@, lc, lc, lc);
                lemma_defs_chain(o0, pre1, out@, g0, g1, st.latest@);
            }
            let ghost pre2 = out@;
            let ghost g2 = st.latest@;
            let r = match lower_expression(st, table, &bin.right, Some(w), out)? {
                Some(t) => t,
                None => {
                    return Err(SsaError::UnsupportedConstruct);
                },
            };
            proof {
                lemma_appended_chain(o0, pre2, out@, lc, lc, lc);
                lemma_defs_chain(o0, pre2, out@, g0, g2, st.latest@);
            }
            let t = st.fresh_temp()?;
            let ghost pre0 = out@;
            let ghost gq0 = st.latest@;
            emit(out, Ssa::Quadriplet(Quadriplet {
                width: w,
                dest: Address::CompilerTemp(t),
                op: Op::from_binop(&bin.op),
                left: Address::CompilerTemp(l),
                right: Some(Address::CompilerTemp(r)),
            }));
            proof {
                lemma_appended_chain(o0, pre0, out@, lc, lc, lc);
                lemma_defs_chain(o0, pre0, out@, g0, gq0, st.latest@);
            }
            Ok(Some(t))
        },
        ast::Expression::Assignment(asn) => {
            let id = match &asn.lvalue {
                ast::LValue::Identifier(id) => id,
            };
            let info = lookup_name(st, table, &id.0)?;
            if info.function.is_some() {
                return Err(SsaError::NotAFunction);
            }
            let w = info.width;
            check_width(ctx, w)?;
            let ghost pre1 = out@;
            let ghost g1 = st.latest@;
            let mut value = match lower_expression(st, table, &asn.rvalue, Some(w), out)? {
                Some(t) => t,
                None => {
                    return Err(SsaError::UnsupportedConstruct);
                },
            };
            proof {
                lemma_appended_chain(o0, pre1, out@, lc, lc, lc);
                lemma_defs_chain(o0, pre1, out@, g0, g1, st.latest@);
            }
            match asn.atype.to_op() {
                Some(binop) => {
                    let version = st.current_version(&id.0);
                    let t = st.fresh_temp()?;
                    let ghost pre0 = out@;
                    let ghost gq0 = st.latest@;
                    emit(out, Ssa::Quadriplet(Quadriplet {
                        width: w,
                        dest: Address::CompilerTemp(t),
                        op: Op::from_binop(&binop),
                        left: Address::Source(id.0.clone(), version),
                        right: Some(Address::CompilerTemp(value)),
                    }));
                    proof {
                        lemma_appended_chain(o0, pre0, out@, lc, lc, lc);
                lemma_defs_chain(o0, pre0, out@, g0, gq0, st.latest@);
                    }
                    value = t;
                },
                None => {},
            }
            let ghost gb = st.latest@;
            let version = st.next_version(&id.0)?;
            let ghost pre0 = out@;
            emit_def(out, Ssa::Assignment {
                dest: Address::Source(id.0.clone(), version),
                source: Address::CompilerTemp(value),
                width: w,
            }, Ghost(gb), Ghost(st.latest@));
            proof {
                lemma_appended_chain(o0, pre0, out@, lc, lc, lc);
                lemma_defs_chain(o0, pre0, out@, g0, gb, st.latest@);
            }
            Ok(Some(value))
        },
        ast::Expression::Call(ce) => {
            let (func, param_widths, is_variadic, ret) = match &*ce.function {
                ast::Expression::Identifier(f) => {
                    let info = lookup_name(st, table, &f.0)?;
                    match info.function {
                        Some((ps, v)) => (Address::Source(f.0.clone(), 0), ps, v, info.width),
                        None => {
                            return Err(SsaError::NotAFunction);
                        },
                    }
                },
                _ => {
                    return Err(SsaError::UnsupportedConstruct);
                },
            };
            let n = ce.arguments.len();
            if n < param_widths.len() || (n > param_widths.len() && !is_variadic) {
                return Err(SsaError::WrongArgumentCount);
            }
            let mut parameters: Vec<FunctionParameter> = Vec::new();
            let mut i: usize = 0;
            while i < n
                invariant
                    table.wf(),
                    (*e) is Call && (*e)->Call_0 == *ce,
                    lc == st.label_count,
                    appended_fresh(o0, out@, lc, lc),
                    defs_fresh(o0, out@, g0, st.latest@),
                    n == ce.arguments@.len(),
                    i <= n,
                    st.label_count == old(st).label_count,
                    st.var_count >= old(st).var_count,
                    st.locals == old(st).locals,
                    forall|j: int| 0 <= j < i ==> (arg_width(old(st).locals@, *table, param_widths@, #[trigger] ce.arguments@[j], j) matches Some(w)
                        && expr_ok(old(st).locals@, *table, ce.arguments@[j], Some(w)) && valued(ce.arguments@[j])),
                decreases n - i,
            {
                let arg = &ce.arguments[i];
                proof {
                    vstd::std_specs::vec::axiom_vec_index_decreases(ce.arguments, i as int);
                    assert(decreases_to!(*e => (*e)->Call_0));
                    assert((*e)->Call_0 == *ce);
                    assert(decreases_to!(*ce => ce.arguments));
                    assert(decreases_to!(ce.arguments => ce.arguments@[i as int]));
                    assert(decreases_to!(*e => ce.arguments@[i as int]));
                }
                let variadic = i >= param_widths.len();
                let w = if !variadic {
                    param_widths[i]
                } else {
                    match expression_width(st, table, arg)? {
                        Some(w) => w,
                        None => Width::Word,
                    }
                };
                let ghost pre1 = out@;
                let ghost g1 = st.latest@;
                let t = match lower_expression(st, table, arg, Some(w), out)? {
                    Some(t) => t,
                    None => {
                        return Err(SsaError::UnsupportedConstruct);
                    },
                };
                proof {
                    lemma_appended_chain(o0, pre1, out@, lc, lc, lc);
                lemma_defs_chain(o0, pre1, out@, g0, g1, st.latest@);
                }
                parameters.push(FunctionParameter { number: i, value: Address::CompilerTemp(t), width: w, is_variadic: variadic });
                i += 1;
            }
            check_width(ctx, ret)?;
            let t = st.fresh_temp()?;
            let ghost pre0 = out@;
            let ghost gq0 = st.latest@;
            emit(out, Ssa::Call { parameters, dest: Some((Address::CompilerTemp(t), ret)), func, num_params: n });
            proof {
                lemma_appended_chain(o0, pre0, out@, lc, lc, lc);
                lemma_defs_chain(o0, pre0, out@, g0, gq0, st.latest@);
            }
            Ok(Some(t))
        },
        ast::Expression::Empty => Ok(None),
    }
}

/// Names whose visible version differs between `before` and `after`, with the
/// version after, among names declared at `st`.
fn changed_names(before: &Vec<(String, usize)>, after: &Vec<(String, usize)>) -> (r: Vec<(String, usize)>) {
    let mut out: Vec<(String, usize)> = Vec::new();
    let mut i: usize = 0;
    while i < after.len()
        invariant
            i <= after@.len(),
        decreases after@.len() - i,
    {
        let same = match get_version(before, &after[i].0) {
            Some(v) => v == after[i].1,
            None => false,
        };
        if !same && find_name(&out, &after[i].0).is_none() {
            out.push((after[i].0.clone(), after[i].1));
        }
        i += 1;
    }
    out
}

fn version_in(m: &Vec<(String, usize)>, name: &String) -> usize {
    match get_version(m, name) {
        Some(v) => v,
        None => 0,
    }
}

/// φ statements at a join: for each variable changed on either side, a new version
/// merging the one flowing from each predecessor.
fn join_phis(
    st: &mut BuilderState,
    table: &SymbolTable,
    before: &Vec<(String, usize)>,
    left: &Vec<(String, usize)>,
    left_label: &Label,
    right: &Vec<(String, usize)>,
    right_label: &Label,
    out: &mut Vec<Ssa>,
) -> (r: Result<(), SsaError>)
    requires
        table.wf(),
    ensures
        final(st).label_count == old(st).label_count,
        final(st).var_count == old(st).var_count,
        r is Ok ==> appended_fresh(old(out)@, final(out)@, old(st).label_count as int, old(st).label_count as int),
        r is Ok ==> defs_fresh(old(out)@, final(out)@, old(st).latest@, final(st).latest@),
{
    let ghost o0 = out@;
    let ghost lc = st.label_count as int;
    let ghost g0 = st.latest@;
    let mut names = changed_names(before, left);
    let extra = changed_names(before, right);
    let mut i: usize = 0;
    while i < extra.len()
        invariant
            i <= extra@.len(),
        decreases extra@.len() - i,
    {
        if find_name(&names, &extra[i].0).is_none() {
            names.push((extra[i].0.clone(), extra[i].1));
        }
        i += 1;
    }
    let mut k: usize = 0;
    while k < names.len()
        invariant
            table.wf(),
            k <= names@.len(),
            lc == st.label_count,
            appended_fresh(o0, out@, lc, lc),
            defs_fresh(o0, out@, g0, st.latest@),
            st.label_count == old(st).label_count,
            st.var_count == old(st).var_count,
        decreases names@.len() - k,
    {
        let name = &names[k].0;
        let info = match lookup_name(st, table, name) {
            Ok(info) => info,
            Err(_) => {
                k += 1;
                continue;
            },
        };
        let from_left = version_in(left, name);
        let from_right = version_in(right, name);
        let ghost gb = st.latest@;
        let v = st.next_version(name)?;
        let ghost pre0 = out@;
        emit_def(out, Ssa::Phi(PhiFunction {
            dest: Address::Source(name.clone(), v),
            width: info.width,
            merging: vec![
                (Address::Source(name.clone(), from_left), left_label.duplicate()),
                (Address::Source(name.clone(), from_right), right_label.duplicate()),
            ],
        }), Ghost(gb), Ghost(st.latest@));
        proof {
            lemma_appended_chain(o0, pre0, out@, lc, lc, lc);
            lemma_defs_chain(o0, pre0, out@, g0, gb, st.latest@);
        }
        k += 1;
    }
    Ok(())
}

fn lower_condition(st: &mut BuilderState, table: &SymbolTable, e: &ast::Expression, out: &mut Vec<Ssa>) -> (r: Result<(usize, Width), SsaError>)
    requires
        table.wf(),
    ensures
        final(st).label_count == old(st).label_count,
        final(st).var_count >= old(st).var_count,
        r is Ok ==> appended_fresh(old(out)@, final(out)@, old(st).label_count as int, old(st).label_count as int),
        r is Ok ==> defs_fresh(old(out)@, final(out)@, old(st).latest@, final(st).latest@),
        final(st).locals == old(st).locals,
        r is Ok ==> cond_ok(old(st).locals@, *table, *e),
{
    let w = match expression_width(st, table, e)? {
        Some(w) => w,
        None => Width::Word,
    };
    match lower_expression(st, table, e, Some(w), out)? {
        Some(t) => Ok((t, w)),
        None => Err(SsaError::UnsupportedConstruct),
    }
}

/// The width a condition is lowered at: its own, a word for a bare literal.
pub open spec fn cond_width(locals: Seq<(String, Width)>, table: SymbolTable, e: ast::Expression) -> Width {
    match ewidth(locals, table, e) {
        Some(Some(w)) => w,
        _ => Width::Word,
    }
}

/// A condition lowers without error and yields a value.
pub open spec fn cond_ok(locals: Seq<(String, Width)>, table: SymbolTable, e: ast::Expression) -> bool {
    ewidth(locals, table, e) is Some && expr_ok(locals, table, e, Some(cond_width(locals, table, e))) && valued(e)
}

/// The expressions a statement contains directly are well-formed: an expression
/// statement, the value of a return (at the return width), an initialiser (at the
/// declared width), and the condition of an `if` or `while`.
pub open spec fn stmt_exprs_ok(locals: Seq<(String, Width)>, table: SymbolTable, s: ast::Statement, rw: Width) -> bool {
    match s {
        ast::Statement::ExpressionStatement(es) => expr_ok(locals, table, es.expression, None),
        ast::Statement::ReturnStatement(rs) => rs.expression is Empty || (expr_ok(locals, table, rs.expression, Some(rw))
            && valued(rs.expression)),
        ast::Statement::Declaration(d) => match *d.declarator {
            ast::Declarator::InitDeclarator(init) => match crate::table::declarator_type(*init.declarator, crate::table::data_type_sym(d.dtype)) {
                Some(t) => expr_ok(locals, table, init.value, Some(width_of(t))) && valued(init.value),
                None => false,
            },
            _ => true,
        },
        ast::Statement::IfStatement(ifs) => cond_ok(locals, table, *ifs.condition.expression),
        ast::Statement::WhileStatement(ws) => cond_ok(locals, table, *ws.condition.expression),
        _ => true,
    }
}

/// Lowers a statement, appending its statements to `out`; the labels it defines
/// are fresh compiler labels, numbered from the label counter, and the variable
/// versions it defines are fresh versions.
#[verifier::rlimit(100)]
fn lower_statement(st: &mut BuilderState, table: &SymbolTable, s: &ast::Statement, out: &mut Vec<Ssa>) -> (r: Result<(), SsaError>)
    requires
        table.wf(),
    ensures
        final(st).label_count >= old(st).label_count,
        final(st).var_count >= old(st).var_count,
        r is Ok ==> appended_fresh(old(out)@, final(out)@, old(st).label_count as int, final(st).label_count as int),
        r is Ok ==> defs_fresh(old(out)@, final(out)@, old(st).latest@, final(st).latest@),
        (r is Ok && *s is ReturnStatement) ==> final(out)@.len() > old(out)@.len() && final(out)@.last() is Return,
        (r is Ok && (*s is IfStatement || *s is WhileStatement)) ==> final(out)@.len() > old(out)@.len(),
        (simple_return(*s) && old(st).var_count < usize::MAX) ==> r is Ok && final(st).var_count <= old(st).var_count + 1,
        r is Ok ==> stmt_exprs_ok(old(st).locals@, *table, *s, old(st).return_width),
    decreases s,
{
    let ghost o0 = out@;
    let ghost lc = st.label_count as int;
    let ghost g0 = st.latest@;
    match s {
        ast::Statement::ExpressionStatement(es) => {
            lower_expression(st, table, &es.expression, None, out)?;
            Ok(())
        },
        ast::Statement::ReturnStatement(rs) => {
            if matches!(rs.expression, ast::Expression::Empty) {
                emit(out, Ssa::Return { value: None });
            } else {
                let w = st.return_width;
                let t = match lower_expression(st, table, &rs.expression, Some(w), out)? {
                    Some(t) => t,
                    None => {
                        return Err(SsaError::UnsupportedConstruct);
                    },
                };
                let ghost pre0 = out@;
                let ghost q0 = st.latest@;
                emit(out, Ssa::Return { value: Some((Address::CompilerTemp(t), w)) });
                proof {
                    lemma_appended_chain(o0, pre0, out@, lc, lc, lc);
                    lemma_defs_chain(o0, pre0, out@, g0, q0, q0);
                }
            }
            Ok(())
        },
        ast::Statement::Declaration(decl) => {
            let base = SymbolType::from_data_type(decl.dtype);
            let name = decl.declarator.get_identifier();
            match &*decl.declarator {
                ast::Declarator::FunctionDeclarator(_) => Ok(()),
                ast::Declarator::InitDeclarator(init) => {
                    let ty = match SymbolType::from_declarator(&init.declarator, &base) {
                        Ok(t) => t,
                        Err(_) => {
                            return Err(SsaError::InvalidDeclarator);
                        },
                    };
                    let w = ty.width();
                    let t = match lower_expression(st, table, &init.value, Some(w), out)? {
                        Some(t) => t,
                        None => {
                            return Err(SsaError::UnsupportedConstruct);
                        },
                    };
                    st.locals.push((name.0.clone(), w));
                    let ghost gb = st.latest@;
                    let v = st.next_version(&name.0)?;
                    let ghost pre0 = out@;
                    emit_def(out, Ssa::Assignment {
                        dest: Address::Source(name.0.clone(), v),
                        source: Address::CompilerTemp(t),
                        width: w,
                    }, Ghost(gb), Ghost(st.latest@));
                    proof {
                        lemma_appended_chain(o0, pre0, out@, lc, lc, lc);
                        lemma_defs_chain(o0, pre0, out@, g0, gb, st.latest@);
                    }
                    Ok(())
                },
                _ => {
                    let ty = match SymbolType::from_declarator(&decl.declarator, &base) {
                        Ok(t) => t,
                        Err(_) => {
                            return Err(SsaError::InvalidDeclarator);
                        },
                    };
                    st.locals.push((name.0.clone(), ty.width()));
                    Ok(())
                },
            }
        },
        ast::Statement::CompoundStatement(cs) => {
            let scope_mark = st.locals.len();
            let mut k: usize = 0;
            while k < cs.items.len()
                invariant
                    table.wf(),
                    (*s) is CompoundStatement && (*s)->CompoundStatement_0 == *cs,
                    k <= cs.items@.len(),
                    st.label_count >= old(st).label_count,
                    st.var_count >= old(st).var_count,
                    lc == old(st).label_count,
                    g0 == old(st).latest@,
                    appended_fresh(o0, out@, lc, st.label_count as int),
                    defs_fresh(o0, out@, g0, st.latest@),
                decreases cs.items@.len() - k,
            {
                proof {
                    vstd::std_specs::vec::axiom_vec_index_decreases(cs.items, k as int);
                    assert(decreases_to!(*s => (*s)->CompoundStatement_0));
                    assert((*s)->CompoundStatement_0 == *cs);
                    assert(decreases_to!(*cs => cs.items));
                    assert(decreases_to!(cs.items => cs.items@[k as int]));
                    assert(decreases_to!(*s => cs.items@[k as int]));
                }
                let ghost pre0 = out@;
                let ghost m = st.label_count as int;
                let ghost q0 = st.latest@;
                lower_statement(st, table, &cs.items[k], out)?;
                proof {
                    lemma_appended_chain(o0, pre0, out@, lc, m, st.label_count as int);
                    lemma_defs_chain(o0, pre0, out@, g0, q0, st.latest@);
                }
                k += 1;
            }
            st.locals.truncate(scope_mark);
            Ok(())
        },
        ast::Statement::IfStatement(ifs) => {
            let mut seg: Vec<Ssa> = Vec::new();
            let (cond, w) = lower_condition(st, table, &ifs.condition.expression, &mut seg)?;
            let ghost gb = st.latest@;
            let cond_label = st.current_label.duplicate();
            let before = copy_versions(&st.current);
            let n_true = st.label_count;
            let true_label = st.fresh_label()?;
            let mut body: Vec<Ssa> = Vec::new();
            st.current_label = true_label.duplicate();
            lower_statement(st, table, &ifs.body, &mut body)?;
            let ghost gc = st.latest@;
            let after_true = copy_versions(&st.current);
            let true_end = st.current_label.duplicate();
            match &ifs.else_body {
                None => {
                    let n_false = st.label_count;
                    let false_label = st.fresh_label()?;
                    let ghost s0 = seg@;
                    emit(&mut seg, Ssa::Branch {
                        width: w,
                        cond: Address::CompilerTemp(cond),
                        true_target: true_label.duplicate(),
                        false_target: false_label.duplicate(),
                    });
                    let ghost s1 = seg@;
                    emit_label(&mut seg, n_true);
                    let ghost s2 = seg@;
                    append_segment(&mut seg, body, Ghost(n_true + 1), Ghost(n_false as int), Ghost(gb), Ghost(gc));
                    let ghost s3 = seg@;
                    emit_label(&mut seg, n_false);
                    let ghost s4 = seg@;
                    st.current_label = false_label.duplicate();
                    st.current = copy_versions(&before);
                    join_phis(st, table, &before, &after_true, &true_end, &before, &cond_label, &mut seg)?;
                    proof {
                        let e = Seq::<Ssa>::empty();
                        lemma_appended_chain(e, s0, s1, lc, lc, lc);
                        lemma_appended_chain(e, s1, s2, lc, lc, n_true + 1);
                        lemma_appended_chain(e, s2, s3, lc, n_true + 1, n_false as int);
                        lemma_appended_chain(e, s3, s4, lc, n_false as int, n_false + 1);
                        lemma_appended_chain(e, s4, seg@, lc, n_false + 1, n_false + 1);
                        lemma_defs_chain(e, s0, s1, g0, gb, gb);
                        lemma_defs_chain(e, s1, s2, g0, gb, gb);
                        lemma_defs_chain(e, s2, s3, g0, gb, gc);
                        lemma_defs_chain(e, s3, s4, g0, gc, gc);
                        lemma_defs_chain(e, s4, seg@, g0, gc, st.latest@);
                    }
                    append_segment(out, seg, Ghost(lc), Ghost(st.label_count as int), Ghost(g0), Ghost(st.latest@));
                },
                Some(else_body) => {
                    let n_false = st.label_count;
                    let false_label = st.fresh_label()?;
                    let mut ebody: Vec<Ssa> = Vec::new();
                    st.current_label = false_label.duplicate();
                    st.current = copy_versions(&before);
                    lower_statement(st, table, else_body, &mut ebody)?;
                    let ghost gd = st.latest@;
                    let after_false = copy_versions(&st.current);
                    let false_end = st.current_label.duplicate();
                    let n_end = st.label_count;
                    let end_label = st.fresh_label()?;
                    let ghost s0 = seg@;
                    emit(&mut seg, Ssa::Branch {
                        width: w,
                        cond: Address::CompilerTemp(cond),
                        true_target: true_label.duplicate(),
                        false_target: false_label.duplicate(),
                    });
                    let ghost s1 = seg@;
                    emit_label(&mut seg, n_true);
                    let ghost s2 = seg@;
                    append_segment(&mut seg, body, Ghost(n_true + 1), Ghost(n_false as int), Ghost(gb), Ghost(gc));
                    let ghost s3 = seg@;
                    emit(&mut seg, Ssa::Jump(end_label.duplicate()));
                    let ghost s4 = seg@;
                    emit_label(&mut seg, n_false);
                    let ghost s5 = seg@;
                    append_segment(&mut seg, ebody, Ghost(n_false + 1), Ghost(n_end as int), Ghost(gc), Ghost(gd));
                    let ghost s6 = seg@;
                    emit_label(&mut seg, n_end);
                    let ghost s7 = seg@;
                    st.current_label = end_label.duplicate();
                    st.current = copy_versions(&before);
                    join_phis(st, table, &before, &after_true, &true_end, &after_false, &false_end, &mut seg)?;
                    proof {
                        let e = Seq::<Ssa>::empty();
                        lemma_appended_chain(e, s0, s1, lc, lc, lc);
                        lemma_appended_chain(e, s1, s2, lc, lc, n_true + 1);
                        lemma_appended_chain(e, s2, s3, lc, n_true + 1, n_false as int);
                        lemma_appended_chain(e, s3, s4, lc, n_false as int, n_false as int);
                        lemma_appended_chain(e, s4, s5, lc, n_false as int, n_false + 1);
                        lemma_appended_chain(e, s5, s6, lc, n_false + 1, n_end as int);
                        lemma_appended_chain(e, s6, s7, lc, n_end as int, n_end + 1);
                        lemma_appended_chain(e, s7, seg@, lc, n_end + 1, n_end + 1);
                        lemma_defs_chain(e, s0, s1, g0, gb, gb);
                        lemma_defs_chain(e, s1, s2, g0, gb, gb);
                        lemma_defs_chain(e, s2, s3, g0, gb, gc);
                        lemma_defs_chain(e, s3, s4, g0, gc, gc);
                        lemma_defs_chain(e, s4, s5, g0, gc, gc);
                        lemma_defs_chain(e, s5, s6, g0, gc, gd);
                        lemma_defs_chain(e, s6, s7, g0, gd, gd);
                        lemma_defs_chain(e, s7, seg@, g0, gd, st.latest@);
                    }
                    append_segment(out, seg, Ghost(lc), Ghost(st.label_count as int), Ghost(g0), Ghost(st.latest@));
                },
            }
            Ok(())
        },
        ast::Statement::WhileStatement(ws) => {
            let before = copy_versions(&st.current);
            let entry_label = st.current_label.duplicate();
            // A dry run finds the variables that the condition and the body write.
            let mut dry = st.duplicate();
            let mut scratch: Vec<Ssa> = Vec::new();
            lower_condition(&mut dry, table, &ws.condition.expression, &mut scratch)?;
            lower_statement(&mut dry, table, &ws.body, &mut scratch)?;
            let written = changed_names(&before, &dry.current);

            let n_cond = st.label_count;
            let cond_label = st.fresh_label()?;
            let n_start = st.label_count;
            let start_label = st.fresh_label()?;
            st.current_label = cond_label.duplicate();
            // A new version for each variable the loop writes; the φ statements
            // that define them are emitted once the body is lowered.
            let mut loop_vars: Vec<(String, usize, usize, Width)> = Vec::new();
            let mut k: usize = 0;
            while k < written.len()
                invariant
                    table.wf(),
                    k <= written@.len(),
                    st.label_count == n_start + 1,
                    n_cond as int == lc,
                    lc == old(st).label_count,
                    g0 == old(st).latest@,
                    !simple_return(*s),
                    st.locals == old(st).locals,
                    n_start == n_cond + 1,
                    st.var_count >= old(st).var_count,
                    mono(g0, st.latest@),
                    forall|t: int| 0 <= t < loop_vars@.len() ==> lat(g0, (#[trigger] loop_vars@[t]).0@) < loop_vars@[t].1
                        <= lat(st.latest@, loop_vars@[t].0@),
                    forall|a: int, b: int| 0 <= a < b < loop_vars@.len() ==> (#[trigger] loop_vars@[a]).0@ != (#[trigger] loop_vars@[b]).0@
                        || loop_vars@[a].1 != loop_vars@[b].1,
                decreases written@.len() - k,
            {
                let name = &written[k].0;
                match lookup_name(st, table, name) {
                    Ok(info) => {
                        let from_entry = version_in(&before, name);
                        let ghost l_before = st.latest@;
                        let v = st.next_version(name)?;
                        let ghost lv = loop_vars@;
                        loop_vars.push((name.clone(), v, from_entry, info.width));
                        proof {
                            assert forall|t: int| 0 <= t < loop_vars@.len() implies lat(g0, (#[trigger] loop_vars@[t]).0@) < loop_vars@[t].1
                                <= lat(st.latest@, loop_vars@[t].0@) by {
                                if t < lv.len() {
                                    assert(loop_vars@[t] == lv[t]);
                                    assert(lat(st.latest@, lv[t].0@) >= lat(l_before, lv[t].0@));
                                } else {
                                    assert(lat(l_before, name@) >= lat(g0, name@));
                                }
                            }
                            assert forall|a: int, b: int| 0 <= a < b < loop_vars@.len() implies (#[trigger] loop_vars@[a]).0@ != (#[trigger] loop_vars@[b]).0@
                                || loop_vars@[a].1 != loop_vars@[b].1 by {
                                if b == lv.len() {
                                    assert(loop_vars@[a] == lv[a]);
                                    assert(lv[a].1 <= lat(l_before, lv[a].0@));
                                }
                            }
                            assert forall|n: Seq<char>| #[trigger] lat(st.latest@, n) >= lat(g0, n) by {
                                assert(lat(st.latest@, n) >= lat(l_before, n));
                            }
                        }
                    },
                    Err(_) => {},
                }
                k += 1;
            }
            let ghost gp = st.latest@;
            let mut cond_code: Vec<Ssa> = Vec::new();
            let (cond, w) = lower_condition(st, table, &ws.condition.expression, &mut cond_code)?;
            let ghost gq = st.latest@;
            let after_cond = copy_versions(&st.current);
            let mut body: Vec<Ssa> = Vec::new();
            st.current_label = start_label.duplicate();
            let n_body = st.label_count;
            lower_statement(st, table, &ws.body, &mut body)?;
            let ghost gr = st.latest@;
            let body_end = st.current_label.duplicate();
            let after_body = copy_versions(&st.current);
            let n_end = st.label_count;
            let end_label = st.fresh_label()?;
            let mut phis: Vec<Ssa> = Vec::new();
            let mut k: usize = 0;
            while k < loop_vars.len()
                invariant
                    k <= loop_vars@.len(),
                    mono(g0, gp),
                    forall|t: int| 0 <= t < loop_vars@.len() ==> lat(g0, (#[trigger] loop_vars@[t]).0@) < loop_vars@[t].1
                        <= lat(gp, loop_vars@[t].0@),
                    forall|a: int, b: int| 0 <= a < b < loop_vars@.len() ==> (#[trigger] loop_vars@[a]).0@ != (#[trigger] loop_vars@[b]).0@
                        || loop_vars@[a].1 != loop_vars@[b].1,
                    phis@.len() == k,
                    forall|t: int| 0 <= t < k ==> src_def(#[trigger] phis@[t]) == Some((loop_vars@[t].0@, loop_vars@[t].1)),
                    forall|t: int| 0 <= t < k ==> !(#[trigger] phis@[t] is Label),
                decreases loop_vars@.len() - k,
            {
                let name = &loop_vars[k].0;
                let from_body = version_in(&after_body, name);
                phis.push(Ssa::Phi(PhiFunction {
                    dest: Address::Source(name.clone(), loop_vars[k].1),
                    width: loop_vars[k].3,
                    merging: vec![
                        (Address::Source(name.clone(), loop_vars[k].2), entry_label.duplicate()),
                        (Address::Source(name.clone(), from_body), body_end.duplicate()),
                    ],
                }));
                k += 1;
            }
            proof {
                let e = Seq::<Ssa>::empty();
                assert forall|i: int, j: int| 0 <= i < j < phis@.len() && (#[trigger] src_def(phis@[i])) is Some && (#[trigger] src_def(phis@[j])) is Some
                    implies src_def(phis@[i]) != src_def(phis@[j]) by {
                    assert(loop_vars@[i].0@ != loop_vars@[j].0@ || loop_vars@[i].1 != loop_vars@[j].1);
                }
                assert(defs_fresh(e, phis@, g0, gp));
                assert(appended_fresh(e, phis@, n_cond as int, n_cond as int));
            }
            let mut head: Vec<Ssa> = Vec::new();
            emit_label(&mut head, n_cond);
            let ghost h0 = head@;
            append_segment(&mut head, phis, Ghost(n_start as int), Ghost(n_start as int), Ghost(g0), Ghost(gp));
            let ghost h1 = head@;
            append_segment(&mut head, cond_code, Ghost(n_start as int), Ghost(n_start as int), Ghost(gp), Ghost(gq));
            let ghost h2 = head@;
            emit(&mut head, Ssa::Branch {
                width: w,
                cond: Address::CompilerTemp(cond),
                true_target: start_label.duplicate(),
                false_target: end_label.duplicate(),
            });
            let ghost h3 = head@;
            emit_label(&mut head, n_start);
            let ghost h4 = head@;
            append_segment(&mut head, body, Ghost(n_body as int), Ghost(n_end as int), Ghost(gq), Ghost(gr));
            let ghost h5 = head@;
            emit(&mut head, Ssa::Jump(cond_label.duplicate()));
            let ghost h6 = head@;
            emit_label(&mut head, n_end);
            proof {
                let e = Seq::<Ssa>::empty();
                assert(n_start == n_cond + 1 && n_body == n_start + 1);
                assert(defs_fresh(e, h0, g0, g0));
                lemma_appended_chain(e, h0, h1, n_cond as int, n_start as int, n_start as int);
                lemma_appended_chain(e, h1, h2, n_cond as int, n_start as int, n_start as int);
                lemma_appended_chain(e, h2, h3, n_cond as int, n_start as int, n_start as int);
                lemma_appended_chain(e, h3, h4, n_cond as int, n_start as int, n_start + 1);
                lemma_appended_chain(e, h4, h5, n_cond as int, n_body as int, n_end as int);
                lemma_appended_chain(e, h5, h6, n_cond as int, n_end as int, n_end as int);
                lemma_appended_chain(e, h6, head@, n_cond as int, n_end as int, n_end + 1);
                lemma_defs_chain(e, h0, h1, g0, g0, gp);
                lemma_defs_chain(e, h1, h2, g0, gp, gq);
                lemma_defs_chain(e, h2, h3, g0, gq, gq);
                lemma_defs_chain(e, h3, h4, g0, gq, gq);
                lemma_defs_chain(e, h4, h5, g0, gq, gr);
                lemma_defs_chain(e, h5, h6, g0, gr, gr);
                lemma_defs_chain(e, h6, head@, g0, gr, gr);
            }
            st.current_label = end_label.duplicate();
            st.current = after_cond;
            append_segment(out, head, Ghost(lc), Ghost(st.label_count as int), Ghost(g0), Ghost(st.latest@));
            Ok(())
        },
    }
}

/// `return;` or `return <number>;`.
pub open spec fn simple_return(s: ast::Statement) -> bool {
    match s {
        ast::Statement::ReturnStatement(rs) => rs.expression is Empty || rs.expression is NumberLiteral,
        _ => false,
    }
}

/// A definition that lowers without error: its name is declared globally, its
/// parameters are plain names, and its body holds only simple returns.
pub open spec fn simple_function(fd: ast::FunctionDefinition, table: SymbolTable) -> bool {
    &&& global_sym(table, crate::ast::field_name(fd.declarator)) is Some
    &&& crate::ast::field_params(fd.declarator) matches Some(ps) && crate::table::simple_params(ps)
    &&& forall|k: int| 0 <= k < fd.body.items@.len() ==> simple_return(#[trigger] fd.body.items@[k])
}

/// A declaration that lowers without error: a function declarator with simple
/// parameters.
pub open spec fn simple_declaration(d: ast::Declaration) -> bool {
    &&& *d.declarator is FunctionDeclarator
    &&& crate::table::declarator_type(*d.declarator, crate::table::data_type_sym(d.dtype)) is Some
    &&& crate::table::simple_params((*d.declarator)->FunctionDeclarator_0.parameters@)
}

/// No variable version is defined by two statements of `body`.
pub open spec fn single_definitions(body: Seq<Ssa>) -> bool {
    forall|i: int, j: int| 0 <= i < j < body.len() && (#[trigger] src_def(body[i])) is Some && (#[trigger] src_def(body[j])) is Some
        ==> src_def(body[i]) != src_def(body[j])
}

/// No label is defined twice in `body`.
pub open spec fn labels_unique(body: Seq<Ssa>) -> bool {
    forall|i: int, j: int| 0 <= i < j < body.len() && (#[trigger] body[i]) is Label && (#[trigger] body[j]) is Label
        ==> body[i]->Label_0.deep_view() != body[j]->Label_0.deep_view()
}

/// `start_function_<name>`, the label every function body starts with.
pub open spec fn start_label_text(name: Seq<char>) -> Seq<char> {
    "start_function_"@ + name
}

/// Lowers a function definition.
pub fn function_ssa(fd: &ast::FunctionDefinition, table: &SymbolTable) -> (r: Result<ToplevelItem, SsaError>)
    requires
        table.wf(),
    ensures
        r matches Ok(item) ==> item is Function && item->Function_0.body@.len() > 0
            && item->Function_0.body@[0].deep_view() == crate::nodes::SsaV::Label(
                crate::nodes::LabelV::Source(start_label_text(item->Function_0.name@)))
            && item->Function_0.name@ == crate::ast::field_name(fd.declarator)
            && labels_unique(item->Function_0.body@)
            && single_definitions(item->Function_0.body@),
        simple_function(*fd, *table) ==> r is Ok,
{
    let name = fd.declarator.get_identifier();
    let info = match table.query_in(table.global_scope, name.0.as_str()) {
        Some(sym) => sym,
        None => {
            return Err(SsaError::UnknownIdentifier);
        },
    };
    let return_width = info.type_info.width();
    let params = match fd.declarator.parameters() {
        Some(p) => p,
        None => {
            return Err(SsaError::UnsupportedConstruct);
        },
    };
    let mut parameters: Vec<(String, Width)> = Vec::new();
    let mut current: Vec<(String, usize)> = Vec::new();
    let mut locals: Vec<(String, Width)> = Vec::new();
    let mut i: usize = 0;
    while i < params.len()
        invariant
            i <= params@.len(),
            simple_function(*fd, *table) ==> crate::table::simple_params(params@),
        decreases params@.len() - i,
    {
        proof {
            if simple_function(*fd, *table) {
                assert(crate::table::simple_param(params@[i as int]));
            }
        }
        if let ast::FunctionParameter::ParameterDeclaration(pd) = &params[i] {
            let ty = match SymbolType::from_parameter(pd) {
                Ok(t) => t,
                Err(_) => {
                    return Err(SsaError::InvalidDeclarator);
                },
            };
            let pname = pd.declarator.get_identifier().0;
            parameters.push((pname.clone(), ty.width()));
            current.push((pname.clone(), 0));
            locals.push((pname, ty.width()));
        }
        i += 1;
    }
    let mut label_text = "start_function_".to_owned();
    label_text.append(name.0.as_str());
    let begin = Label::Source(label_text);
    let mut st = BuilderState {
        var_count: 0,
        label_count: 0,
        return_width,
        current_label: begin.duplicate(),
        latest: copy_versions(&current),
        current,
        locals,
    };
    let mut body: Vec<Ssa> = Vec::new();
    body.push(Ssa::Label(begin));
    let ghost b0 = body@;
    let ghost g_start = st.latest@;
    proof {
        assert(src_def(b0[0]) is None);
    }
    let body_statement_count = fd.body.items.len();
    let mut k: usize = 0;
    while k < body_statement_count
        invariant
            table.wf(),
            body_statement_count == fd.body.items@.len(),
            k <= body_statement_count,
            b0.len() == 1,
            b0[0] is Label && b0[0]->Label_0 is Source,
            body@.len() > 0,
            body@[0].deep_view() == crate::nodes::SsaV::Label(crate::nodes::LabelV::Source(start_label_text(name.0@))),
            appended_fresh(b0, body@, 0, st.label_count as int),
            defs_fresh(b0, body@, g_start, st.latest@),
            simple_function(*fd, *table) ==> st.var_count <= k,
        decreases body_statement_count - k,
    {
        let ghost first = body@[0];
        let ghost prev = body@;
        let ghost m = st.label_count as int;
        let ghost q = st.latest@;
        let mut part: Vec<Ssa> = Vec::new();
        lower_statement(&mut st, table, &fd.body.items[k], &mut part)?;
        append_segment(&mut body, part, Ghost(m), Ghost(st.label_count as int), Ghost(q), Ghost(st.latest@));
        proof {
            lemma_appended_chain(b0, prev, body@, 0, m, st.label_count as int);
            lemma_defs_chain(b0, prev, body@, g_start, q, st.latest@);
        }
        assert(body@[0] == first);
        k += 1;
    }
    proof {
        let b = body@;
        assert forall|i: int, j: int| 0 <= i < j < b.len() && (#[trigger] b[i]) is Label && (#[trigger] b[j]) is Label
            implies b[i]->Label_0.deep_view() != b[j]->Label_0.deep_view() by {
            if i == 0 {
                assert(b[0] == b0[0]);
                assert(b[j]->Label_0 is CompilerTemp);
            } else {
                assert(b[i]->Label_0 is CompilerTemp && b[j]->Label_0 is CompilerTemp);
                assert(b[i]->Label_0->CompilerTemp_0 != b[j]->Label_0->CompilerTemp_0);
            }
        }
        assert forall|i: int, j: int| 0 <= i < j < b.len() && (#[trigger] src_def(b[i])) is Some && (#[trigger] src_def(b[j])) is Some
            implies src_def(b[i]) != src_def(b[j]) by {
            if i == 0 {
                assert(b[0] == b0[0]);
            }
        }
    }
    Ok(ToplevelItem::Function(FunctionDef { name: name.0, return_width, parameters, body }))
}

/// Lowers a function declaration without a body.
pub fn declaration_ssa(dec: &ast::Declaration) -> (r: Result<ToplevelItem, SsaError>)
    ensures
        r matches Ok(item) ==> item is Declaration,
        simple_declaration(*dec) ==> r is Ok,
{
    match &*dec.declarator {
        ast::Declarator::FunctionDeclarator(fd) => {
            let name = fd.declarator.get_identifier();
            let base = SymbolType::from_data_type(dec.dtype);
            let ty = match SymbolType::from_declarator(&dec.declarator, &base) {
                Ok(t) => t,
                Err(_) => {
                    return Err(SsaError::InvalidDeclarator);
                },
            };
            let (types, _) = match parameter_types(&fd.parameters) {
                Ok(x) => x,
                Err(_) => {
                    return Err(SsaError::InvalidDeclarator);
                },
            };
            Ok(ToplevelItem::Declaration(ToplevelDeclaration::Function {
                storage_class: dec.storage_class,
                name: name.0,
                return_width: ty.width(),
                parameters: widths_of(&types),
            }))
        },
        _ => Err(SsaError::UnsupportedConstruct),
    }
}

/// Lowers a translation unit to SSA, item by item; names resolve against the
/// global scope of `symbol_table` and the function's own declarations.
pub fn build_ssa(unit: &ast::TranslationUnit, symbol_table: &SymbolTable) -> (r: Result<Vec<ToplevelItem>, SsaError>)
    requires
        symbol_table.wf(),
    ensures
        r matches Ok(items) ==> items@.len() == unit.items@.len()
            && forall|i: int| 0 <= i < items@.len() ==> ((#[trigger] items@[i]) is Function <==> unit.items@[i] is FunctionDefinition)
            && forall|i: int| 0 <= i < items@.len() && (#[trigger] items@[i]) is Function ==> labels_unique(items@[i]->Function_0.body@)
                && single_definitions(items@[i]->Function_0.body@)
                && items@[i]->Function_0.body@.len() > 0
                && items@[i]->Function_0.body@[0].deep_view() == crate::nodes::SsaV::Label(
                    crate::nodes::LabelV::Source(start_label_text(items@[i]->Function_0.name@))),
        (forall|i: int| 0 <= i < unit.items@.len() ==> match #[trigger] unit.items@[i] {
            ast::TopLevelItem::FunctionDefinition(fd) => simple_function(fd, *symbol_table),
            ast::TopLevelItem::Declaration(d) => simple_declaration(d),
        }) ==> r is Ok,
{
    let mut toplevels: Vec<ToplevelItem> = Vec::new();
    let mut i: usize = 0;
    while i < unit.items.len()
        invariant
            symbol_table.wf(),
            i <= unit.items@.len(),
            toplevels@.len() == i,
            forall|t: int| 0 <= t < i ==> ((#[trigger] toplevels@[t]) is Function <==> unit.items@[t] is FunctionDefinition),
            forall|t: int| 0 <= t < i && (#[trigger] toplevels@[t]) is Function ==> labels_unique(toplevels@[t]->Function_0.body@)
                && single_definitions(toplevels@[t]->Function_0.body@)
                && toplevels@[t]->Function_0.body@.len() > 0
                && toplevels@[t]->Function_0.body@[0].deep_view() == crate::nodes::SsaV::Label(
                    crate::nodes::LabelV::Source(start_label_text(toplevels@[t]->Function_0.name@))),
        decreases unit.items@.len() - i,
    {
        let item = match &unit.items[i] {
            ast::TopLevelItem::FunctionDefinition(fd) => function_ssa(fd, symbol_table)?,
            ast::TopLevelItem::Declaration(dec) => declaration_ssa(dec)?,
        };
        toplevels.push(item);
        i += 1;
    }
    Ok(toplevels)
}


} // verus!
