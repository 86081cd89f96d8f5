use vstd::prelude::*;
use crate::ast;
use crate::common::{StorageClass, Width};

verus! {

/// The type of a symbol: `int`, `char`, or a pointer.
#[derive(Debug)]
pub enum SymbolType {
    Int,
    Char,
    Pointer(Box<SymbolType>),
}

/// `base` under `nest` levels of pointer.
pub open spec fn ptr_spec(base: SymbolType, nest: nat) -> SymbolType
    decreases nest,
{
    if nest == 0 {
        base
    } else {
        SymbolType::Pointer(Box::new(ptr_spec(base, (nest - 1) as nat)))
    }
}

/// The type a declarator gives to `base`; `None` for an initialising declarator.
pub open spec fn declarator_type(d: ast::Declarator, base: SymbolType) -> Option<SymbolType>
    decreases d,
{
    match d {
        ast::Declarator::PointerDeclarator(pr) => match declarator_type(*pr.declarator, base) {
            Some(t) => Some(SymbolType::Pointer(Box::new(t))),
            None => None,
        },
        ast::Declarator::Identifier(_) => Some(base),
        ast::Declarator::FunctionDeclarator(fd) => declarator_type(*fd.declarator, base),
        ast::Declarator::InitDeclarator(_) => None,
    }
}

/// The width of a value of a type.
pub open spec fn width_of(t: SymbolType) -> Width {
    match t {
        SymbolType::Int => Width::Word,
        SymbolType::Char => Width::Byte,
        SymbolType::Pointer(_) => Width::Long,
    }
}

impl SymbolType {
    pub fn make_ptr(base_type: SymbolType, nest: usize) -> (r: SymbolType)
        ensures
            r == ptr_spec(base_type, nest as nat),
        decreases nest,
    {
        if nest == 0 {
            return base_type;
        }
        SymbolType::Pointer(Box::new(Self::make_ptr(base_type, nest - 1)))
    }

    pub fn duplicate(&self) -> (r: SymbolType)
        ensures
            r == *self,
        decreases self,
    {
        match self {
            SymbolType::Int => SymbolType::Int,
            SymbolType::Char => SymbolType::Char,
            SymbolType::Pointer(b) => SymbolType::Pointer(Box::new(b.duplicate())),
        }
    }

    pub fn from_data_type(d: ast::DataType) -> (r: SymbolType)
        ensures
            d == ast::DataType::Int ==> r == SymbolType::Int,
            d == ast::DataType::Char ==> r == SymbolType::Char,
            r == data_type_sym(d),
    {
        match d {
            ast::DataType::Int => SymbolType::Int,
            ast::DataType::Char => SymbolType::Char,
        }
    }

    /// The type a declarator gives to a base type: one pointer level per pointer
    /// declarator; an initialising declarator is not accepted here.
    pub fn from_declarator(d: &ast::Declarator, base: &SymbolType) -> (r: Result<SymbolType, SemanticError>)
        ensures
            match r {
                Ok(t) => declarator_type(*d, *base) == Some(t),
                Err(_) => declarator_type(*d, *base) is None,
            },
        decreases d,
    {
        match d {
            ast::Declarator::PointerDeclarator(pr) => {
                let inner = SymbolType::from_declarator(&pr.declarator, base)?;
                Ok(SymbolType::Pointer(Box::new(inner)))
            },
            ast::Declarator::Identifier(_) => Ok(base.duplicate()),
            ast::Declarator::FunctionDeclarator(fd) => SymbolType::from_declarator(&fd.declarator, base),
            ast::Declarator::InitDeclarator(_) => Err(SemanticError::InvalidPointerDeclarator),
        }
    }

    /// The type of a declared parameter.
    pub fn from_parameter(p: &ast::ParameterDeclaration) -> (r: Result<SymbolType, SemanticError>)
        ensures
            *p.declarator is Identifier ==> r is Ok,
    {
        let base = SymbolType::from_data_type(p.dtype);
        match &*p.declarator {
            ast::Declarator::Identifier(_) => Ok(base),
            ast::Declarator::PointerDeclarator(pd) => {
                let inner = SymbolType::from_declarator(&pd.declarator, &base)?;
                Ok(SymbolType::Pointer(Box::new(inner)))
            },
            _ => Err(SemanticError::InvalidParameterDeclarator),
        }
    }

    pub fn width(&self) -> (r: Width)
        ensures
            r == width_of(*self),
    {
        match self {
            SymbolType::Int => Width::Word,
            SymbolType::Char => Width::Byte,
            SymbolType::Pointer(_) => Width::Long,
        }
    }
}

#[derive(Debug, Clone, Copy, PartialEq, Eq, Structural)]
pub enum SemanticError {
    InvalidPointerDeclarator,
    InvalidParameterDeclarator,
}

#[derive(Debug)]
pub enum SymbolKind {
    Variable { is_mutable: bool },
    Function { parameters: Vec<SymbolType>, is_variadic: bool },
}

#[derive(Debug)]
pub struct Symbol {
    pub name: String,
    pub kind: SymbolKind,
    pub type_info: SymbolType,
    pub storage_class: StorageClass,
}

fn duplicate_types(v: &Vec<SymbolType>) -> (r: Vec<SymbolType>)
    ensures
        r@ == v@,
{
    let mut out: Vec<SymbolType> = Vec::new();
    let mut i: usize = 0;
    while i < v.len()
        invariant
            i <= v@.len(),
            out@ == v@.subrange(0, i as int),
        decreases v@.len() - i,
    {
        out.push(v[i].duplicate());
        i += 1;
        proof {
            assert(out@ =~= v@.subrange(0, i as int));
        }
    }
    proof {
        assert(out@ =~= v@);
    }
    out
}

impl Symbol {
    pub fn duplicate(&self) -> (r: Symbol)
        ensures
            r.name == self.name,
            r.type_info == self.type_info,
            r.storage_class == self.storage_class,
            self.kind is Variable <==> r.kind is Variable,
            self.kind matches SymbolKind::Function { parameters, is_variadic } ==> r.kind matches SymbolKind::Function {
                parameters: copied, is_variadic: copied_variadic } && copied@ == parameters@ && copied_variadic == is_variadic,
    {
        Symbol {
            name: self.name.clone(),
            kind: match &self.kind {
                SymbolKind::Variable { is_mutable } => SymbolKind::Variable { is_mutable: *is_mutable },
                SymbolKind::Function { parameters, is_variadic } => SymbolKind::Function {
                    parameters: duplicate_types(parameters),
                    is_variadic: *is_variadic,
                },
            },
            type_info: self.type_info.duplicate(),
            storage_class: self.storage_class,
        }
    }
}

/// A scope: its symbols, and its place in the tree of scopes by index.
#[derive(Debug)]
pub struct Scope {
    pub symbols: Vec<Symbol>,
    pub parent: Option<usize>,
    pub children: Vec<usize>,
}

/// Scopes of a translation unit, held in an arena; a parent always precedes its children.
#[derive(Debug)]
pub struct SymbolTable {
    pub scopes: Vec<Scope>,
    pub current_scope: usize,
    pub global_scope: usize,
}

/// The symbol that `name` resolves to from scope `s`: the latest one declared
/// under that name in `s`, else the resolution from its parent.
pub open spec fn resolve(scopes: Seq<Scope>, s: int, name: Seq<char>) -> Option<Symbol>
    decreases s,
{
    if s < 0 || s >= scopes.len() {
        None
    } else {
        match last_named(scopes[s].symbols@, name) {
            Some(i) => Some(scopes[s].symbols@[i]),
            None => match scopes[s].parent {
                Some(p) => if p < s { resolve(scopes, p as int, name) } else { None },
                None => None,
            },
        }
    }
}

/// Index of the last symbol called `name`.
pub open spec fn last_named(syms: Seq<Symbol>, name: Seq<char>) -> Option<int>
    decreases syms.len(),
{
    if syms.len() == 0 {
        None
    } else if syms.last().name@ == name {
        Some(syms.len() - 1)
    } else {
        last_named(syms.drop_last(), name)
    }
}

/// The parent of scope `s`, at index `i`, comes before it.
pub open spec fn parent_before(s: Scope, i: int) -> bool {
    match s.parent {
        Some(p) => p < i,
        None => true,
    }
}

impl SymbolTable {
    /// Scope indices are in range and parents precede children.
    pub open spec fn wf(&self) -> bool {
        &&& self.current_scope < self.scopes@.len()
        &&& self.global_scope < self.scopes@.len()
        &&& forall|i: int| 0 <= i < self.scopes@.len() ==> parent_before(#[trigger] self.scopes@[i], i)
    }

    /// A table holding only an empty global scope.
    pub fn new() -> (r: SymbolTable)
        ensures
            r.wf(),
            r.scopes@.len() == 1,
            r.current_scope == 0,
            r.global_scope == 0,
    {
        let mut scopes: Vec<Scope> = Vec::new();
        scopes.push(Scope { symbols: Vec::new(), parent: None, children: Vec::new() });
        SymbolTable { scopes, current_scope: 0, global_scope: 0 }
    }

    /// Opens a child scope of the current scope and makes it current.
    pub fn enter_scope_mut(&mut self)
        requires
            old(self).wf(),
        ensures
            final(self).wf(),
            final(self).scopes@.len() == old(self).scopes@.len() + 1,
            final(self).current_scope == old(self).scopes@.len(),
            final(self).scopes@[final(self).current_scope as int].parent == Some(old(self).current_scope),
            final(self).scopes@[final(self).current_scope as int].symbols@.len() == 0,
            final(self).scopes@[final(self).current_scope as int].children@.len() == 0,
            final(self).scopes@[old(self).current_scope as int].children@
                == old(self).scopes@[old(self).current_scope as int].children@.push(old(self).scopes@.len() as usize),
            forall|i: int| 0 <= i < old(self).scopes@.len() && i != old(self).current_scope ==> #[trigger] final(self).scopes@[i] == old(self).scopes@[i],
            final(self).global_scope == old(self).global_scope,
    {
        let n = self.scopes.len();
        let cur = self.current_scope;
        self.scopes.push(Scope { symbols: Vec::new(), parent: Some(cur), children: Vec::new() });
        let mut scope = self.scopes.remove(cur);
        scope.children.push(n);
        self.scopes.insert(cur, scope);
        self.current_scope = n;
        proof {
            assert forall|i: int| 0 <= i < self.scopes@.len() implies parent_before(#[trigger] self.scopes@[i], i) by {
                if i != cur && i != n {
                    assert(self.scopes@[i] == old(self).scopes@[i]);
                }
            }
        }
    }

    /// The same scopes seen from scope `scope`.
    pub fn new_with_scope(self, scope: usize) -> (r: SymbolTable)
        requires
            self.wf(),
            scope < self.scopes@.len(),
        ensures
            r.wf(),
            r.scopes@ == self.scopes@,
            r.current_scope == scope,
    {
        SymbolTable { scopes: self.scopes, current_scope: scope, global_scope: self.global_scope }
    }

    /// Declares a symbol in the current scope.
    pub fn add_symbol(&mut self, symbol: Symbol)
        requires
            old(self).wf(),
        ensures
            final(self).wf(),
            final(self).current_scope == old(self).current_scope,
            final(self).global_scope == old(self).global_scope,
            final(self).scopes@.len() == old(self).scopes@.len(),
            resolve(final(self).scopes@, final(self).current_scope as int, symbol.name@) == Some(symbol),
    {
        let cur = self.current_scope;
        let ghost name = symbol.name@;
        let ghost sym = symbol;
        let mut scope = self.scopes.remove(cur);
        let ghost before = scope.symbols@;
        scope.symbols.push(symbol);
        self.scopes.insert(cur, scope);
        proof {
            assert(self.scopes@[cur as int].symbols@ == before.push(sym));
            assert(self.scopes@[cur as int].symbols@.drop_last() =~= before);
            assert forall|i: int| 0 <= i < self.scopes@.len() implies parent_before(#[trigger] self.scopes@[i], i) by {
                if i != cur {
                    assert(self.scopes@[i] == old(self).scopes@[i]);
                }
            }
        }
    }

    /// Returns to the parent of the current scope, if it has one.
    pub fn exit_scope_mut(&mut self)
        requires
            old(self).wf(),
        ensures
            final(self).wf(),
            final(self).scopes@ == old(self).scopes@,
            final(self).global_scope == old(self).global_scope,
            final(self).current_scope == match old(self).scopes@[old(self).current_scope as int].parent {
                Some(p) => p,
                None => old(self).current_scope,
            },
    {
        match self.scopes[self.current_scope].parent {
            Some(p) => {
                self.current_scope = p;
            },
            None => {},
        }
    }

    /// The symbol `name` resolves to from the current scope.
    pub fn query(&self, name: &str) -> (r: Option<&Symbol>)
        requires
            self.wf(),
        ensures
            match r {
                Some(s) => resolve(self.scopes@, self.current_scope as int, name@) == Some(*s),
                None => resolve(self.scopes@, self.current_scope as int, name@) is None,
            },
    {
        self.query_in(self.current_scope, name)
    }

    /// The symbol `name` resolves to from scope `scope`.
    pub fn query_in(&self, scope: usize, name: &str) -> (r: Option<&Symbol>)
        requires
            self.wf(),
            scope < self.scopes@.len(),
        ensures
            match r {
                Some(s) => resolve(self.scopes@, scope as int, name@) == Some(*s),
                None => resolve(self.scopes@, scope as int, name@) is None,
            },
    {
        let key = name.to_owned();
        let mut s: usize = scope;
        loop
            invariant
                self.wf(),
                s < self.scopes@.len(),
                resolve(self.scopes@, scope as int, name@) == resolve(self.scopes@, s as int, name@),
                key@ == name@,
            decreases s,
        {
            let syms = &self.scopes[s].symbols;
            let mut i: usize = syms.len();
            proof {
                assert(syms@.subrange(0, i as int) =~= syms@);
            }
            while i > 0
                invariant
                    i <= syms@.len(),
                    last_named(syms@, name@) == last_named(syms@.subrange(0, i as int), name@),
                    key@ == name@,
                    s < self.scopes@.len(),
                    syms@ == self.scopes@[s as int].symbols@,
                    resolve(self.scopes@, scope as int, name@) == resolve(self.scopes@, s as int, name@),
                decreases i,
            {
                proof {
                    let sub = syms@.subrange(0, i as int);
                    assert(sub.drop_last() =~= syms@.subrange(0, i - 1));
                    assert(sub.last() == syms@[i - 1]);
                }
                if syms[i - 1].name == key {
                    proof {
                        assert(last_named(syms@.subrange(0, i as int), name@) == Some(i - 1));
                    }
                    return Some(&syms[i - 1]);
                }
                i -= 1;
            }
            match self.scopes[s].parent {
                Some(p) => {
                    s = p;
                },
                None => {
                    return None;
                },
            }
        }
    }
}

/// A variadic marker, or a parameter declared by a plain name.
pub open spec fn simple_param(p: ast::FunctionParameter) -> bool {
    match p {
        ast::FunctionParameter::VariadicParameter => true,
        ast::FunctionParameter::ParameterDeclaration(pd) => *pd.declarator is Identifier,
    }
}

/// Every parameter is simple.
pub open spec fn simple_params(ps: Seq<ast::FunctionParameter>) -> bool {
    forall|j: int| 0 <= j < ps.len() ==> simple_param(#[trigger] ps[j])
}

/// The type a base data type names.
pub open spec fn data_type_sym(d: ast::DataType) -> SymbolType {
    match d {
        ast::DataType::Int => SymbolType::Int,
        ast::DataType::Char => SymbolType::Char,
    }
}

/// The types of the declared (non-variadic) parameters, and whether a variadic
/// marker ends the list.
pub fn parameter_types(params: &Vec<ast::FunctionParameter>) -> (r: Result<(Vec<SymbolType>, bool), SemanticError>)
    ensures
        r matches Ok((v, _)) ==> v@.len() <= params@.len(),
        simple_params(params@) ==> r is Ok,
{
    let mut out: Vec<SymbolType> = Vec::new();
    let mut variadic = false;
    let mut i: usize = 0;
    while i < params.len()
        invariant
            i <= params@.len(),
            out@.len() <= i,
            simple_params(params@) ==> forall|j: int| 0 <= j < params@.len() ==> simple_param(#[trigger] params@[j]),
        decreases params@.len() - i,
    {
        match &params[i] {
            ast::FunctionParameter::ParameterDeclaration(pd) => {
                out.push(SymbolType::from_parameter(pd)?);
            },
            ast::FunctionParameter::VariadicParameter => {
                variadic = true;
            },
        }
        i += 1;
    }
    Ok((out, variadic))
}

/// Declares what a declaration names in the current scope.
pub fn declare_declaration(table: &mut SymbolTable, d: &ast::Declaration) -> (r: Result<(), SemanticError>)
    requires
        old(table).wf(),
    ensures
        final(table).wf(),
        final(table).current_scope == old(table).current_scope,
        final(table).global_scope == old(table).global_scope,
        final(table).scopes@.len() == old(table).scopes@.len(),
{
    let base = SymbolType::from_data_type(d.dtype);
    let identifier = d.declarator.get_identifier();
    match &*d.declarator {
        ast::Declarator::InitDeclarator(init) => {
            let t = SymbolType::from_declarator(&init.declarator, &base)?;
            table.add_symbol(Symbol {
                name: identifier.0,
                kind: SymbolKind::Variable { is_mutable: true },
                type_info: t,
                storage_class: d.storage_class,
            });
        },
        ast::Declarator::FunctionDeclarator(fd) => {
            let (parameters, is_variadic) = parameter_types(&fd.parameters)?;
            let t = SymbolType::from_declarator(&fd.declarator, &base)?;
            table.add_symbol(Symbol {
                name: identifier.0,
                kind: SymbolKind::Function { parameters, is_variadic },
                type_info: t,
                storage_class: d.storage_class,
            });
        },
        _ => {
            let t = SymbolType::from_declarator(&d.declarator, &base)?;
            table.add_symbol(Symbol {
                name: identifier.0,
                kind: SymbolKind::Variable { is_mutable: true },
                type_info: t,
                storage_class: d.storage_class,
            });
        },
    }
    Ok(())
}

/// Declares the names of a statement, opening a scope for each compound statement.
pub fn declare_statement(table: &mut SymbolTable, st: &ast::Statement) -> (r: Result<(), SemanticError>)
    requires
        old(table).wf(),
    ensures
        final(table).wf(),
        final(table).global_scope == old(table).global_scope,
        final(table).scopes@.len() >= old(table).scopes@.len(),
    decreases st,
{
    match st {
        ast::Statement::CompoundStatement(cs) => declare_compound(table, cs, &Vec::new()),
        ast::Statement::IfStatement(ifs) => {
            declare_statement(table, &ifs.body)?;
            match &ifs.else_body {
                Some(e) => declare_statement(table, e),
                None => Ok(()),
            }
        },
        ast::Statement::WhileStatement(ws) => declare_statement(table, &ws.body),
        ast::Statement::Declaration(d) => declare_declaration(table, d),
        _ => Ok(()),
    }
}

/// Opens a scope, declares `injected` and the names of `cs` in it, and closes it.
pub fn declare_compound(table: &mut SymbolTable, cs: &ast::CompoundStatement, injected: &Vec<Symbol>) -> (r: Result<(), SemanticError>)
    requires
        old(table).wf(),
    ensures
        final(table).wf(),
        final(table).global_scope == old(table).global_scope,
        final(table).scopes@.len() >= old(table).scopes@.len(),
    decreases cs,
{
    let outer = table.current_scope;
    table.enter_scope_mut();
    let mut i: usize = 0;
    while i < injected.len()
        invariant
            table.wf(),
            table.global_scope == old(table).global_scope,
            table.scopes@.len() >= old(table).scopes@.len(),
            i <= injected@.len(),
        decreases injected@.len() - i,
    {
        table.add_symbol(injected[i].duplicate());
        i += 1;
    }
    let mut k: usize = 0;
    while k < cs.items.len()
        invariant
            table.wf(),
            table.global_scope == old(table).global_scope,
            table.scopes@.len() >= old(table).scopes@.len(),
            k <= cs.items@.len(),
        decreases cs.items@.len() - k,
    {
        declare_statement(table, &cs.items[k])?;
        k += 1;
    }
    if outer < table.scopes.len() {
        table.current_scope = outer;
    }
    Ok(())
}

/// Declares a function in the current scope and its parameters and body in a new one.
pub fn declare_function(table: &mut SymbolTable, fd: &ast::FunctionDefinition) -> (r: Result<(), SemanticError>)
    requires
        old(table).wf(),
    ensures
        final(table).wf(),
        final(table).global_scope == old(table).global_scope,
{
    let name = fd.declarator.get_identifier();
    let base = SymbolType::from_data_type(fd.return_type);
    let return_type = match &fd.declarator {
        ast::FunctionDeclaratorField::PointerDeclarator(pd) => {
            let inner = SymbolType::from_declarator(&pd.declarator, &base)?;
            SymbolType::Pointer(Box::new(inner))
        },
        ast::FunctionDeclaratorField::FunctionDeclarator(_) => base,
    };
    let params = match fd.declarator.parameters() {
        Some(p) => p,
        None => {
            return Err(SemanticError::InvalidParameterDeclarator);
        },
    };
    let (types, is_variadic) = parameter_types(params)?;
    let mut injected: Vec<Symbol> = Vec::new();
    let mut i: usize = 0;
    let mut t: usize = 0;
    while i < params.len()
        invariant
            i <= params@.len(),
            t <= i,
            table.wf(),
            table.global_scope == old(table).global_scope,
            *table == *old(table),
        decreases params@.len() - i,
    {
        if let ast::FunctionParameter::ParameterDeclaration(pd) = &params[i] {
            let ty = SymbolType::from_parameter(pd)?;
            injected.push(Symbol {
                name: pd.declarator.get_identifier().0,
                kind: SymbolKind::Variable { is_mutable: true },
                type_info: ty,
                storage_class: StorageClass::Auto,
            });
            t += 1;
        }
        i += 1;
    }
    table.add_symbol(Symbol {
        name: name.0,
        kind: SymbolKind::Function { parameters: types, is_variadic },
        type_info: return_type,
        storage_class: StorageClass::Auto,
    });
    declare_compound(table, &fd.body, &injected)
}

/// An AST node whose declarations can be entered into a symbol table.
pub trait Visitable {
    fn visit(&self, table: &mut SymbolTable) -> (r: Result<(), SemanticError>)
        requires
            old(table).wf(),
        ensures
            final(table).wf(),
            final(table).global_scope == old(table).global_scope;
}

impl Visitable for ast::Statement {
    fn visit(&self, table: &mut SymbolTable) -> (r: Result<(), SemanticError>) {
        declare_statement(table, self)
    }
}

impl Visitable for ast::Declaration {
    fn visit(&self, table: &mut SymbolTable) -> (r: Result<(), SemanticError>) {
        declare_declaration(table, self)
    }
}

impl Visitable for ast::CompoundStatement {
    fn visit(&self, table: &mut SymbolTable) -> (r: Result<(), SemanticError>) {
        declare_compound(table, self, &Vec::new())
    }
}

impl Visitable for ast::FunctionDefinition {
    fn visit(&self, table: &mut SymbolTable) -> (r: Result<(), SemanticError>) {
        declare_function(table, self)
    }
}

impl Visitable for ast::TopLevelItem {
    fn visit(&self, table: &mut SymbolTable) -> (r: Result<(), SemanticError>) {
        match self {
            ast::TopLevelItem::FunctionDefinition(fd) => declare_function(table, fd),
            ast::TopLevelItem::Declaration(d) => declare_declaration(table, d),
        }
    }
}

impl SymbolTable {
    /// The scopes of a translation unit: globals in scope 0, each function body in
    /// a scope of its own under it.
    pub fn from_translation_unit(unit: &ast::TranslationUnit) -> (r: Result<SymbolTable, SemanticError>)
        ensures
            r matches Ok(t) ==> t.wf() && t.global_scope == 0 && t.current_scope == 0,
    {
        let mut table = SymbolTable::new();
        let mut i: usize = 0;
        while i < unit.items.len()
            invariant
                table.wf(),
                table.global_scope == 0,
                i <= unit.items@.len(),
            decreases unit.items@.len() - i,
        {
            table.current_scope = table.global_scope;
            unit.items[i].visit(&mut table)?;
            i += 1;
        }
        table.current_scope = table.global_scope;
        Ok(table)
    }
}

} // verus!
