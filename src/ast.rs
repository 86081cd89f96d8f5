use vstd::prelude::*;
use crate::common::StorageClass;

verus! {

/// The declarator of a function definition.
#[derive(Debug)]
pub enum FunctionDeclaratorField {
    FunctionDeclarator(FunctionDeclarator),
    PointerDeclarator(PointerDeclarator),
}

/// Name declared by a declarator, looking through pointer, function and
/// initialising declarators.
pub open spec fn declarator_name(d: Declarator) -> Seq<char>
    decreases d,
{
    match d {
        Declarator::FunctionDeclarator(fd) => declarator_name(*fd.declarator),
        Declarator::Identifier(i) => i.0@,
        Declarator::PointerDeclarator(p) => declarator_name(*p.declarator),
        Declarator::InitDeclarator(i) => declarator_name(*i.declarator),
    }
}

/// The parameter list reached through a chain of pointer declarators, if any.
pub open spec fn declarator_params(d: Declarator) -> Option<Seq<FunctionParameter>>
    decreases d,
{
    match d {
        Declarator::FunctionDeclarator(fd) => Some(fd.parameters@),
        Declarator::PointerDeclarator(p) => declarator_params(*p.declarator),
        _ => None,
    }
}

/// Number of pointer declarators on the way to the declared name.
pub open spec fn pointer_depth(d: Declarator) -> nat
    decreases d,
{
    match d {
        Declarator::FunctionDeclarator(fd) => pointer_depth(*fd.declarator),
        Declarator::PointerDeclarator(p) => 1 + pointer_depth(*p.declarator),
        _ => 0,
    }
}

pub open spec fn field_params(f: FunctionDeclaratorField) -> Option<Seq<FunctionParameter>> {
    match f {
        FunctionDeclaratorField::FunctionDeclarator(fd) => Some(fd.parameters@),
        FunctionDeclaratorField::PointerDeclarator(pd) => declarator_params(*pd.declarator),
    }
}

pub open spec fn field_name(f: FunctionDeclaratorField) -> Seq<char> {
    match f {
        FunctionDeclaratorField::FunctionDeclarator(fd) => declarator_name(*fd.declarator),
        FunctionDeclaratorField::PointerDeclarator(pd) => declarator_name(*pd.declarator),
    }
}

fn declarator_parameters(d: &Declarator) -> (r: Option<&Vec<FunctionParameter>>)
    ensures
        r matches Some(v) ==> declarator_params(*d) == Some(v@),
        r is None ==> declarator_params(*d) is None,
    decreases d,
{
    match d {
        Declarator::FunctionDeclarator(fd) => Some(&fd.parameters),
        Declarator::PointerDeclarator(pd) => declarator_parameters(&pd.declarator),
        _ => None,
    }
}

impl FunctionDeclaratorField {
    /// The declared parameters; `None` when the declarator holds no parameter list.
    pub fn parameters(&self) -> (r: Option<&Vec<FunctionParameter>>)
        ensures
            r matches Some(v) ==> field_params(*self) == Some(v@),
            r is None ==> field_params(*self) is None,
    {
        match self {
            FunctionDeclaratorField::FunctionDeclarator(fd) => Some(&fd.parameters),
            FunctionDeclaratorField::PointerDeclarator(pd) => declarator_parameters(&pd.declarator),
        }
    }

    pub fn get_identifier(&self) -> (r: Identifier)
        ensures
            r.0@ == field_name(*self),
    {
        match self {
            FunctionDeclaratorField::FunctionDeclarator(fd) => fd.declarator.get_identifier(),
            FunctionDeclaratorField::PointerDeclarator(pd) => pd.declarator.get_identifier(),
        }
    }
}

#[derive(Debug)]
pub struct FunctionDefinition {
    pub return_type: DataType,
    pub declarator: FunctionDeclaratorField,
    pub body: CompoundStatement,
}

#[derive(Debug, Clone)]
pub struct Identifier(pub String);

#[derive(Debug)]
pub struct StringLiteral(pub String);

/// A numeric literal, already decoded by the front end.
#[derive(Debug)]
pub struct NumberLiteral(pub i64);

#[derive(Debug)]
pub struct ParameterDeclaration {
    pub dtype: DataType,
    pub declarator: Box<Declarator>,
}

#[derive(Debug)]
pub enum FunctionParameter {
    ParameterDeclaration(ParameterDeclaration),
    VariadicParameter,
}

#[derive(Debug)]
pub struct FunctionDeclarator {
    pub declarator: Box<Declarator>,
    pub parameters: Vec<FunctionParameter>,
}

#[derive(Debug)]
pub struct PointerDeclarator {
    pub declarator: Box<Declarator>,
}

impl PointerDeclarator {
    /// Number of pointer levels, this one included.
    pub fn get_nest_level(&self) -> (r: usize)
        requires
            pointer_depth(*self.declarator) < usize::MAX,
        ensures
            r == 1 + pointer_depth(*self.declarator),
    {
        1 + declarator_depth(&self.declarator)
    }
}

fn declarator_depth(d: &Declarator) -> (r: usize)
    requires
        pointer_depth(*d) <= usize::MAX,
    ensures
        r == pointer_depth(*d),
    decreases d,
{
    match d {
        Declarator::FunctionDeclarator(fd) => declarator_depth(&fd.declarator),
        Declarator::PointerDeclarator(pd) => 1 + declarator_depth(&pd.declarator),
        _ => 0,
    }
}

#[derive(Debug)]
pub struct InitDeclarator {
    pub declarator: Box<Declarator>,
    pub value: Expression,
}

#[derive(Debug)]
pub enum Declarator {
    FunctionDeclarator(FunctionDeclarator),
    PointerDeclarator(PointerDeclarator),
    Identifier(Identifier),
    InitDeclarator(InitDeclarator),
}

impl Declarator {
    pub fn get_identifier(&self) -> (r: Identifier)
        ensures
            r.0@ == declarator_name(*self),
        decreases self,
    {
        match self {
            Declarator::FunctionDeclarator(fd) => fd.declarator.get_identifier(),
            Declarator::Identifier(i) => Identifier(i.0.clone()),
            Declarator::PointerDeclarator(i) => i.declarator.get_identifier(),
            Declarator::InitDeclarator(i) => i.declarator.get_identifier(),
        }
    }
}

#[derive(Debug, Clone, Copy, PartialEq, Eq, Structural)]
pub enum DataType {
    Int,
    Char,
}

#[derive(Debug)]
pub struct CallExpression {
    pub function: Box<Expression>,
    pub arguments: Vec<Expression>,
}

impl CallExpression {
    /// The callee's name when the callee is a plain identifier.
    pub fn get_identifier(&self) -> (r: Option<Identifier>)
        ensures
            r is Some <==> *self.function is Identifier,
            r matches Some(i) ==> i.0@ == (*self.function)->Identifier_0.0@,
    {
        match &*self.function {
            Expression::Identifier(id) => Some(Identifier(id.0.clone())),
            _ => None,
        }
    }
}

#[derive(Debug, Clone, Copy, PartialEq, Eq, Structural)]
pub enum BinOp {
    Plus,
    Mul,
    Minus,
    Div,
    Gt,
    Lt,
    Eq,
}

impl BinOp {
    /// The operator that a token spells; the token must be one of
    /// `+ * - / > < ==`.
    pub fn from_str(value: &str) -> (r: BinOp)
        requires
            binop_of_token(value@) is Some,
        ensures
            binop_of_token(value@) == Some(r),
    {
        let v = value.to_owned();
        if v == "+".to_owned() {
            BinOp::Plus
        } else if v == "*".to_owned() {
            BinOp::Mul
        } else if v == "-".to_owned() {
            BinOp::Minus
        } else if v == "/".to_owned() {
            BinOp::Div
        } else if v == ">".to_owned() {
            BinOp::Gt
        } else if v == "<".to_owned() {
            BinOp::Lt
        } else if v == "==".to_owned() {
            BinOp::Eq
        } else {
            BinOp::Eq
        }
    }
}

#[derive(Debug)]
pub struct ExpressionBinary {
    pub left: Box<Expression>,
    pub op: BinOp,
    pub right: Box<Expression>,
}

#[derive(Debug)]
pub struct ParenthesizedExpression {
    pub expression: Box<Expression>,
}

#[derive(Debug, Clone, Copy, PartialEq, Eq, Structural)]
pub enum AssignmentType {
    Eq,
    AddEq,
    SubEq,
    MulEq,
    DivEq,
}

impl AssignmentType {
    /// The assignment operator that a token spells; the token must be one of
    /// `= += -= *= /=`.
    pub fn from_str(inp: &str) -> (r: AssignmentType)
        requires
            assignment_of_token(inp@) is Some,
        ensures
            assignment_of_token(inp@) == Some(r),
    {
        let v = inp.to_owned();
        if v == "=".to_owned() {
            AssignmentType::Eq
        } else if v == "+=".to_owned() {
            AssignmentType::AddEq
        } else if v == "-=".to_owned() {
            AssignmentType::SubEq
        } else if v == "*=".to_owned() {
            AssignmentType::MulEq
        } else if v == "/=".to_owned() {
            AssignmentType::DivEq
        } else {
            AssignmentType::DivEq
        }
    }

    pub fn to_op(&self) -> (r: Option<BinOp>)
        ensures
            r == assignment_op(*self),
    {
        match self {
            AssignmentType::Eq => None,
            AssignmentType::AddEq => Some(BinOp::Plus),
            AssignmentType::SubEq => Some(BinOp::Minus),
            AssignmentType::MulEq => Some(BinOp::Mul),
            AssignmentType::DivEq => Some(BinOp::Div),
        }
    }
}

/// The binary operator that a token spells.
pub open spec fn binop_of_token(t: Seq<char>) -> Option<BinOp> {
    if t == "+"@ {
        Some(BinOp::Plus)
    } else if t == "*"@ {
        Some(BinOp::Mul)
    } else if t == "-"@ {
        Some(BinOp::Minus)
    } else if t == "/"@ {
        Some(BinOp::Div)
    } else if t == ">"@ {
        Some(BinOp::Gt)
    } else if t == "<"@ {
        Some(BinOp::Lt)
    } else if t == "=="@ {
        Some(BinOp::Eq)
    } else {
        None
    }
}

/// The assignment operator that a token spells.
pub open spec fn assignment_of_token(t: Seq<char>) -> Option<AssignmentType> {
    if t == "="@ {
        Some(AssignmentType::Eq)
    } else if t == "+="@ {
        Some(AssignmentType::AddEq)
    } else if t == "-="@ {
        Some(AssignmentType::SubEq)
    } else if t == "*="@ {
        Some(AssignmentType::MulEq)
    } else if t == "/="@ {
        Some(AssignmentType::DivEq)
    } else {
        None
    }
}

pub open spec fn assignment_op(a: AssignmentType) -> Option<BinOp> {
    match a {
        AssignmentType::Eq => None,
        AssignmentType::AddEq => Some(BinOp::Plus),
        AssignmentType::SubEq => Some(BinOp::Minus),
        AssignmentType::MulEq => Some(BinOp::Mul),
        AssignmentType::DivEq => Some(BinOp::Div),
    }
}

#[derive(Debug)]
pub enum LValue {
    Identifier(Identifier),
}

#[derive(Debug)]
pub struct AssignmentExpression {
    pub lvalue: LValue,
    pub rvalue: Box<Expression>,
    pub atype: AssignmentType,
}

#[derive(Debug)]
pub enum Expression {
    Binary(ExpressionBinary),
    Parenthesized(ParenthesizedExpression),
    Call(CallExpression),
    Identifier(Identifier),
    StringLiteral(StringLiteral),
    NumberLiteral(NumberLiteral),
    Empty,
    Assignment(AssignmentExpression),
}

#[derive(Debug)]
pub struct ReturnStatement {
    pub expression: Expression,
}

#[derive(Debug)]
pub struct ExpressionStatement {
    pub expression: Expression,
}

#[derive(Debug)]
pub struct Declaration {
    pub storage_class: StorageClass,
    pub dtype: DataType,
    pub declarator: Box<Declarator>,
}

#[derive(Debug)]
pub struct IfStatement {
    pub condition: ParenthesizedExpression,
    pub body: Box<Statement>,
    pub else_body: Option<Box<Statement>>,
}

#[derive(Debug)]
pub struct WhileStatement {
    pub condition: ParenthesizedExpression,
    pub body: Box<Statement>,
}

#[derive(Debug)]
pub enum Statement {
    ExpressionStatement(ExpressionStatement),
    ReturnStatement(ReturnStatement),
    Declaration(Declaration),
    CompoundStatement(CompoundStatement),
    IfStatement(IfStatement),
    WhileStatement(WhileStatement),
}

#[derive(Debug)]
pub struct CompoundStatement {
    pub items: Vec<Statement>,
}

#[derive(Debug)]
pub enum TopLevelItem {
    FunctionDefinition(FunctionDefinition),
    Declaration(Declaration),
}

#[derive(Debug)]
pub struct TranslationUnit {
    pub items: Vec<TopLevelItem>,
}

} // verus!
