use vstd::prelude::*;
use vstd::string::*;
use crate::common::Width;
use crate::nodes;
use crate::numtext::{dec, digits, push_int, push_usize};

verus! {

#[derive(Debug, Clone, Copy, PartialEq, Eq, Structural)]
pub enum FunctionArgumentRegister {
    X0,
    X1,
    X2,
    X3,
    X4,
    X5,
    X6,
    X7,
}

#[derive(Debug, Clone, Copy, PartialEq, Eq, Structural)]
pub enum CorruptibleRegister {
    X9,
    X10,
    X11,
    X12,
    X13,
    X14,
    X15,
}

#[derive(Debug, Clone, Copy, PartialEq, Eq, Structural)]
pub enum CalleeSavedRegister {
    X19,
    X20,
    X21,
    X22,
    X23,
    X24,
    X25,
    X26,
    X27,
    X28,
}

/// A general-purpose register of AArch64, by role.
#[derive(Debug, Clone, Copy, PartialEq, Eq, Structural)]
pub enum RegisterKind {
    FunctionArgument(FunctionArgumentRegister),
    IndirectResult,
    Corruptuble(CorruptibleRegister),
    IP0,
    IP1,
    PR,
    CalleeSaved(CalleeSavedRegister),
    FramePointer,
    LinkRegister,
    StackPointer,
}

/// Register number of a kind; the stack pointer has none.
pub open spec fn gp_num(k: RegisterKind) -> Option<nat> {
    match k {
        RegisterKind::FunctionArgument(a) => Some(match a {
            FunctionArgumentRegister::X0 => 0nat,
            FunctionArgumentRegister::X1 => 1,
            FunctionArgumentRegister::X2 => 2,
            FunctionArgumentRegister::X3 => 3,
            FunctionArgumentRegister::X4 => 4,
            FunctionArgumentRegister::X5 => 5,
            FunctionArgumentRegister::X6 => 6,
            FunctionArgumentRegister::X7 => 7,
        }),
        RegisterKind::IndirectResult => Some(8),
        RegisterKind::Corruptuble(c) => Some(match c {
            CorruptibleRegister::X9 => 9nat,
            CorruptibleRegister::X10 => 10,
            CorruptibleRegister::X11 => 11,
            CorruptibleRegister::X12 => 12,
            CorruptibleRegister::X13 => 13,
            CorruptibleRegister::X14 => 14,
            CorruptibleRegister::X15 => 15,
        }),
        RegisterKind::IP0 => Some(16),
        RegisterKind::IP1 => Some(17),
        RegisterKind::PR => Some(18),
        RegisterKind::CalleeSaved(c) => Some(match c {
            CalleeSavedRegister::X19 => 19nat,
            CalleeSavedRegister::X20 => 20,
            CalleeSavedRegister::X21 => 21,
            CalleeSavedRegister::X22 => 22,
            CalleeSavedRegister::X23 => 23,
            CalleeSavedRegister::X24 => 24,
            CalleeSavedRegister::X25 => 25,
            CalleeSavedRegister::X26 => 26,
            CalleeSavedRegister::X27 => 27,
            CalleeSavedRegister::X28 => 28,
        }),
        RegisterKind::FramePointer => Some(29),
        RegisterKind::LinkRegister => Some(30),
        RegisterKind::StackPointer => None,
    }
}

impl FunctionArgumentRegister {
    fn to_gp_num(&self) -> (r: usize)
        ensures
            gp_num(RegisterKind::FunctionArgument(*self)) == Some(r as nat),
    {
        match self {
            FunctionArgumentRegister::X0 => 0,
            FunctionArgumentRegister::X1 => 1,
            FunctionArgumentRegister::X2 => 2,
            FunctionArgumentRegister::X3 => 3,
            FunctionArgumentRegister::X4 => 4,
            FunctionArgumentRegister::X5 => 5,
            FunctionArgumentRegister::X6 => 6,
            FunctionArgumentRegister::X7 => 7,
        }
    }
}

impl RegisterKind {
    fn to_gp_num(&self) -> (r: Option<usize>)
        ensures
            match r {
                Some(n) => gp_num(*self) == Some(n as nat),
                None => gp_num(*self) is None,
            },
    {
        match self {
            RegisterKind::FunctionArgument(fa) => Some(fa.to_gp_num()),
            RegisterKind::IndirectResult => Some(8),
            RegisterKind::Corruptuble(c) => Some(match c {
                CorruptibleRegister::X9 => 9,
                CorruptibleRegister::X10 => 10,
                CorruptibleRegister::X11 => 11,
                CorruptibleRegister::X12 => 12,
                CorruptibleRegister::X13 => 13,
                CorruptibleRegister::X14 => 14,
                CorruptibleRegister::X15 => 15,
            }),
            RegisterKind::IP0 => Some(16),
            RegisterKind::IP1 => Some(17),
            RegisterKind::PR => Some(18),
            RegisterKind::CalleeSaved(c) => Some(match c {
                CalleeSavedRegister::X19 => 19,
                CalleeSavedRegister::X20 => 20,
                CalleeSavedRegister::X21 => 21,
                CalleeSavedRegister::X22 => 22,
                CalleeSavedRegister::X23 => 23,
                CalleeSavedRegister::X24 => 24,
                CalleeSavedRegister::X25 => 25,
                CalleeSavedRegister::X26 => 26,
                CalleeSavedRegister::X27 => 27,
                CalleeSavedRegister::X28 => 28,
            }),
            RegisterKind::FramePointer => Some(29),
            RegisterKind::LinkRegister => Some(30),
            RegisterKind::StackPointer => None,
        }
    }
}

/// A register viewed at an operand width.
#[derive(Debug, Clone, Copy, PartialEq, Eq, Structural)]
pub struct Register {
    pub kind: RegisterKind,
    pub width: Width,
}

pub open spec fn arg_reg(n: nat, width: Width) -> Register {
    Register {
        kind: RegisterKind::FunctionArgument(
            if n == 0 { FunctionArgumentRegister::X0 } else if n == 1 { FunctionArgumentRegister::X1 }
            else if n == 2 { FunctionArgumentRegister::X2 } else if n == 3 { FunctionArgumentRegister::X3 }
            else if n == 4 { FunctionArgumentRegister::X4 } else if n == 5 { FunctionArgumentRegister::X5 }
            else if n == 6 { FunctionArgumentRegister::X6 } else { FunctionArgumentRegister::X7 }),
        width,
    }
}

impl Register {
    pub open spec fn align_spec(&self, width: Width) -> Register {
        Register { kind: self.kind, width }
    }

    /// The same register at another width.
    #[verifier::when_used_as_spec(align_spec)]
    pub fn align(&self, width: Width) -> (r: Register)
        ensures
            r == (Register { kind: self.kind, width }),
    {
        Register { kind: self.kind, width }
    }

    pub fn x0(width: Width) -> (r: Register)
        ensures
            r == arg_reg(0, width),
    {
        Register { kind: RegisterKind::FunctionArgument(FunctionArgumentRegister::X0), width }
    }

    pub fn x1(width: Width) -> (r: Register)
        ensures
            r == arg_reg(1, width),
    {
        Register { kind: RegisterKind::FunctionArgument(FunctionArgumentRegister::X1), width }
    }

    pub fn x2(width: Width) -> (r: Register)
        ensures
            r == arg_reg(2, width),
    {
        Register { kind: RegisterKind::FunctionArgument(FunctionArgumentRegister::X2), width }
    }

    pub fn x3(width: Width) -> (r: Register)
        ensures
            r == arg_reg(3, width),
    {
        Register { kind: RegisterKind::FunctionArgument(FunctionArgumentRegister::X3), width }
    }

    pub fn x4(width: Width) -> (r: Register)
        ensures
            r == arg_reg(4, width),
    {
        Register { kind: RegisterKind::FunctionArgument(FunctionArgumentRegister::X4), width }
    }

    pub fn x5(width: Width) -> (r: Register)
        ensures
            r == arg_reg(5, width),
    {
        Register { kind: RegisterKind::FunctionArgument(FunctionArgumentRegister::X5), width }
    }

    pub fn x6(width: Width) -> (r: Register)
        ensures
            r == arg_reg(6, width),
    {
        Register { kind: RegisterKind::FunctionArgument(FunctionArgumentRegister::X6), width }
    }

    pub fn x7(width: Width) -> (r: Register)
        ensures
            r == arg_reg(7, width),
    {
        Register { kind: RegisterKind::FunctionArgument(FunctionArgumentRegister::X7), width }
    }

    /// Argument register `n` (0 to 7).
    pub fn argument(n: usize, width: Width) -> (r: Register)
        requires
            n < 8,
        ensures
            r == arg_reg(n as nat, width),
    {
        if n == 0 { Register::x0(width) } else if n == 1 { Register::x1(width) } else if n == 2 { Register::x2(width) }
        else if n == 3 { Register::x3(width) } else if n == 4 { Register::x4(width) } else if n == 5 { Register::x5(width) }
        else if n == 6 { Register::x6(width) } else { Register::x7(width) }
    }

    pub fn frame_pointer() -> (r: Register)
        ensures
            r == (Register { kind: RegisterKind::FramePointer, width: Width::Long }),
    {
        Register { kind: RegisterKind::FramePointer, width: Width::Long }
    }

    pub fn link_register() -> (r: Register)
        ensures
            r == (Register { kind: RegisterKind::LinkRegister, width: Width::Long }),
    {
        Register { kind: RegisterKind::LinkRegister, width: Width::Long }
    }

    pub fn stack_pointer() -> (r: Register)
        ensures
            r == (Register { kind: RegisterKind::StackPointer, width: Width::Long }),
    {
        Register { kind: RegisterKind::StackPointer, width: Width::Long }
    }

    pub fn addressing_mode(self) -> (r: AddressingMode)
        ensures
            r == AddressingMode::BaseRegister(self),
    {
        AddressingMode::BaseRegister(self)
    }

    pub fn rvalue(self) -> (r: RValue)
        ensures
            r == RValue::Register(self),
    {
        RValue::Register(self)
    }

    /// Assembly name: `sp`, or `w`/`x` and the register number.
    pub fn to_string(&self) -> (r: String)
        ensures
            r@ == reg_text(*self),
    {
        proof {
            reveal_strlit("sp");
            reveal_strlit("w");
            reveal_strlit("x");
        }
        match self.kind.to_gp_num() {
            None => "sp".to_owned(),
            Some(n) => {
                let mut s = if self.width == Width::Long { "x".to_owned() } else { "w".to_owned() };
                push_usize(&mut s, n);
                s
            },
        }
    }
}

pub open spec fn reg_text(r: Register) -> Seq<char> {
    match gp_num(r.kind) {
        None => "sp"@,
        Some(n) => (if r.width == Width::Long { "x"@ } else { "w"@ }) + digits(n),
    }
}

/// A memory operand.
pub enum AddressingMode {
    BaseRegister(Register),
    Offset((Register, i64)),
    PreIndexed((Register, i64)),
    PostIndexed((Register, i64)),
}

impl AddressingMode {
    pub fn stack_offset(off: i64) -> (r: AddressingMode)
        ensures
            r == AddressingMode::Offset((Register { kind: RegisterKind::StackPointer, width: Width::Long }, off)),
    {
        AddressingMode::Offset((Register::stack_pointer(), off))
    }

    pub fn pre_indexed(off: i64) -> (r: AddressingMode)
        ensures
            r == AddressingMode::PreIndexed((Register { kind: RegisterKind::StackPointer, width: Width::Long }, off)),
    {
        AddressingMode::PreIndexed((Register::stack_pointer(), off))
    }

    pub fn post_indexed(off: i64) -> (r: AddressingMode)
        ensures
            r == AddressingMode::PostIndexed((Register { kind: RegisterKind::StackPointer, width: Width::Long }, off)),
    {
        AddressingMode::PostIndexed((Register::stack_pointer(), off))
    }

    pub fn to_string(&self) -> (r: String)
        ensures
            r@ == mode_text(*self),
    {
        proof {
            reveal_strlit("[");
            reveal_strlit("]");
            reveal_strlit(", ");
            reveal_strlit("]!");
            reveal_strlit("], #");
            reveal_strlit(", #");
        }
        let mut s = "[".to_owned();
        match self {
            AddressingMode::BaseRegister(br) => {
                s.append(br.to_string().as_str());
                s.append("]");
            },
            AddressingMode::Offset((br, off)) => {
                s.append(br.to_string().as_str());
                s.append(", #");
                push_int(&mut s, *off);
                s.append("]");
            },
            AddressingMode::PreIndexed((br, off)) => {
                s.append(br.to_string().as_str());
                s.append(", #");
                push_int(&mut s, *off);
                s.append("]!");
            },
            AddressingMode::PostIndexed((br, off)) => {
                s.append(br.to_string().as_str());
                s.append("], #");
                push_int(&mut s, *off);
            },
        }
        s
    }
}

pub open spec fn mode_text(m: AddressingMode) -> Seq<char> {
    match m {
        AddressingMode::BaseRegister(br) => "["@ + reg_text(br) + "]"@,
        AddressingMode::Offset((br, off)) => "["@ + reg_text(br) + ", #"@ + dec(off as int) + "]"@,
        AddressingMode::PreIndexed((br, off)) => "["@ + reg_text(br) + ", #"@ + dec(off as int) + "]!"@,
        AddressingMode::PostIndexed((br, off)) => "["@ + reg_text(br) + "], #"@ + dec(off as int),
    }
}

/// A right-hand operand.
pub enum RValue {
    Register(Register),
    Immediate(i64),
    SymbolOffset(Symbol),
}

impl RValue {
    pub fn to_string(&self) -> (r: String)
        ensures
            r@ == rvalue_text(*self),
    {
        proof {
            reveal_strlit("@PAGEOFF");
        }
        match self {
            RValue::Immediate(c) => {
                let mut s = String::new();
                push_int(&mut s, *c);
                s
            },
            RValue::Register(r) => r.to_string(),
            RValue::SymbolOffset(symb) => {
                let mut s = symb.0.clone();
                s.append("@PAGEOFF");
                s
            },
        }
    }
}

pub open spec fn rvalue_text(v: RValue) -> Seq<char> {
    match v {
        RValue::Immediate(c) => dec(c as int),
        RValue::Register(r) => reg_text(r),
        RValue::SymbolOffset(s) => s.0@ + "@PAGEOFF"@,
    }
}

/// A link-time symbol name.
pub struct Symbol(pub String);

/// An assembly label name.
pub struct Label(pub String);

/// Assembly name of an IR label inside function `fname`.
pub open spec fn asm_label_text(l: nodes::LabelV, fname: Seq<char>) -> Seq<char> {
    match l {
        nodes::LabelV::Temp(ct) => "L_"@ + fname + "_"@ + digits(ct as nat),
        nodes::LabelV::Source(s) => s,
    }
}

impl Label {
    /// The assembly label of an IR label of function `fname`.
    pub fn from_ir(l: &nodes::Label, fname: &str) -> (r: Label)
        ensures
            r.0@ == asm_label_text(l.deep_view(), fname@),
    {
        proof {
            reveal_strlit("L_");
            reveal_strlit("_");
        }
        match l {
            nodes::Label::CompilerTemp(ct) => {
                let mut s = "L_".to_owned();
                s.append(fname);
                s.append("_");
                push_usize(&mut s, *ct);
                Label(s)
            },
            nodes::Label::Source(s) => Label(s.clone()),
        }
    }
}

pub enum CondBranch {
    Equal,
    NotEqual,
}

pub enum Branch {
    Unconditional(Label),
    BranchLink(Label),
    BranchLinkRegister(Register),
    Return,
    Cond((CondBranch, Label)),
}

impl Branch {
    pub fn cond_eq(label: Label) -> (r: Branch)
        ensures
            r == Branch::Cond((CondBranch::Equal, label)),
    {
        Branch::Cond((CondBranch::Equal, label))
    }

    pub fn cond_not_eq(label: Label) -> (r: Branch)
        ensures
            r == Branch::Cond((CondBranch::NotEqual, label)),
    {
        Branch::Cond((CondBranch::NotEqual, label))
    }

    pub fn uncond(label: Label) -> (r: Branch)
        ensures
            r == Branch::Unconditional(label),
    {
        Branch::Unconditional(label)
    }

    pub fn branch_link(label: Label) -> (r: Branch)
        ensures
            r == Branch::BranchLink(label),
    {
        Branch::BranchLink(label)
    }

    pub fn branch_link_register(reg: Register) -> (r: Branch)
        ensures
            r == Branch::BranchLinkRegister(reg),
    {
        Branch::BranchLinkRegister(reg)
    }

    pub fn to_string(&self) -> (r: String)
        ensures
            r@ == branch_text(*self),
    {
        proof {
            reveal_strlit("beq ");
            reveal_strlit("bne ");
            reveal_strlit("bl ");
            reveal_strlit("blr ");
            reveal_strlit("ret");
            reveal_strlit("b ");
        }
        match self {
            Branch::Cond((CondBranch::Equal, label)) => {
                let mut s = "beq ".to_owned();
                s.append(label.0.as_str());
                s
            },
            Branch::Cond((CondBranch::NotEqual, label)) => {
                let mut s = "bne ".to_owned();
                s.append(label.0.as_str());
                s
            },
            Branch::BranchLink(label) => {
                let mut s = "bl ".to_owned();
                s.append(label.0.as_str());
                s
            },
            Branch::BranchLinkRegister(reg) => {
                let mut s = "blr ".to_owned();
                s.append(reg.to_string().as_str());
                s
            },
            Branch::Return => "ret".to_owned(),
            Branch::Unconditional(label) => {
                let mut s = "b ".to_owned();
                s.append(label.0.as_str());
                s
            },
        }
    }
}

pub open spec fn branch_text(b: Branch) -> Seq<char> {
    match b {
        Branch::Cond((CondBranch::Equal, label)) => "beq "@ + label.0@,
        Branch::Cond((CondBranch::NotEqual, label)) => "bne "@ + label.0@,
        Branch::BranchLink(label) => "bl "@ + label.0@,
        Branch::BranchLinkRegister(reg) => "blr "@ + reg_text(reg),
        Branch::Return => "ret"@,
        Branch::Unconditional(label) => "b "@ + label.0@,
    }
}

#[derive(Debug, Clone, Copy, PartialEq, Eq, Structural)]
pub enum ArithOp {
    Add,
    Sub,
    Mul,
    Div,
}

pub open spec fn arith_of(op: nodes::Op) -> Option<ArithOp> {
    match op {
        nodes::Op::Div => Some(ArithOp::Div),
        nodes::Op::Plus => Some(ArithOp::Add),
        nodes::Op::Mul => Some(ArithOp::Mul),
        nodes::Op::Minus => Some(ArithOp::Sub),
        _ => None,
    }
}

impl ArithOp {
    /// The arithmetic instruction of an IR operator; `None` for a comparison.
    pub fn try_from_nodes_op(op: nodes::Op) -> (r: Option<ArithOp>)
        ensures
            r == arith_of(op),
    {
        match op {
            nodes::Op::Div => Some(ArithOp::Div),
            nodes::Op::Plus => Some(ArithOp::Add),
            nodes::Op::Mul => Some(ArithOp::Mul),
            nodes::Op::Minus => Some(ArithOp::Sub),
            _ => None,
        }
    }

    pub fn to_instr_string(&self) -> (r: &'static str)
        ensures
            r@ == arith_text(*self),
    {
        match self {
            ArithOp::Add => "add",
            ArithOp::Div => "sdiv",
            ArithOp::Mul => "mul",
            ArithOp::Sub => "sub",
        }
    }
}

pub open spec fn arith_text(op: ArithOp) -> Seq<char> {
    match op {
        ArithOp::Add => "add"@,
        ArithOp::Div => "sdiv"@,
        ArithOp::Mul => "mul"@,
        ArithOp::Sub => "sub"@,
    }
}

/// `dest = left op right`.
pub struct Arith {
    pub op: ArithOp,
    pub dest: Register,
    pub left: Register,
    pub right: RValue,
}

#[derive(Debug, Clone, Copy, PartialEq, Eq, Structural)]
pub enum ConditionalCode {
    Eq,
    Ne,
    SignedLessThan,
    SignedGreaterThan,
}

pub open spec fn cond_of(op: nodes::Op) -> Option<ConditionalCode> {
    match op {
        nodes::Op::Eq => Some(ConditionalCode::Eq),
        nodes::Op::Lt => Some(ConditionalCode::SignedLessThan),
        nodes::Op::Gt => Some(ConditionalCode::SignedGreaterThan),
        _ => None,
    }
}

impl ConditionalCode {
    /// The condition a comparison operator tests; `None` for arithmetic.
    pub fn try_from_nodes_op(op: nodes::Op) -> (r: Option<ConditionalCode>)
        ensures
            r == cond_of(op),
    {
        match op {
            nodes::Op::Eq => Some(ConditionalCode::Eq),
            nodes::Op::Lt => Some(ConditionalCode::SignedLessThan),
            nodes::Op::Gt => Some(ConditionalCode::SignedGreaterThan),
            _ => None,
        }
    }

    pub fn to_string(&self) -> (r: &'static str)
        ensures
            r@ == cond_text(*self),
    {
        match self {
            ConditionalCode::Eq => "eq",
            ConditionalCode::Ne => "ne",
            ConditionalCode::SignedGreaterThan => "gt",
            ConditionalCode::SignedLessThan => "lt",
        }
    }
}

pub open spec fn cond_text(c: ConditionalCode) -> Seq<char> {
    match c {
        ConditionalCode::Eq => "eq"@,
        ConditionalCode::Ne => "ne"@,
        ConditionalCode::SignedGreaterThan => "gt"@,
        ConditionalCode::SignedLessThan => "lt"@,
    }
}

pub enum Section {
    Text,
    TextCstring,
}

pub enum Directive {
    Section(Section),
    Extern(String),
    Global(String),
    AsciiCString(String),
}

impl Directive {
    pub fn to_string(&self) -> (r: String)
        ensures
            r@ == directive_text(*self),
    {
        proof {
            reveal_strlit(".extern _");
            reveal_strlit(".globl _");
            reveal_strlit(".asciz \"");
            reveal_strlit("\"");
            reveal_strlit(".section __TEXT,__text");
            reveal_strlit(".section __TEXT,__cstring");
        }
        match self {
            Directive::Extern(name) => {
                let mut s = ".extern _".to_owned();
                s.append(name.as_str());
                s
            },
            Directive::Global(name) => {
                let mut s = ".globl _".to_owned();
                s.append(name.as_str());
                s
            },
            Directive::AsciiCString(text) => {
                let mut s = ".asciz \"".to_owned();
                s.append(text.as_str());
                s.append("\"");
                s
            },
            Directive::Section(Section::Text) => ".section __TEXT,__text".to_owned(),
            Directive::Section(Section::TextCstring) => ".section __TEXT,__cstring".to_owned(),
        }
    }
}

pub open spec fn directive_text(d: Directive) -> Seq<char> {
    match d {
        Directive::Extern(name) => ".extern _"@ + name@,
        Directive::Global(name) => ".globl _"@ + name@,
        Directive::AsciiCString(text) => ".asciz \""@ + text@ + "\""@,
        Directive::Section(Section::Text) => ".section __TEXT,__text"@,
        Directive::Section(Section::TextCstring) => ".section __TEXT,__cstring"@,
    }
}

/// An AArch64 instruction or assembler directive.
pub enum Instruction {
    Directive(Directive),
    Label(String),
    Comment(String),
    StorePair { r1: Register, r2: Register, addressing: AddressingMode },
    LoadPair { r1: Register, r2: Register, addressing: AddressingMode },
    Mov { dest: Register, operand: RValue },
    Cmp { left: Register, right: RValue },
    CondSet { dest: Register, cond: ConditionalCode },
    Load { width: Width, dest: Register, operand: AddressingMode },
    Store { width: Width, source: Register, operand: AddressingMode },
    Branch(Branch),
    Arith(Arith),
    AdressPage { dest: Register, symbol: Symbol },
}

pub open spec fn load_name(w: Width) -> Seq<char> {
    match w {
        Width::Byte => "ldrb"@,
        Width::Short => "ldrh"@,
        _ => "ldr"@,
    }
}

pub open spec fn store_name(w: Width) -> Seq<char> {
    match w {
        Width::Byte => "strb"@,
        Width::Short => "strh"@,
        _ => "str"@,
    }
}

/// The line of assembly an instruction prints as.
pub open spec fn instr_text(i: Instruction) -> Seq<char> {
    match i {
        Instruction::Mov { dest, operand } => "mov "@ + reg_text(dest) + ", "@ + rvalue_text(operand),
        Instruction::Load { width, dest, operand } => load_name(width) + " "@ + reg_text(dest) + ", "@ + mode_text(operand),
        Instruction::Store { width, source, operand } => store_name(width) + " "@ + reg_text(source) + ", "@ + mode_text(operand),
        Instruction::Cmp { left, right } => "cmp "@ + reg_text(left) + ", "@ + rvalue_text(right),
        Instruction::Arith(ar) => arith_text(ar.op) + " "@ + reg_text(ar.dest) + ", "@ + reg_text(ar.left) + ", "@ + rvalue_text(ar.right),
        Instruction::CondSet { dest, cond } => "cset "@ + reg_text(dest) + ", "@ + cond_text(cond),
        Instruction::Label(lab) => lab@ + ":"@,
        Instruction::Comment(c) => "// "@ + c@,
        Instruction::Branch(b) => branch_text(b),
        Instruction::StorePair { r1, r2, addressing } => "stp "@ + reg_text(r1) + ", "@ + reg_text(r2) + ", "@ + mode_text(addressing),
        Instruction::LoadPair { r1, r2, addressing } => "ldp "@ + reg_text(r1) + ", "@ + reg_text(r2) + ", "@ + mode_text(addressing),
        Instruction::AdressPage { dest, symbol } => "adrp "@ + reg_text(dest) + ", "@ + symbol.0@ + "@PAGE"@,
        Instruction::Directive(d) => directive_text(d),
    }
}

impl Instruction {
    pub fn to_string(&self) -> (r: String)
        ensures
            r@ == instr_text(*self),
    {
        proof {
            reveal_strlit("mov ");
            reveal_strlit(", ");
            reveal_strlit(" ");
            reveal_strlit("cmp ");
            reveal_strlit("cset ");
            reveal_strlit(":");
            reveal_strlit("// ");
            reveal_strlit("stp ");
            reveal_strlit("ldp ");
            reveal_strlit("adrp ");
            reveal_strlit("@PAGE");
            reveal_strlit("ldrb");
            reveal_strlit("ldrh");
            reveal_strlit("ldr");
            reveal_strlit("strb");
            reveal_strlit("strh");
            reveal_strlit("str");
        }
        match self {
            Instruction::Mov { dest, operand } => {
                let mut s = "mov ".to_owned();
                s.append(dest.to_string().as_str());
                s.append(", ");
                s.append(operand.to_string().as_str());
                s
            },
            Instruction::Load { width, dest, operand } => {
                let mut s = match width {
                    Width::Byte => "ldrb".to_owned(),
                    Width::Short => "ldrh".to_owned(),
                    _ => "ldr".to_owned(),
                };
                s.append(" ");
                s.append(dest.to_string().as_str());
                s.append(", ");
                s.append(operand.to_string().as_str());
                s
            },
            Instruction::Store { width, source, operand } => {
                let mut s = match width {
                    Width::Byte => "strb".to_owned(),
                    Width::Short => "strh".to_owned(),
                    _ => "str".to_owned(),
                };
                s.append(" ");
                s.append(source.to_string().as_str());
                s.append(", ");
                s.append(operand.to_string().as_str());
                s
            },
            Instruction::Cmp { left, right } => {
                let mut s = "cmp ".to_owned();
                s.append(left.to_string().as_str());
                s.append(", ");
                s.append(right.to_string().as_str());
                s
            },
            Instruction::Arith(ar) => {
                let mut s = ar.op.to_instr_string().to_owned();
                s.append(" ");
                s.append(ar.dest.to_string().as_str());
                s.append(", ");
                s.append(ar.left.to_string().as_str());
                s.append(", ");
                s.append(ar.right.to_string().as_str());
                s
            },
            Instruction::CondSet { dest, cond } => {
                let mut s = "cset ".to_owned();
                s.append(dest.to_string().as_str());
                s.append(", ");
                s.append(cond.to_string());
                s
            },
            Instruction::Label(lab) => {
                let mut s = lab.clone();
                s.append(":");
                s
            },
            Instruction::Comment(c) => {
                let mut s = "// ".to_owned();
                s.append(c.as_str());
                s
            },
            Instruction::Branch(b) => b.to_string(),
            Instruction::StorePair { r1, r2, addressing } => {
                let mut s = "stp ".to_owned();
                s.append(r1.to_string().as_str());
                s.append(", ");
                s.append(r2.to_string().as_str());
                s.append(", ");
                s.append(addressing.to_string().as_str());
                s
            },
            Instruction::LoadPair { r1, r2, addressing } => {
                let mut s = "ldp ".to_owned();
                s.append(r1.to_string().as_str());
                s.append(", ");
                s.append(r2.to_string().as_str());
                s.append(", ");
                s.append(addressing.to_string().as_str());
                s
            },
            Instruction::AdressPage { dest, symbol } => {
                let mut s = "adrp ".to_owned();
                s.append(dest.to_string().as_str());
                s.append(", ");
                s.append(symbol.0.as_str());
                s.append("@PAGE");
                s
            },
            Instruction::Directive(d) => d.to_string(),
        }
    }
}

} // verus!
