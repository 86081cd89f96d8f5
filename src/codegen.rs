use vstd::prelude::*;
use vstd::string::*;
use crate::common::{StorageClass, Width};
use crate::instructions::{
    asm_label_text, instr_text, Arith, ArithOp, AddressingMode, Branch, ConditionalCode, CorruptibleRegister,
    Directive, Instruction, Label, RValue, Register, RegisterKind, Section, Symbol,
};
use crate::lookup_table::SymbolLookup;
use crate::nodes::{body_v, AddrV, Address, AddressConstant, FunctionDef, FunctionParameter, Ssa, SsaV, ToplevelDeclaration, ToplevelItem};
use crate::numtext::{digits, push_usize};
use crate::regalloc::{analyze_lifetimes, Allocation, Lifetime, LinearScanRegisterAlloc, Location};

verus! {

/// Why a function could not be lowered to assembly.
#[derive(Debug, Clone, Copy, PartialEq, Eq, Structural)]
pub enum AsmError {
    /// A φ statement survived φ-elimination.
    PhiNotEliminated,
    /// An operand has no location at the statement that uses it.
    MissingLocation,
    /// A string literal is missing from the symbol table.
    UnknownStringLiteral,
    /// A call passes a non-variadic argument beyond the eighth, or a function has
    /// more than eight parameters.
    TooManyArguments,
    /// A call's callee is a constant.
    CallThroughConstant,
    /// The frame or an argument area exceeds what the emitter addresses.
    FrameTooLarge,
}

pub open spec fn sp() -> Register {
    Register { kind: RegisterKind::StackPointer, width: Width::Long }
}

pub open spec fn scratch(n: nat, w: Width) -> Register {
    Register {
        kind: RegisterKind::Corruptuble(
            if n == 0 { CorruptibleRegister::X9 } else if n == 1 { CorruptibleRegister::X10 } else { CorruptibleRegister::X11 }),
        width: w,
    }
}

/// Smallest multiple of 16 at or above `n`.
pub open spec fn round16(n: int) -> int {
    if n % 16 == 0 { n } else { n + 16 - n % 16 }
}

fn next_multiple_of_16(n: u64) -> (r: u64)
    requires
        n <= 0x1000_0000_0000,
    ensures
        r == round16(n as int),
        r % 16 == 0,
        n <= r < n + 16,
{
    if n % 16 == 0 { n } else { n + 16 - n % 16 }
}

fn first_scratch(w: Width) -> (r: Register)
    ensures
        r == scratch(0, w),
{
    Register { kind: RegisterKind::Corruptuble(CorruptibleRegister::X9), width: w }
}

fn second_scratch(w: Width) -> (r: Register)
    ensures
        r == scratch(1, w),
{
    Register { kind: RegisterKind::Corruptuble(CorruptibleRegister::X10), width: w }
}

fn third_scratch(w: Width) -> (r: Register)
    ensures
        r == scratch(2, w),
{
    Register { kind: RegisterKind::Corruptuble(CorruptibleRegister::X11), width: w }
}

/// The registers the allocator may hand out.
pub fn allocatable_registers() -> (r: Vec<Register>)
    ensures
        r@.len() == 4,
        forall|i: int| 0 <= i < 4 ==> (#[trigger] r@[i]).kind is Corruptuble && r@[i].width == Width::Long
            && r@[i].kind != scratch(0, Width::Long).kind && r@[i].kind != scratch(1, Width::Long).kind
            && r@[i].kind != scratch(2, Width::Long).kind,
{
    let r = vec![
        Register { kind: RegisterKind::Corruptuble(CorruptibleRegister::X12), width: Width::Long },
        Register { kind: RegisterKind::Corruptuble(CorruptibleRegister::X13), width: Width::Long },
        Register { kind: RegisterKind::Corruptuble(CorruptibleRegister::X14), width: Width::Long },
        Register { kind: RegisterKind::Corruptuble(CorruptibleRegister::X15), width: Width::Long },
    ];
    r
}

/// The register holding a value at `loc`, loading it from its spill slot into
/// `spill_load_register` first when it is spilled.
fn load_if_needed(instructions: &mut Vec<Instruction>, loc: Location, spill_load_register: Register, dynamic_offset: i64) -> (r: Register)
    requires
        loc matches Location::Spill(off) ==> 0 <= off <= 0x1_0000_0000,
        0 <= dynamic_offset <= 0x1_0000_0000,
    ensures
        match loc {
            Location::Reg(reg) => r == reg.align(spill_load_register.width) && final(instructions)@ == old(instructions)@,
            Location::Spill(off) => r == spill_load_register && final(instructions)@ == old(instructions)@.push(Instruction::Load {
                width: spill_load_register.width,
                dest: spill_load_register,
                operand: AddressingMode::Offset((sp(), (off + dynamic_offset) as i64)),
            }),
        },
{
    match loc {
        Location::Reg(reg) => reg.align(spill_load_register.width),
        Location::Spill(stack_off) => {
            instructions.push(Instruction::Load {
                width: spill_load_register.width,
                dest: spill_load_register,
                operand: AddressingMode::stack_offset(stack_off + dynamic_offset),
            });
            spill_load_register
        },
    }
}

/// The register to compute a value at `loc` in: its own register, or the scratch.
fn empty_register(loc: Location, spill_load_register: Register) -> (r: Register)
    ensures
        match loc {
            Location::Reg(reg) => r == reg.align(spill_load_register.width),
            Location::Spill(_) => r == spill_load_register,
        },
{
    match loc {
        Location::Reg(reg) => reg.align(spill_load_register.width),
        Location::Spill(_) => spill_load_register,
    }
}

/// Moves a computed value from `reg` to its location `loc`.
fn store_if_needed(instructions: &mut Vec<Instruction>, loc: Location, reg: Register)
    ensures
        match loc {
            Location::Reg(x) => if x.align(reg.width) != reg {
                final(instructions)@ == old(instructions)@.push(Instruction::Mov { dest: x.align(reg.width), operand: RValue::Register(reg) })
            } else {
                final(instructions)@ == old(instructions)@
            },
            Location::Spill(off) => final(instructions)@ == old(instructions)@.push(Instruction::Store {
                width: reg.width,
                source: reg,
                operand: AddressingMode::Offset((sp(), off)),
            }),
        },
{
    match loc {
        Location::Reg(x) => {
            if x.align(reg.width) != reg {
                instructions.push(Instruction::Mov { dest: x.align(reg.width), operand: reg.rvalue() });
            }
        },
        Location::Spill(stack_off) => {
            instructions.push(Instruction::Store {
                width: reg.width,
                source: reg,
                operand: AddressingMode::stack_offset(stack_off),
            });
        },
    }
}

/// `sub sp, sp, #bytes`.
fn alloc_stack(instructions: &mut Vec<Instruction>, bytes: u64)
    requires
        bytes % 16 == 0,
        bytes <= 0x1_0000_0000_0000,
    ensures
        final(instructions)@ == old(instructions)@.push(Instruction::Arith(Arith {
            op: ArithOp::Sub,
            dest: sp(),
            left: sp(),
            right: RValue::Immediate(bytes as i64),
        })),
{
    instructions.push(Instruction::Arith(Arith {
        op: ArithOp::Sub,
        dest: Register::stack_pointer(),
        left: Register::stack_pointer(),
        right: RValue::Immediate(bytes as i64),
    }));
}

/// `add sp, sp, #bytes`.
fn pop_stack(instructions: &mut Vec<Instruction>, bytes: u64)
    requires
        bytes % 16 == 0,
        bytes <= 0x1_0000_0000_0000,
    ensures
        final(instructions)@ == old(instructions)@.push(Instruction::Arith(Arith {
            op: ArithOp::Add,
            dest: sp(),
            left: sp(),
            right: RValue::Immediate(bytes as i64),
        })),
{
    instructions.push(Instruction::Arith(Arith {
        op: ArithOp::Add,
        dest: Register::stack_pointer(),
        left: Register::stack_pointer(),
        right: RValue::Immediate(bytes as i64),
    }));
}

/// Saves `regs` in a 16-byte aligned area pushed on the stack; returns its size.
fn alloc_stack_spills(instructions: &mut Vec<Instruction>, regs: &Vec<Register>) -> (r: u64)
    requires
        regs@.len() <= 1024,
    ensures
        r == round16(8 * regs@.len() as int),
        r <= 8 * 1024 + 16,
        final(instructions)@.len() == old(instructions)@.len() + 1 + regs@.len(),
        final(instructions)@.subrange(0, old(instructions)@.len() as int) == old(instructions)@,
        final(instructions)@[old(instructions)@.len() as int] == Instruction::Arith(Arith {
            op: ArithOp::Sub, dest: sp(), left: sp(), right: RValue::Immediate(r as i64) }),
        forall|i: int| 0 <= i < regs@.len() ==> #[trigger] final(instructions)@[old(instructions)@.len() + 1 + i]
            == (Instruction::Store {
                width: Width::Long,
                source: regs@[i].align(Width::Long),
                operand: AddressingMode::Offset((sp(), (8 * i) as i64)),
            }),
{
    let stack_space = next_multiple_of_16((regs.len() * 8) as u64);
    alloc_stack(instructions, stack_space);
    let ghost base = instructions@;
    let mut idx: usize = 0;
    while idx < regs.len()
        invariant
            regs@.len() <= 1024,
            idx <= regs@.len(),
            instructions@.len() == base.len() + idx,
            instructions@.subrange(0, base.len() as int) == base,
            forall|i: int| 0 <= i < idx ==> #[trigger] instructions@[base.len() + i]
                == (Instruction::Store {
                    width: Width::Long,
                    source: regs@[i].align(Width::Long),
                    operand: AddressingMode::Offset((sp(), (8 * i) as i64)),
                }),
        decreases regs@.len() - idx,
    {
        let ghost prev = instructions@;
        instructions.push(Instruction::Store {
            width: Width::Long,
            source: regs[idx].align(Width::Long),
            operand: AddressingMode::stack_offset(8 * idx as i64),
        });
        proof {
            assert(instructions@.subrange(0, base.len() as int) =~= prev.subrange(0, base.len() as int));
            assert forall|i: int| 0 <= i < idx + 1 implies #[trigger] instructions@[base.len() + i]
                == (Instruction::Store {
                    width: Width::Long,
                    source: regs@[i].align(Width::Long),
                    operand: AddressingMode::Offset((sp(), (8 * i) as i64)),
                }) by {
                if i < idx {
                    assert(instructions@[base.len() + i] == prev[base.len() + i]);
                }
            }
        }
        idx += 1;
    }
    proof {
        assert(base.subrange(0, old(instructions)@.len() as int) =~= old(instructions)@);
        assert(instructions@.subrange(0, old(instructions)@.len() as int) =~= instructions@.subrange(0, base.len() as int).subrange(0, old(instructions)@.len() as int));
        assert(instructions@[old(instructions)@.len() as int] == instructions@.subrange(0, base.len() as int)[old(instructions)@.len() as int]);
        assert(base[old(instructions)@.len() as int] == Instruction::Arith(Arith {
            op: ArithOp::Sub, dest: sp(), left: sp(), right: RValue::Immediate(stack_space as i64) }));
    }
    stack_space
}

/// Reloads `regs` from the save area and pops it.
fn pop_stack_spills(instructions: &mut Vec<Instruction>, regs: &Vec<Register>)
    requires
        regs@.len() <= 1024,
    ensures
        final(instructions)@.len() == old(instructions)@.len() + 1 + regs@.len(),
        final(instructions)@.subrange(0, old(instructions)@.len() as int) == old(instructions)@,
        forall|i: int| 0 <= i < regs@.len() ==> #[trigger] final(instructions)@[old(instructions)@.len() + i]
            == (Instruction::Load {
                width: Width::Long,
                dest: regs@[i].align(Width::Long),
                operand: AddressingMode::Offset((sp(), (8 * i) as i64)),
            }),
        final(instructions)@.last() == Instruction::Arith(Arith {
            op: ArithOp::Add, dest: sp(), left: sp(), right: RValue::Immediate(round16(8 * regs@.len() as int) as i64) }),
{
    let stack_space = next_multiple_of_16((regs.len() * 8) as u64);
    let ghost base = instructions@;
    let mut idx: usize = 0;
    while idx < regs.len()
        invariant
            regs@.len() <= 1024,
            idx <= regs@.len(),
            instructions@.len() == base.len() + idx,
            instructions@.subrange(0, base.len() as int) == base,
            forall|i: int| 0 <= i < idx ==> #[trigger] instructions@[base.len() + i]
                == (Instruction::Load {
                    width: Width::Long,
                    dest: regs@[i].align(Width::Long),
                    operand: AddressingMode::Offset((sp(), (8 * i) as i64)),
                }),
        decreases regs@.len() - idx,
    {
        let ghost prev = instructions@;
        instructions.push(Instruction::Load {
            width: Width::Long,
            dest: regs[idx].align(Width::Long),
            operand: AddressingMode::stack_offset(8 * idx as i64),
        });
        proof {
            assert(instructions@.subrange(0, base.len() as int) =~= prev.subrange(0, base.len() as int));
            assert forall|i: int| 0 <= i < idx + 1 implies #[trigger] instructions@[base.len() + i]
                == (Instruction::Load {
                    width: Width::Long,
                    dest: regs@[i].align(Width::Long),
                    operand: AddressingMode::Offset((sp(), (8 * i) as i64)),
                }) by {
                if i < idx {
                    assert(instructions@[base.len() + i] == prev[base.len() + i]);
                }
            }
        }
        idx += 1;
    }
    let ghost mid = instructions@;
    pop_stack(instructions, stack_space);
    proof {
        assert(instructions@.subrange(0, base.len() as int) =~= mid.subrange(0, base.len() as int));
        assert forall|i: int| 0 <= i < regs@.len() implies #[trigger] instructions@[base.len() + i]
            == (Instruction::Load {
                width: Width::Long,
                dest: regs@[i].align(Width::Long),
                operand: AddressingMode::Offset((sp(), (8 * i) as i64)),
            }) by {
            assert(instructions@[base.len() + i] == mid[base.len() + i]);
        }
    }
}

/// `return_<name>`, the label of a function's epilogue.
pub open spec fn return_label_text(name: Seq<char>) -> Seq<char> {
    "return_"@ + name
}

fn return_label(func_name: &str) -> (r: String)
    ensures
        r@ == return_label_text(func_name@),
{
    let mut s = "return_".to_owned();
    s.append(func_name);
    s
}

/// `sl<k>`, the label of string literal `k`.
pub open spec fn literal_label_text(k: nat) -> Seq<char> {
    "sl"@ + digits(k)
}

fn literal_label(k: usize) -> (r: String)
    ensures
        r@ == literal_label_text(k as nat),
{
    let mut s = "sl".to_owned();
    push_usize(&mut s, k);
    s
}

fn location(allocator: &LinearScanRegisterAlloc, addr: &Address, idx: usize) -> (r: Result<Location, AsmError>)
    requires
        allocator.wf(),
        allocator.spill_top() <= 0x1_0000_0000,
    ensures
        r matches Ok(loc) ==> loc matches Location::Spill(off) ==> 0 <= off <= 0x1_0000_0000,
        r is Err ==> r == Err::<Location, AsmError>(AsmError::MissingLocation),
        r matches Ok(loc) ==> loc_at(allocator.allocs(), addr.deep_view(), idx) == Some(loc),
        r is Err <==> loc_at(allocator.allocs(), addr.deep_view(), idx) is None,
{
    match allocator.location_of(addr, idx) {
        Some(loc) => {
            proof {
                lemma_lookup_in(allocator.allocs(), addr.deep_view());
            }
            Ok(loc)
        },
        None => Err(AsmError::MissingLocation),
    }
}

/// The location of `a` at statement `idx`, when it is live there.
pub open spec fn loc_at(allocs: Seq<(Address, Allocation)>, a: AddrV, idx: usize) -> Option<Location> {
    match crate::regalloc::alloc_lookup(allocs, a) {
        Some(al) => if al.lifetime.start <= idx <= al.lifetime.end { Some(al.loc) } else { None },
        None => None,
    }
}

/// The register a value at `loc` is computed in: its own, or the scratch.
pub open spec fn reg_for(loc: Location, scratch_reg: Register) -> Register {
    match loc {
        Location::Reg(x) => x.align(scratch_reg.width),
        Location::Spill(_) => scratch_reg,
    }
}

/// The load of a spilled value into the scratch register; nothing for a register.
pub open spec fn load_code(loc: Location, scratch_reg: Register, dynamic_offset: int) -> Seq<Instruction> {
    match loc {
        Location::Reg(_) => Seq::empty(),
        Location::Spill(off) => seq![Instruction::Load {
            width: scratch_reg.width,
            dest: scratch_reg,
            operand: AddressingMode::Offset((sp(), (off + dynamic_offset) as i64)),
        }],
    }
}

/// The move of a computed value from `reg` to its location `loc`.
pub open spec fn store_code(loc: Location, reg: Register) -> Seq<Instruction> {
    match loc {
        Location::Reg(x) => if x.align(reg.width) != reg {
            seq![Instruction::Mov { dest: x.align(reg.width), operand: RValue::Register(reg) }]
        } else {
            Seq::empty()
        },
        Location::Spill(off) => seq![Instruction::Store {
            width: reg.width,
            source: reg,
            operand: AddressingMode::Offset((sp(), off)),
        }],
    }
}

/// `sym` is the label `sl<k>` of some id `k` the table gives literal `t`.
pub open spec fn is_literal_symbol(sym: Symbol, t: Seq<char>, lookup: SymbolLookup) -> bool {
    exists|id: usize| crate::lookup_table::lit_entry(lookup.entries(), id, t) && sym.0@ == #[trigger] literal_label_text(id as nat)
}

/// The lowering of an assignment: a `mov` of a constant; `adrp` and `add` of a
/// string literal's label; or a register move from the source, loaded first when
/// spilled; then the store of the result when the destination is spilled.
pub open spec fn assignment_shape(
    b: Ssa,
    r: Result<Vec<Instruction>, AsmError>,
    allocs: Seq<(Address, Allocation)>,
    idx: usize,
    lookup: SymbolLookup,
) -> bool {
    match b {
        Ssa::Assignment { dest, source, width } => match loc_at(allocs, dest.deep_view(), idx) {
            None => r == Err::<Vec<Instruction>, AsmError>(AsmError::MissingLocation),
            Some(d) => {
                let dr = reg_for(d, scratch(0, width));
                match source.deep_view() {
                    AddrV::Num(n) => match r {
                        Ok(code) => code@ == seq![Instruction::Mov { dest: dr, operand: RValue::Immediate(n) }] + store_code(d, dr),
                        Err(_) => false,
                    },
                    AddrV::Str(t) => match r {
                        Ok(code) => {
                            &&& code@.len() == 2 + store_code(d, dr).len()
                            &&& code@[0] is AdressPage && code@[0]->AdressPage_dest == dr
                            &&& is_literal_symbol(code@[0]->AdressPage_symbol, t, lookup)
                            &&& code@[1] is Arith && code@[1]->Arith_0.op == ArithOp::Add
                            &&& code@[1]->Arith_0.dest == dr && code@[1]->Arith_0.left == dr
                            &&& code@[1]->Arith_0.right is SymbolOffset
                            &&& code@.subrange(2, code@.len() as int) == store_code(d, dr)
                        },
                        Err(e) => e == AsmError::UnknownStringLiteral && !crate::lookup_table::has_literal(lookup.entries(), t),
                    },
                    _ => match loc_at(allocs, source.deep_view(), idx) {
                        None => r == Err::<Vec<Instruction>, AsmError>(AsmError::MissingLocation),
                        Some(sl) => match r {
                            Ok(code) => code@ == load_code(sl, scratch(1, width), 0) + seq![Instruction::Mov {
                                dest: dr,
                                operand: RValue::Register(reg_for(sl, scratch(1, width))),
                            }] + store_code(d, dr),
                            Err(_) => false,
                        },
                    },
                }
            },
        },
        _ => true,
    }
}

/// `regs` are the registers of allocations live at `idx`, each once.
pub open spec fn live_regs(allocs: Seq<(Address, Allocation)>, idx: usize, regs: Seq<Register>) -> bool {
    &&& forall|reg: Register| #[trigger] regs.contains(reg) <==> exists|i: int| 0 <= i < allocs.len()
        && (#[trigger] allocs[i]).1.loc == Location::Reg(reg) && allocs[i].1.lifetime.start <= idx <= allocs[i].1.lifetime.end
    &&& forall|a: int, b: int| 0 <= a < b < regs.len() ==> (#[trigger] regs[a]).kind != (#[trigger] regs[b]).kind
}

/// `sub sp, sp, #S` and a store of each of `regs` at `[sp, #8*j]`, from index `k` on,
/// with `S` the 16-byte aligned size of the area.
pub open spec fn saves_at(code: Seq<Instruction>, k: int, regs: Seq<Register>) -> bool {
    &&& 0 <= k && k + 1 + regs.len() <= code.len()
    &&& code[k] == Instruction::Arith(Arith { op: ArithOp::Sub, dest: sp(), left: sp(), right: RValue::Immediate(round16(8 * regs.len() as int) as i64) })
    &&& forall|j: int| 0 <= j < regs.len() ==> #[trigger] code[k + 1 + j] == (Instruction::Store {
        width: Width::Long,
        source: regs[j].align(Width::Long),
        operand: AddressingMode::Offset((sp(), (8 * j) as i64)),
    })
}

/// A load of each of `regs` from `[sp, #8*j]` and `add sp, sp, #S`, from index `k` on.
pub open spec fn restores_at(code: Seq<Instruction>, k: int, regs: Seq<Register>) -> bool {
    &&& 0 <= k && k + 1 + regs.len() <= code.len()
    &&& forall|j: int| 0 <= j < regs.len() ==> #[trigger] code[k + j] == (Instruction::Load {
        width: Width::Long,
        dest: regs[j].align(Width::Long),
        operand: AddressingMode::Offset((sp(), (8 * j) as i64)),
    })
    &&& code[k + regs.len()] == Instruction::Arith(Arith { op: ArithOp::Add, dest: sp(), left: sp(), right: RValue::Immediate(round16(8 * regs.len() as int) as i64) })
}

/// The call instruction for callee `func`: `bl _<name>`, or `blr` through a register.
pub open spec fn is_call_to(i: Instruction, func: AddrV) -> bool {
    match func {
        AddrV::Source(n, _) => match i {
            Instruction::Branch(Branch::BranchLink(l)) => l.0@ == "_"@ + n,
            _ => false,
        },
        _ => i is Branch && i->Branch_0 is BranchLinkRegister,
    }
}

/// The lowering of a call: the registers live across it are saved first, the call
/// instruction follows, and the registers are restored after it.
pub open spec fn call_shape(code: Seq<Instruction>, func: AddrV, allocs: Seq<(Address, Allocation)>, idx: usize) -> bool {
    exists|regs: Seq<Register>, kc: int, kr: int| #![trigger live_regs(allocs, idx, regs), is_call_to(code[kc], func), restores_at(code, kr, regs)]
        live_regs(allocs, idx, regs) && saves_at(code, 0, regs) && 1 + regs.len() <= kc < kr
        && is_call_to(code[kc], func) && restores_at(code, kr, regs)
}

/// A call statement lowers as `call_shape` says.
pub open spec fn call_stmt_shape(b: Ssa, r: Result<Vec<Instruction>, AsmError>, allocs: Seq<(Address, Allocation)>, idx: usize) -> bool {
    match b {
        Ssa::Call { func, .. } => match r {
            Ok(code) => call_shape(code@, func.deep_view(), allocs, idx),
            Err(_) => true,
        },
        _ => true,
    }
}

proof fn lemma_keeps(pre: Seq<Instruction>, a: Seq<Instruction>, b: Seq<Instruction>)
    requires
        a.len() >= pre.len(),
        a.subrange(0, pre.len() as int) == pre,
        b.len() >= a.len(),
        b.subrange(0, a.len() as int) == a,
    ensures
        b.len() >= pre.len(),
        b.subrange(0, pre.len() as int) == pre,
{
    assert(b.subrange(0, pre.len() as int) =~= a.subrange(0, pre.len() as int));
}

/// Branches and returns of a variable read it from its register, loaded first
/// when spilled: `cmp <reg>, #1; beq; bne`, or `mov x0, <reg>; b return_<f>`.
pub open spec fn operand_shape(b: Ssa, f: Seq<char>, r: Result<Vec<Instruction>, AsmError>, allocs: Seq<(Address, Allocation)>, idx: usize) -> bool {
    match b {
        Ssa::Branch { width, cond, true_target, false_target } => !(cond.deep_view() is Num) ==> match loc_at(allocs, cond.deep_view(), idx) {
            Some(l) => match r {
                Ok(code) => code@.len() == load_code(l, scratch(0, width), 0).len() + 3
                    && code@.subrange(0, code@.len() - 3) == load_code(l, scratch(0, width), 0)
                    && is_cmp_one(code@[code@.len() - 3], reg_for(l, scratch(0, width)))
                    && is_cond_to(code@[code@.len() - 2], true, asm_label_text(true_target.deep_view(), f))
                    && is_cond_to(code@[code@.len() - 1], false, asm_label_text(false_target.deep_view(), f)),
                Err(_) => false,
            },
            None => r == Err::<Vec<Instruction>, AsmError>(AsmError::MissingLocation),
        },
        Ssa::Return { value: Some((a, w)) } => !(a.deep_view() is Num) ==> match loc_at(allocs, a.deep_view(), idx) {
            Some(l) => match r {
                Ok(code) => code@.len() == load_code(l, scratch(0, w), 0).len() + 2
                    && code@.subrange(0, code@.len() - 2) == load_code(l, scratch(0, w), 0)
                    && code@[code@.len() - 2] == (Instruction::Mov {
                        dest: crate::instructions::arg_reg(0, w),
                        operand: RValue::Register(reg_for(l, scratch(0, w))),
                    })
                    && is_branch_to(code@[code@.len() - 1], return_label_text(f)),
                Err(_) => false,
            },
            None => r == Err::<Vec<Instruction>, AsmError>(AsmError::MissingLocation),
        },
        _ => true,
    }
}

/// The end of a quadruple's lowering: `cmp` and `cset` for a comparison, the
/// arithmetic instruction otherwise, into the destination's register (or the third
/// scratch when spilled), then the store of the result.
pub open spec fn quad_tail(t: Seq<Instruction>, op: crate::nodes::Op, width: Width, d: Location) -> bool {
    let dr = reg_for(d, scratch(2, width));
    match crate::instructions::cond_of(op) {
        Some(c) => {
            &&& t.len() == 2 + store_code(d, dr).len()
            &&& t[0] is Cmp
            &&& t[1] == (Instruction::CondSet { dest: dr, cond: c })
            &&& t.subrange(2, t.len() as int) == store_code(d, dr)
        },
        None => {
            &&& t.len() == 1 + store_code(d, dr).len()
            &&& t[0] is Arith && crate::instructions::arith_of(op) == Some(t[0]->Arith_0.op) && t[0]->Arith_0.dest == dr
            &&& t.subrange(1, t.len() as int) == store_code(d, dr)
        },
    }
}

/// After at most two instructions, `code` ends as `quad_tail` says.
pub open spec fn quad_code(code: Seq<Instruction>, op: crate::nodes::Op, width: Width, d: Location) -> bool {
    exists|p: int| 0 <= p <= 2 && p <= code.len() && quad_tail(#[trigger] code.subrange(p, code.len() as int), op, width, d)
}

/// The lowering of a quadruple: at most two instructions loading its operands,
/// then `quad_tail`; it fails only for a missing right operand or location.
pub open spec fn quad_shape(b: Ssa, r: Result<Vec<Instruction>, AsmError>, allocs: Seq<(Address, Allocation)>, idx: usize) -> bool {
    match b {
        Ssa::Quadriplet(q) => match r {
            Ok(code) => q.right is Some && match loc_at(allocs, q.dest.deep_view(), idx) {
                Some(d) => quad_code(code@, q.op, q.width, d),
                None => false,
            },
            Err(e) => e == AsmError::MissingLocation,
        },
        _ => true,
    }
}

proof fn lemma_lookup_in(s: Seq<(Address, Allocation)>, a: AddrV)
    ensures
        crate::regalloc::alloc_lookup(s, a) matches Some(al) ==> exists|i: int| 0 <= i < s.len() && #[trigger] s[i].1 == al,
    decreases s.len(),
{
    if s.len() > 0 && s[0].0.deep_view() != a {
        lemma_lookup_in(s.drop_first(), a);
        if crate::regalloc::alloc_lookup(s.drop_first(), a) is Some {
            let al = crate::regalloc::alloc_lookup(s.drop_first(), a)->0;
            let i = choose|i: int| 0 <= i < s.drop_first().len() && #[trigger] s.drop_first()[i].1 == al;
            assert(s[i + 1].1 == al);
        }
    } else if s.len() > 0 {
        assert(s[0].1 == s[0].1);
    }
}

/// A numeric constant operand.
fn numeric(a: &Address) -> (r: Option<i64>)
    ensures
        r == (match a.deep_view() {
            AddrV::Num(n) => Some(n),
            _ => None,
        }),
{
    match a {
        Address::Constant(AddressConstant::Numeric(n)) => Some(*n),
        _ => None,
    }
}

/// The right operand of a quadruple: an immediate for a small constant that
/// `add`, `sub` and `cmp` accept, otherwise a register.
fn right_operand(
    code: &mut Vec<Instruction>,
    allocator: &LinearScanRegisterAlloc,
    right: &Address,
    idx: usize,
    width: Width,
    immediate_ok: bool,
) -> (r: Result<RValue, AsmError>)
    requires
        allocator.wf(),
        allocator.spill_top() <= 0x1_0000_0000,
    ensures
        r matches Err(e) ==> e == AsmError::MissingLocation,
        r is Ok ==> final(code)@.len() <= old(code)@.len() + 1 && final(code)@.subrange(0, old(code)@.len() as int) == old(code)@,
{
    match numeric(right) {
        Some(n) => {
            if immediate_ok && 0 <= n && n < 4096 {
                Ok(RValue::Immediate(n))
            } else {
                let s2 = second_scratch(width);
                code.push(Instruction::Mov { dest: s2, operand: RValue::Immediate(n) });
                proof {
                    assert(final(code)@.subrange(0, old(code)@.len() as int) =~= old(code)@);
                }
                Ok(RValue::Register(s2))
            }
        },
        None => {
            let loc = location(allocator, right, idx)?;
            let reg = load_if_needed(code, loc, second_scratch(width), 0);
            proof {
                assert(final(code)@.subrange(0, old(code)@.len() as int) =~= old(code)@);
            }
            Ok(RValue::Register(reg))
        },
    }
}

/// A value loaded into a register: a constant by `mov`, a variable from its location.
fn operand_register(
    code: &mut Vec<Instruction>,
    allocator: &LinearScanRegisterAlloc,
    a: &Address,
    idx: usize,
    spill_load_register: Register,
    dynamic_offset: i64,
) -> (r: Result<Register, AsmError>)
    requires
        allocator.wf(),
        allocator.spill_top() <= 0x1_0000_0000,
        0 <= dynamic_offset <= 0x1_0000_0000,
    ensures
        r matches Err(e) ==> e == AsmError::MissingLocation,
        a.deep_view() is Num ==> r == Ok::<Register, AsmError>(spill_load_register) && final(code)@ == old(code)@.push(Instruction::Mov {
            dest: spill_load_register,
            operand: RValue::Immediate(a.deep_view()->Num_0),
        }),
        r is Ok ==> final(code)@.len() <= old(code)@.len() + 1 && final(code)@.subrange(0, old(code)@.len() as int) == old(code)@,
        (!(a.deep_view() is Num) && r is Ok && final(code)@.len() > old(code)@.len()) ==> r == Ok::<Register, AsmError>(spill_load_register)
            && final(code)@.last() is Load && final(code)@.last()->Load_dest == spill_load_register,
        !(a.deep_view() is Num) ==> match loc_at(allocator.allocs(), a.deep_view(), idx) {
            Some(l) => r == Ok::<Register, AsmError>(reg_for(l, spill_load_register))
                && final(code)@ == old(code)@ + load_code(l, spill_load_register, dynamic_offset as int),
            None => r == Err::<Register, AsmError>(AsmError::MissingLocation),
        },
{
    match numeric(a) {
        Some(n) => {
            code.push(Instruction::Mov { dest: spill_load_register, operand: RValue::Immediate(n) });
            Ok(spill_load_register)
        },
        None => {
            let loc = location(allocator, a, idx)?;
            let reg = load_if_needed(code, loc, spill_load_register, dynamic_offset);
            proof {
                assert(final(code)@.subrange(0, old(code)@.len() as int) =~= old(code)@);
                assert(final(code)@ =~= old(code)@ + load_code(loc, spill_load_register, dynamic_offset as int));
            }
            Ok(reg)
        },
    }
}

/// The code of one call: caller-saved registers live across it are saved around
/// it, variadic arguments go to 8-byte stack slots, the others to `x0`..`x7`.
#[verifier::rlimit(80)]
fn lower_call(
    parameters: &Vec<FunctionParameter>,
    dest: &Option<(Address, Width)>,
    func: &Address,
    idx: usize,
    allocator: &LinearScanRegisterAlloc,
) -> (r: Result<Vec<Instruction>, AsmError>)
    requires
        allocator.wf(),
        allocator.spill_top() <= 0x1_0000_0000,
    ensures
        func.deep_view().is_const() ==> r == Err::<Vec<Instruction>, AsmError>(AsmError::CallThroughConstant),
        r matches Err(e) ==> e != AsmError::PhiNotEliminated,
        r matches Err(e) ==> (e == AsmError::TooManyArguments ==> has_excess_argument(parameters@)),
        r matches Err(e) ==> (e == AsmError::CallThroughConstant ==> func.deep_view().is_const()),
        r matches Err(e) ==> e != AsmError::UnknownStringLiteral,
        r matches Ok(code) ==> call_shape(code@, func.deep_view(), allocator.allocs(), idx),
{
    if func.is_constant() {
        return Err(AsmError::CallThroughConstant);
    }
    if parameters.len() > 0x10000 {
        return Err(AsmError::FrameTooLarge);
    }
    let mut code: Vec<Instruction> = Vec::new();
    let used_registers = allocator.used_registers_at(idx);
    if used_registers.len() > 1024 {
        return Err(AsmError::FrameTooLarge);
    }
    let saved = alloc_stack_spills(&mut code, &used_registers);
    let ghost pre = code@;
    proof {
        assert(pre.subrange(0, pre.len() as int) =~= pre);
        assert(saves_at(code@, 0, used_registers@));
        assert(live_regs(allocator.allocs(), idx, used_registers@));
    }
    let dynamic_offset = saved as i64;

    let mut variadic_count: usize = 0;
    let mut i: usize = 0;
    while i < parameters.len()
        invariant
            i <= parameters@.len(),
            variadic_count <= i,
        decreases parameters@.len() - i,
    {
        if parameters[i].is_variadic {
            variadic_count += 1;
        }
        i += 1;
    }
    let variadic_area = next_multiple_of_16((8 * variadic_count) as u64);
    if variadic_count > 0 {
        let ghost c0 = code@;
        proof {
            assert(c0.subrange(0, pre.len() as int) =~= pre);
        }
        alloc_stack(&mut code, variadic_area);
        proof {
            assert(code@.subrange(0, c0.len() as int) =~= c0);
            lemma_keeps(pre, c0, code@);
        }
        let mut slot: usize = 0;
        let mut i: usize = 0;
        while i < parameters.len()
            invariant
                allocator.wf(),
                allocator.spill_top() <= 0x1_0000_0000,
                !func.deep_view().is_const(),
                i <= parameters@.len() <= 0x10000,
                slot <= i,
                0 <= dynamic_offset <= 8 * 1024 + 16,
                variadic_area <= 8 * 0x10000 + 16,
                code@.len() >= pre.len(),
                code@.subrange(0, pre.len() as int) == pre,
            decreases parameters@.len() - i,
        {
            let p = &parameters[i];
            if p.is_variadic {
                let s1 = first_scratch(p.width);
                let ghost c1 = code@;
                let reg = operand_register(&mut code, allocator, &p.value, idx, s1, dynamic_offset + variadic_area as i64)?;
                proof {
                    lemma_keeps(pre, c1, code@);
                }
                let ghost c2 = code@;
                code.push(Instruction::Store {
                    width: Width::Long,
                    source: reg.align(Width::Long),
                    operand: AddressingMode::stack_offset(8 * slot as i64),
                });
                proof {
                    assert(code@.subrange(0, c2.len() as int) =~= c2);
                    lemma_keeps(pre, c2, code@);
                }
                slot += 1;
            }
            i += 1;
        }
    }
    let stack_shift = dynamic_offset + variadic_area as i64;
    let mut i: usize = 0;
    while i < parameters.len()
        invariant
            allocator.wf(),
            allocator.spill_top() <= 0x1_0000_0000,
            !func.deep_view().is_const(),
            i <= parameters@.len(),
            0 <= stack_shift <= 0x1_0000_0000,
            code@.len() >= pre.len(),
            code@.subrange(0, pre.len() as int) == pre,
        decreases parameters@.len() - i,
    {
        let p = &parameters[i];
        if !p.is_variadic {
            if p.number >= 8 {
                proof {
                    assert(!parameters@[i as int].is_variadic && parameters@[i as int].number >= 8);
                }
                return Err(AsmError::TooManyArguments);
            }
            let arg_reg = Register::argument(p.number, p.width);
            match numeric(&p.value) {
                Some(n) => {
                    let ghost c1 = code@;
                    code.push(Instruction::Mov { dest: arg_reg, operand: RValue::Immediate(n) });
                    proof {
                        assert(code@.subrange(0, c1.len() as int) =~= c1);
                        lemma_keeps(pre, c1, code@);
                    }
                },
                None => {
                    let loc = location(allocator, &p.value, idx)?;
                    let ghost c1 = code@;
                    let reg = load_if_needed(&mut code, loc, first_scratch(p.width), stack_shift);
                    proof {
                        assert(code@.subrange(0, c1.len() as int) =~= c1);
                        lemma_keeps(pre, c1, code@);
                    }
                    if reg != arg_reg {
                        let ghost c2 = code@;
                        code.push(Instruction::Mov { dest: arg_reg, operand: RValue::Register(reg) });
                        proof {
                            assert(code@.subrange(0, c2.len() as int) =~= c2);
                            lemma_keeps(pre, c2, code@);
                        }
                    }
                },
            }
        }
        i += 1;
    }
    let ghost kc: int = 0;
    match func {
        Address::Source(name, _) => {
            let mut target = "_".to_owned();
            target.append(name.as_str());
            let ghost c1 = code@;
            code.push(Instruction::Branch(Branch::branch_link(Label(target))));
            proof {
                assert(code@.subrange(0, c1.len() as int) =~= c1);
                lemma_keeps(pre, c1, code@);
                kc = c1.len() as int;
                assert(is_call_to(code@[kc], func.deep_view()));
            }
        },
        _ => {
            let loc = location(allocator, func, idx)?;
            let ghost c0 = code@;
            let reg = load_if_needed(&mut code, loc, first_scratch(Width::Long), stack_shift);
            proof {
                assert(code@.subrange(0, c0.len() as int) =~= c0);
                lemma_keeps(pre, c0, code@);
            }
            let ghost c1 = code@;
            code.push(Instruction::Branch(Branch::branch_link_register(reg)));
            proof {
                assert(code@.subrange(0, c1.len() as int) =~= c1);
                lemma_keeps(pre, c1, code@);
                kc = c1.len() as int;
                assert(is_call_to(code@[kc], func.deep_view()));
            }
        },
    }
    let ghost after_call = code@;
    proof {
        assert(after_call.subrange(0, after_call.len() as int) =~= after_call);
    }
    if let Some((_, width)) = dest {
        let ghost c1 = code@;
        code.push(Instruction::Mov { dest: first_scratch(*width), operand: RValue::Register(Register::x0(*width)) });
        proof {
            assert(code@.subrange(0, c1.len() as int) =~= c1);
            lemma_keeps(after_call, c1, code@);
        }
    }
    if variadic_count > 0 {
        let ghost c1 = code@;
        pop_stack(&mut code, variadic_area);
        proof {
            assert(code@.subrange(0, c1.len() as int) =~= c1);
            lemma_keeps(after_call, c1, code@);
        }
    }
    let ghost kr = code@.len() as int;
    let ghost c_before_restore = code@;
    pop_stack_spills(&mut code, &used_registers);
    proof {
        lemma_keeps(after_call, c_before_restore, code@);
        assert(restores_at(code@, kr, used_registers@));
    }
    let ghost after_restore = code@;
    proof {
        assert(after_restore.subrange(0, after_restore.len() as int) =~= after_restore);
    }
    if let Some((val, width)) = dest {
        let loc = location(allocator, val, idx)?;
        let ghost c1 = code@;
        store_if_needed(&mut code, loc, first_scratch(*width));
        proof {
            assert(code@.subrange(0, c1.len() as int) =~= c1);
            lemma_keeps(after_restore, c1, code@);
        }
    }
    proof {
        lemma_keeps(pre, after_call, after_restore);
        lemma_keeps(pre, after_restore, code@);
        lemma_keeps(after_call, after_restore, code@);
        assert(code@[kc] == after_call[kc]) by {
            assert(code@.subrange(0, after_call.len() as int)[kc] == code@[kc]);
        }
        assert forall|j: int| 0 <= j < used_registers@.len() implies #[trigger] code@[0 + 1 + j] == pre[0 + 1 + j] by {
            assert(code@.subrange(0, pre.len() as int)[1 + j] == code@[1 + j]);
        }
        assert(code@[0] == pre[0]) by {
            assert(code@.subrange(0, pre.len() as int)[0] == code@[0]);
        }
        assert(saves_at(code@, 0, used_registers@));
        assert forall|j: int| 0 <= j < used_registers@.len() implies #[trigger] code@[kr + j] == after_restore[kr + j] by {
            assert(code@.subrange(0, after_restore.len() as int)[kr + j] == code@[kr + j]);
        }
        assert(code@[kr + used_registers@.len()] == after_restore[kr + used_registers@.len()]) by {
            assert(code@.subrange(0, after_restore.len() as int)[kr + used_registers@.len()] == code@[kr + used_registers@.len()]);
        }
        assert(restores_at(code@, kr, used_registers@));
        assert(call_shape(code@, func.deep_view(), allocator.allocs(), idx));
    }
    Ok(code)
}

/// Some non-variadic argument is numbered 8 or more.
pub open spec fn has_excess_argument(ps: Seq<FunctionParameter>) -> bool {
    exists|i: int| 0 <= i < ps.len() && !(#[trigger] ps[i]).is_variadic && ps[i].number >= 8
}

/// Statement `b` accounts for error `e`: a φ, a call with an argument beyond `x7`
/// or through a constant, or a string literal missing from `lookup`. Missing
/// locations and oversized frames are not pinned to one statement.
pub open spec fn explains(b: Ssa, e: AsmError, lookup: SymbolLookup) -> bool {
    match e {
        AsmError::PhiNotEliminated => b is Phi,
        AsmError::TooManyArguments => b is Call && has_excess_argument(b->Call_parameters@),
        AsmError::CallThroughConstant => b is Call && b->Call_func.deep_view().is_const(),
        AsmError::UnknownStringLiteral => match b {
            Ssa::Assignment { source: Address::Constant(AddressConstant::StringLiteral(t)), .. } =>
                !crate::lookup_table::has_literal(lookup.entries(), t@),
            _ => false,
        },
        _ => true,
    }
}

/// A statement that reads and writes no value: a label, a jump, or a return of
/// nothing or of a numeric constant.
pub open spec fn needs_no_location(b: Ssa) -> bool {
    match b {
        Ssa::Label(_) => true,
        Ssa::Jump(_) => true,
        Ssa::Return { value: None } => true,
        Ssa::Return { value: Some((a, _)) } => a.deep_view() is Num,
        _ => false,
    }
}

/// The unconditional branch to label text `t`.
pub open spec fn is_branch_to(i: Instruction, t: Seq<char>) -> bool {
    match i {
        Instruction::Branch(Branch::Unconditional(l)) => l.0@ == t,
        _ => false,
    }
}

/// `cmp <r>, #1`.
pub open spec fn is_cmp_one(i: Instruction, reg: Register) -> bool {
    i == Instruction::Cmp { left: reg, right: RValue::Immediate(1) }
}

/// A conditional branch (on equal when `eq`) to label text `t`.
pub open spec fn is_cond_to(i: Instruction, eq: bool, t: Seq<char>) -> bool {
    match i {
        Instruction::Branch(Branch::Cond((c, l))) => (c is Equal <==> eq) && l.0@ == t,
        _ => false,
    }
}

/// What the lowering of a statement consists of: labels, jumps and returns
/// exactly; a branch ends in `cmp <cond>, #1`, `beq <true>`, `bne <false>` after at
/// most one instruction that loads the condition (a `mov` of a constant into the
/// first scratch register); a return of a variable ends in `mov x0, <reg>` and a
/// branch to the epilogue after at most one load.
pub open spec fn lowering_shape(b: Ssa, f: Seq<char>, r: Result<Vec<Instruction>, AsmError>) -> bool {
    match b {
        Ssa::Label(l) => match r {
            Ok(code) => code@.len() == 1 && code@[0] is Label && code@[0]->Label_0@ == asm_label_text(l.deep_view(), f),
            Err(_) => false,
        },
        Ssa::Jump(l) => match r {
            Ok(code) => code@.len() == 1 && is_branch_to(code@[0], asm_label_text(l.deep_view(), f)),
            Err(_) => false,
        },
        Ssa::Return { value: None } => match r {
            Ok(code) => code@.len() == 1 && is_branch_to(code@[0], return_label_text(f)),
            Err(_) => false,
        },
        Ssa::Return { value: Some((a, w)) } => match a.deep_view() {
            AddrV::Num(n) => match r {
                Ok(code) => code@.len() == 2 && code@[0] == (Instruction::Mov {
                    dest: crate::instructions::arg_reg(0, w),
                    operand: RValue::Immediate(n),
                }) && is_branch_to(code@[1], return_label_text(f)),
                Err(_) => false,
            },
            _ => match r {
                Ok(code) => (code@.len() == 2 || code@.len() == 3)
                    && code@[code@.len() - 2] is Mov && code@[code@.len() - 2]->Mov_dest == crate::instructions::arg_reg(0, w)
                    && code@[code@.len() - 2]->Mov_operand is Register
                    && is_branch_to(code@[code@.len() - 1], return_label_text(f)),
                Err(e) => e == AsmError::MissingLocation,
            },
        },
        Ssa::Branch { width, cond, true_target, false_target } => match r {
            Ok(code) => (code@.len() == 3 || code@.len() == 4)
                && code@[code@.len() - 3] is Cmp && code@[code@.len() - 3]->Cmp_right == RValue::Immediate(1)
                && is_cond_to(code@[code@.len() - 2], true, asm_label_text(true_target.deep_view(), f))
                && is_cond_to(code@[code@.len() - 1], false, asm_label_text(false_target.deep_view(), f))
                && (cond.deep_view() matches AddrV::Num(n) ==> code@.len() == 4 && code@[0] == (Instruction::Mov {
                    dest: scratch(0, width),
                    operand: RValue::Immediate(n),
                }) && is_cmp_one(code@[1], scratch(0, width))),
            Err(e) => e == AsmError::MissingLocation && !(cond.deep_view() is Num),
        },
        _ => true,
    }
}

/// The code of a quadruple at statement `idx`.
fn lower_quadruple(quad: &crate::nodes::Quadriplet, idx: usize, allocator: &LinearScanRegisterAlloc) -> (r: Result<Vec<Instruction>, AsmError>)
    requires
        allocator.wf(),
        allocator.spill_top() <= 0x1_0000_0000,
    ensures
        quad_shape(Ssa::Quadriplet(*quad), r, allocator.allocs(), idx),
        r matches Err(e) ==> e == AsmError::MissingLocation,
{
    let mut code: Vec<Instruction> = Vec::new();
    let width = quad.width;
    let right = match &quad.right {
        Some(r) => r,
        None => {
            return Err(AsmError::MissingLocation);
        },
    };
    let cond = ConditionalCode::try_from_nodes_op(quad.op);
    let arith = ArithOp::try_from_nodes_op(quad.op);
    let immediate_ok = cond.is_some() || arith == Some(ArithOp::Add) || arith == Some(ArithOp::Sub);
    let rvalue = right_operand(&mut code, allocator, right, idx, width, immediate_ok)?;
    let left_reg = operand_register(&mut code, allocator, &quad.left, idx, first_scratch(width), 0)?;
    let dest_loc = location(allocator, &quad.dest, idx)?;
    let dest_reg = empty_register(dest_loc, third_scratch(width));
    let ghost p = code@.len() as int;
    let ghost c0 = code@;
    match cond {
        Some(c) => {
            code.push(Instruction::Cmp { left: left_reg, right: rvalue });
            code.push(Instruction::CondSet { dest: dest_reg, cond: c });
        },
        None => {
            let op = match arith {
                Some(op) => op,
                None => ArithOp::Add,
            };
            code.push(Instruction::Arith(Arith { op, dest: dest_reg, left: left_reg, right: rvalue }));
        },
    }
    let ghost c1 = code@;
    store_if_needed(&mut code, dest_loc, dest_reg);
    proof {
        assert(code@ =~= c1 + store_code(dest_loc, dest_reg));
        assert(0 <= p <= 2);
        let t = code@.subrange(p, code@.len() as int);
        if cond is Some {
            assert(t =~= seq![c1[p], c1[p + 1]] + store_code(dest_loc, dest_reg));
            assert(t.subrange(2, t.len() as int) =~= store_code(dest_loc, dest_reg));
        } else {
            assert(t =~= seq![c1[p]] + store_code(dest_loc, dest_reg));
            assert(t.subrange(1, t.len() as int) =~= store_code(dest_loc, dest_reg));
        }
        assert(quad_tail(t, quad.op, quad.width, dest_loc));
        assert(quad_code(code@, quad.op, quad.width, dest_loc));
    }
    Ok(code)
}

/// The code of a return statement.
fn lower_return(b: &Ssa, idx: usize, func_name: &str, allocator: &LinearScanRegisterAlloc) -> (r: Result<Vec<Instruction>, AsmError>)
    requires
        allocator.wf(),
        allocator.spill_top() <= 0x1_0000_0000,
        b is Return,
    ensures
        lowering_shape(*b, func_name@, r),
        operand_shape(*b, func_name@, r, allocator.allocs(), idx),
        r matches Err(e) ==> e == AsmError::MissingLocation,
{
    let mut code: Vec<Instruction> = Vec::new();
    match b {
        Ssa::Return { value } => {
        if let Some((val, width)) = value {
            match numeric(val) {
                Some(n) => {
                    code.push(Instruction::Mov { dest: Register::x0(*width), operand: RValue::Immediate(n) });
                },
                None => {
                    let reg = operand_register(&mut code, allocator, val, idx, first_scratch(*width), 0)?;
                    let ghost c_load = code@;
                    code.push(Instruction::Mov { dest: Register::x0(*width), operand: RValue::Register(reg) });
                    proof {
                        assert(code@.subrange(0, code@.len() - 1) =~= c_load);
                    }
                },
            }
        }
        let ghost c1 = code@;
        code.push(Instruction::Branch(Branch::uncond(Label(return_label(func_name)))));
        proof {
            assert(code@.subrange(0, code@.len() - 1) =~= c1);
            if c1.len() >= 1 {
                assert(code@.subrange(0, code@.len() - 2) =~= c1.subrange(0, c1.len() - 1));
            }
        }
        },
        _ => {},
    }
    Ok(code)
}

/// The code of a branch.
fn lower_branch(b: &Ssa, idx: usize, func_name: &str, allocator: &LinearScanRegisterAlloc) -> (r: Result<Vec<Instruction>, AsmError>)
    requires
        allocator.wf(),
        allocator.spill_top() <= 0x1_0000_0000,
        b is Branch,
    ensures
        lowering_shape(*b, func_name@, r),
        operand_shape(*b, func_name@, r, allocator.allocs(), idx),
        r matches Err(e) ==> e == AsmError::MissingLocation,
{
    let mut code: Vec<Instruction> = Vec::new();
    match b {
        Ssa::Branch { width, cond, true_target, false_target } => {
        let reg = operand_register(&mut code, allocator, cond, idx, first_scratch(*width), 0)?;
        let ghost c0 = code@;
        code.push(Instruction::Cmp { left: reg, right: RValue::Immediate(1) });
        code.push(Instruction::Branch(Branch::cond_eq(Label::from_ir(true_target, func_name))));
        code.push(Instruction::Branch(Branch::cond_not_eq(Label::from_ir(false_target, func_name))));
        proof {
            assert(code@.subrange(0, code@.len() - 3) =~= c0);
        }
        },
        _ => {},
    }
    Ok(code)
}

/// The code of one statement at index `idx` of the body of `func_name`.
pub fn lower_statement(
    b: &Ssa,
    idx: usize,
    func_name: &str,
    allocator: &LinearScanRegisterAlloc,
    lookup: &SymbolLookup,
) -> (r: Result<Vec<Instruction>, AsmError>)
    requires
        allocator.wf(),
        allocator.spill_top() <= 0x1_0000_0000,
        lookup.wf(),
    ensures
        b is Phi <==> r == Err::<Vec<Instruction>, AsmError>(AsmError::PhiNotEliminated),
        lowering_shape(*b, func_name@, r),
        r matches Err(e) ==> explains(*b, e, *lookup),
        assignment_shape(*b, r, allocator.allocs(), idx, *lookup),
        quad_shape(*b, r, allocator.allocs(), idx),
        operand_shape(*b, func_name@, r, allocator.allocs(), idx),
        call_stmt_shape(*b, r, allocator.allocs(), idx),
{
    let mut code: Vec<Instruction> = Vec::new();
    match b {
        Ssa::Phi(_) => {
            return Err(AsmError::PhiNotEliminated);
        },
        Ssa::Label(l) => {
            let lab = Label::from_ir(l, func_name);
            code.push(Instruction::Label(lab.0));
        },
        Ssa::Jump(target) => {
            code.push(Instruction::Branch(Branch::uncond(Label::from_ir(target, func_name))));
        },
        Ssa::Return { .. } => {
            return lower_return(b, idx, func_name, allocator);
        },
        Ssa::Assignment { dest, source, width } => {
            let dest_loc = location(allocator, dest, idx)?;
            match source {
                Address::Constant(AddressConstant::Numeric(n)) => {
                    let dest_reg = empty_register(dest_loc, first_scratch(*width));
                    code.push(Instruction::Mov { dest: dest_reg, operand: RValue::Immediate(*n) });
                    let ghost c1 = code@;
                    store_if_needed(&mut code, dest_loc, dest_reg);
                    proof {
                        assert(code@ =~= c1 + store_code(dest_loc, dest_reg));
                    }
                },
                Address::Constant(AddressConstant::StringLiteral(text)) => {
                    let id = match lookup.literal_id(text) {
                        Some(id) => id,
                        None => {
                            return Err(AsmError::UnknownStringLiteral);
                        },
                    };
                    let dest_reg = empty_register(dest_loc, first_scratch(*width));
                    let page_label = literal_label(id);
                    proof {
                        assert(crate::lookup_table::lit_entry(lookup.entries(), id, text@));
                        assert(page_label@ == literal_label_text(id as nat));
                        assert(is_literal_symbol(Symbol(page_label), text@, *lookup));
                    }
                    code.push(Instruction::AdressPage { dest: dest_reg, symbol: Symbol(page_label) });
                    code.push(Instruction::Arith(Arith {
                        op: ArithOp::Add,
                        dest: dest_reg,
                        left: dest_reg,
                        right: RValue::SymbolOffset(Symbol(literal_label(id))),
                    }));
                    let ghost c1 = code@;
                    store_if_needed(&mut code, dest_loc, dest_reg);
                    proof {
                        assert(code@ =~= c1 + store_code(dest_loc, dest_reg));
                        assert(code@.subrange(2, code@.len() as int) =~= store_code(dest_loc, dest_reg));
                    }
                },
                _ => {
                    let source_loc = location(allocator, source, idx)?;
                    let dest_reg = empty_register(dest_loc, first_scratch(*width));
                    let source_reg = load_if_needed(&mut code, source_loc, second_scratch(*width), 0);
                    proof {
                        assert(code@ =~= load_code(source_loc, scratch(1, *width), 0));
                    }
                    code.push(Instruction::Mov { dest: dest_reg, operand: RValue::Register(source_reg) });
                    let ghost c1 = code@;
                    store_if_needed(&mut code, dest_loc, dest_reg);
                    proof {
                        assert(code@ =~= c1 + store_code(dest_loc, dest_reg));
                        assert(source_reg == reg_for(source_loc, scratch(1, *width)));
                        assert(dest_reg == reg_for(dest_loc, scratch(0, *width)));
                        assert(c1 =~= load_code(source_loc, scratch(1, *width), 0) + seq![Instruction::Mov {
                            dest: dest_reg,
                            operand: RValue::Register(source_reg),
                        }]);
                        assert(loc_at(allocator.allocs(), source.deep_view(), idx) == Some(source_loc));
                        assert(!(source.deep_view() is Num) && !(source.deep_view() is Str));
                    }
                },
            }
        },
        Ssa::Quadriplet(quad) => {
            return lower_quadruple(quad, idx, allocator);
        },
        Ssa::Branch { .. } => {
            return lower_branch(b, idx, func_name, allocator);
        },
        Ssa::Call { parameters, dest, func, .. } => {
            return lower_call(parameters, dest, func, idx, allocator);
        },
    }
    Ok(code)
}

/// Parameters are pre-colored to `x0`, `x1`, ... in order, live over the whole body.
pub fn generate_precolor(parameters: &Vec<(String, Width)>, body_len: usize) -> (r: Result<Vec<(Address, Allocation)>, AsmError>)
    ensures
        parameters@.len() > 8 <==> r is Err,
        r matches Err(e) ==> e == AsmError::TooManyArguments,
        r matches Ok(v) ==> v@.len() == parameters@.len() && crate::regalloc::conflict_free(v@)
            && forall|i: int| 0 <= i < v@.len() ==> (#[trigger] v@[i]).0.deep_view() == AddrV::Source(parameters@[i].0@, 0)
                && v@[i].1 == (Allocation {
                    loc: Location::Reg(crate::instructions::arg_reg(i as nat, parameters@[i].1)),
                    lifetime: Lifetime { start: 0, end: body_len },
                }),
{
    if parameters.len() > 8 {
        return Err(AsmError::TooManyArguments);
    }
    let mut out: Vec<(Address, Allocation)> = Vec::new();
    let mut i: usize = 0;
    while i < parameters.len()
        invariant
            parameters@.len() <= 8,
            i <= parameters@.len(),
            out@.len() == i,
            forall|t: int| 0 <= t < i ==> (#[trigger] out@[t]).0.deep_view() == AddrV::Source(parameters@[t].0@, 0)
                && out@[t].1 == (Allocation {
                    loc: Location::Reg(crate::instructions::arg_reg(t as nat, parameters@[t].1)),
                    lifetime: Lifetime { start: 0, end: body_len },
                }),
        decreases parameters@.len() - i,
    {
        let reg = Register::argument(i, parameters[i].1);
        out.push((Address::Source(parameters[i].0.clone(), 0), Allocation {
            loc: Location::Reg(reg),
            lifetime: Lifetime { start: 0, end: body_len },
        }));
        i += 1;
    }
    proof {
        assert forall|a: int, b: int| 0 <= a < out@.len() && 0 <= b < out@.len() && a != b
            implies !crate::regalloc::conflict(#[trigger] out@[a].1, #[trigger] out@[b].1) by {
            assert(crate::instructions::arg_reg(a as nat, parameters@[a].1).kind != crate::instructions::arg_reg(b as nat, parameters@[b].1).kind);
        }
    }
    Ok(out)
}

/// `stp fp, lr, [sp, #-16]!`, `mov fp, sp`, `sub sp, sp, #frame`.
pub open spec fn prologue_ok(code: Seq<Instruction>, frame: int) -> bool {
    &&& code.len() >= 3
    &&& code[0] == (Instruction::StorePair {
        r1: Register { kind: RegisterKind::FramePointer, width: Width::Long },
        r2: Register { kind: RegisterKind::LinkRegister, width: Width::Long },
        addressing: AddressingMode::PreIndexed((sp(), -16i64)),
    })
    &&& code[1] == (Instruction::Mov {
        dest: Register { kind: RegisterKind::FramePointer, width: Width::Long },
        operand: RValue::Register(sp()),
    })
    &&& code[2] == Instruction::Arith(Arith { op: ArithOp::Sub, dest: sp(), left: sp(), right: RValue::Immediate(frame as i64) })
}

/// `return_<name>:`, `add sp, sp, #frame`, `ldp fp, lr, [sp], #16`, `ret`.
pub open spec fn epilogue_ok(code: Seq<Instruction>, frame: int, name: Seq<char>) -> bool {
    let n = code.len();
    &&& n >= 4
    &&& code[n - 4] is Label && code[n - 4]->Label_0@ == return_label_text(name)
    &&& code[n - 3] == Instruction::Arith(Arith { op: ArithOp::Add, dest: sp(), left: sp(), right: RValue::Immediate(frame as i64) })
    &&& code[n - 2] == (Instruction::LoadPair {
        r1: Register { kind: RegisterKind::FramePointer, width: Width::Long },
        r2: Register { kind: RegisterKind::LinkRegister, width: Width::Long },
        addressing: AddressingMode::PostIndexed((sp(), 16i64)),
    })
    &&& code[n - 1] == Instruction::Branch(Branch::Return)
}

/// Function code between a prologue and an epilogue for a frame that is a multiple
/// of 16 bytes.
pub open spec fn framed(code: Seq<Instruction>, name: Seq<char>) -> bool {
    exists|frame: int| frame % 16 == 0 && 0 <= frame && #[trigger] prologue_ok(code, frame) && epilogue_ok(code, frame, name)
}

/// Lowers a function body: registers are allocated by linear scan, the frame holds
/// the spill slots rounded up to 16 bytes, and each statement is lowered in turn
/// between the prologue and the epilogue.
pub fn convert_function_body_ir_to_asm(
    ir: &[Ssa],
    func_name: &str,
    parameters: &Vec<(String, Width)>,
    global_lookup: &SymbolLookup,
) -> (r: Result<Vec<Instruction>, AsmError>)
    requires
        global_lookup.wf(),
    ensures
        r matches Ok(code) ==> framed(code@, func_name@),
        (exists|j: int| 0 <= j < ir@.len() && #[trigger] ir@[j] is Phi) ==> r is Err,
        parameters@.len() > 8 ==> r is Err,
        r matches Err(e) ==> (e == AsmError::TooManyArguments && parameters@.len() > 8)
            || exists|j: int| 0 <= j < ir@.len() && explains(#[trigger] ir@[j], e, *global_lookup),
        (parameters@.len() <= 8 && forall|j: int| 0 <= j < ir@.len() ==> needs_no_location(#[trigger] ir@[j])) ==> r is Ok,
{
    let mut names: Vec<String> = Vec::new();
    let mut i: usize = 0;
    while i < parameters.len()
        invariant
            i <= parameters@.len(),
        decreases parameters@.len() - i,
    {
        names.push(parameters[i].0.clone());
        i += 1;
    }
    let lifetimes = analyze_lifetimes(ir, &names);
    let precolor = generate_precolor(parameters, ir.len())?;
    proof {
        if lifetimes@.len() > 0 {
            let lt = lifetimes@[0];
            assert(crate::regalloc::is_lifetime(body_v(ir@), lt.0.deep_view(), lt.1));
            assert(crate::regalloc::occurs(body_v(ir@), lt.0.deep_view(), lt.1.start as int));
            let j = lt.1.start as int;
            assert(body_v(ir@)[j] == ir@[j].deep_view());
            assert(0 <= j < ir@.len());
            if forall|t: int| 0 <= t < ir@.len() ==> needs_no_location(#[trigger] ir@[t]) {
                assert(needs_no_location(ir@[j]));
                assert(crate::regalloc::alive(ir@[j].deep_view()).len() == 0);
            }
        }
    }
    if lifetimes.len() > 0x100000 {
        proof {
            let j = lifetimes@[0].1.start as int;
            assert(explains(ir@[j], AsmError::FrameTooLarge, *global_lookup));
        }
        return Err(AsmError::FrameTooLarge);
    }
    let mut allocator = LinearScanRegisterAlloc::new(allocatable_registers(), precolor);
    allocator.linear_scan(&lifetimes);
    let stack_size = allocator.stack_size();
    let frame = next_multiple_of_16(stack_size);

    let mut result: Vec<Instruction> = Vec::new();
    result.push(Instruction::StorePair {
        r1: Register::frame_pointer(),
        r2: Register::link_register(),
        addressing: AddressingMode::pre_indexed(-16),
    });
    result.push(Instruction::Mov { dest: Register::frame_pointer(), operand: RValue::Register(Register::stack_pointer()) });
    alloc_stack(&mut result, frame);

    let mut idx: usize = 0;
    while idx < ir.len()
        invariant
            idx <= ir@.len(),
            allocator.wf(),
            allocator.spill_top() <= 0x1_0000_0000,
            global_lookup.wf(),
            frame % 16 == 0,
            prologue_ok(result@, frame as int),
            forall|j: int| 0 <= j < idx ==> !(#[trigger] ir@[j] is Phi),
            parameters@.len() <= 8,
        decreases ir@.len() - idx,
    {
        let mut code = match lower_statement(&ir[idx], idx, func_name, &allocator, global_lookup) {
            Ok(c) => c,
            Err(e) => {
                proof {
                    assert(explains(ir@[idx as int], e, *global_lookup));
                }
                return Err(e);
            },
        };
        let ghost prev = result@;
        result.append(&mut code);
        proof {
            assert(result@.subrange(0, 3) =~= prev.subrange(0, 3));
            assert(result@[0] == prev[0] && result@[1] == prev[1] && result@[2] == prev[2]);
        }
        idx += 1;
    }
    let ghost body_end = result@;
    let ret_label = return_label(func_name);
    result.push(Instruction::Label(ret_label));
    pop_stack(&mut result, frame);
    result.push(Instruction::LoadPair {
        r1: Register::frame_pointer(),
        r2: Register::link_register(),
        addressing: AddressingMode::post_indexed(16),
    });
    result.push(Instruction::Branch(Branch::Return));
    proof {
        let n = result@.len();
        assert(n == body_end.len() + 4);
        assert(result@[0] == body_end[0] && result@[1] == body_end[1] && result@[2] == body_end[2]);
        assert(result@[n - 4] == Instruction::Label(ret_label));
        assert(prologue_ok(result@, frame as int));
        assert(epilogue_ok(result@, frame as int, func_name@));
        let f = frame as int;
        assert(f % 16 == 0 && 0 <= f && prologue_ok(result@, f) && epilogue_ok(result@, f, func_name@));
        assert(framed(result@, func_name@));
    }
    Ok(result)
}

/// `_<name>:` followed by the function's code.
pub fn convert_function_to_asm(fd: &FunctionDef, lookup: &SymbolLookup) -> (r: Result<Vec<Instruction>, AsmError>)
    requires
        lookup.wf(),
    ensures
        r matches Ok(code) ==> code@.len() > 0 && code@[0] is Label && code@[0]->Label_0@ == "_"@ + fd.name@
            && framed(code@.subrange(1, code@.len() as int), fd.name@),
        r matches Err(e) ==> function_explains(*fd, e, *lookup),
        function_emittable(*fd) ==> r is Ok,
{
    let mut instructions: Vec<Instruction> = Vec::new();
    let mut label = "_".to_owned();
    label.append(fd.name.as_str());
    instructions.push(Instruction::Label(label));
    let mut body = convert_function_body_ir_to_asm(&fd.body, fd.name.as_str(), &fd.parameters, lookup)?;
    let ghost bv = body@;
    instructions.append(&mut body);
    proof {
        assert(instructions@.subrange(1, instructions@.len() as int) =~= bv);
    }
    Ok(instructions)
}

/// Error `e` of lowering function `f` comes from its parameter count or from one
/// of its statements.
pub open spec fn function_explains(f: FunctionDef, e: AsmError, lookup: SymbolLookup) -> bool {
    (e == AsmError::TooManyArguments && f.parameters@.len() > 8)
        || exists|j: int| 0 <= j < f.body@.len() && explains(#[trigger] f.body@[j], e, lookup)
}

/// Function `f` has at most eight parameters and a body that needs no location.
pub open spec fn function_emittable(f: FunctionDef) -> bool {
    f.parameters@.len() <= 8 && forall|j: int| 0 <= j < f.body@.len() ==> needs_no_location(#[trigger] f.body@[j])
}

/// `.extern _<name>` for an extern declaration; nothing otherwise.
pub fn convert_declaration_to_asm(dec: &ToplevelDeclaration) -> (r: Vec<Instruction>)
    ensures
        dec->Function_storage_class == StorageClass::Extern ==> r@.len() == 1 && r@[0] is Directive
            && r@[0]->Directive_0 is Extern && r@[0]->Directive_0->Extern_0@ == dec->Function_name@,
        dec->Function_storage_class != StorageClass::Extern ==> r@.len() == 0,
{
    let mut instructions: Vec<Instruction> = Vec::new();
    match dec {
        ToplevelDeclaration::Function { storage_class, name, .. } => {
            if *storage_class == StorageClass::Extern {
                instructions.push(Instruction::Directive(Directive::Extern(name.clone())));
            }
        },
    }
    instructions
}

/// Lowers a translation unit: the text section with each function's `.globl` and
/// each extern's `.extern`, the functions, then the C-string section with one
/// `sl<k>:` label and `.asciz` directive per string literal.
pub fn convert_unit_to_asm(unit: &[ToplevelItem]) -> (r: Result<Vec<Instruction>, AsmError>)
    ensures
        r matches Ok(code) ==> code@.len() > 0 && code@[0] == Instruction::Directive(Directive::Section(Section::Text)),
        r matches Err(e) ==> exists|i: int| 0 <= i < unit@.len() && (#[trigger] unit@[i]) is Function
            && exists|lk: SymbolLookup| function_explains(unit@[i]->Function_0, e, lk),
        (forall|i: int| 0 <= i < unit@.len() && (#[trigger] unit@[i]) is Function ==> function_emittable(unit@[i]->Function_0))
            ==> r is Ok,
        r matches Ok(code) ==> forall|i: int| 0 <= i < unit@.len() && (#[trigger] unit@[i]) is Function
            ==> has_global(code@, unit@[i]->Function_0.name@),
        r matches Ok(code) ==> exists|k: int| 0 <= k < code@.len() && #[trigger] code@[k] == Instruction::Directive(Directive::Section(Section::TextCstring)),
{
    let lookup = SymbolLookup::global_from_unit(unit);
    let mut instructions: Vec<Instruction> = Vec::new();
    instructions.push(Instruction::Directive(Directive::Section(Section::Text)));
    let mut i: usize = 0;
    while i < unit.len()
        invariant
            i <= unit@.len(),
            instructions@.len() > 0,
            instructions@[0] == Instruction::Directive(Directive::Section(Section::Text)),
            forall|t: int| 0 <= t < i && (#[trigger] unit@[t]) is Function ==> has_global(instructions@, unit@[t]->Function_0.name@),
        decreases unit@.len() - i,
    {
        let ghost first = instructions@[0];
        let ghost before = instructions@;
        match &unit[i] {
            ToplevelItem::Declaration(dec) => {
                let mut d = convert_declaration_to_asm(dec);
                instructions.append(&mut d);
            },
            ToplevelItem::Function(f) => {
                instructions.push(Instruction::Directive(Directive::Global(f.name.clone())));
                proof {
                    assert(instructions@[before.len() as int] is Directive);
                }
            },
        }
        assert(instructions@[0] == first);
        proof {
            assert(instructions@.subrange(0, before.len() as int) =~= before);
            assert forall|t: int| 0 <= t < i + 1 && (#[trigger] unit@[t]) is Function implies has_global(instructions@, unit@[t]->Function_0.name@) by {
                if t < i {
                    lemma_has_global_prefix(before, instructions@, unit@[t]->Function_0.name@);
                } else {
                    assert(instructions@[before.len() as int] == Instruction::Directive(Directive::Global(unit@[t]->Function_0.name)));
                }
            }
        }
        i += 1;
    }
    let mut i: usize = 0;
    while i < unit.len()
        invariant
            i <= unit@.len(),
            lookup.wf(),
            instructions@.len() > 0,
            instructions@[0] == Instruction::Directive(Directive::Section(Section::Text)),
            forall|t: int| 0 <= t < unit@.len() && (#[trigger] unit@[t]) is Function ==> has_global(instructions@, unit@[t]->Function_0.name@),
        decreases unit@.len() - i,
    {
        if let ToplevelItem::Function(f) = &unit[i] {
            let mut code = match convert_function_to_asm(f, &lookup) {
                Ok(c) => c,
                Err(e) => {
                    proof {
                        assert(unit@[i as int] is Function && function_explains(unit@[i as int]->Function_0, e, lookup));
                    }
                    return Err(e);
                },
            };
            let ghost first = instructions@[0];
            let ghost before = instructions@;
            instructions.append(&mut code);
            assert(instructions@[0] == first);
            proof {
                assert(instructions@.subrange(0, before.len() as int) =~= before);
                assert forall|t: int| 0 <= t < unit@.len() && (#[trigger] unit@[t]) is Function implies has_global(instructions@, unit@[t]->Function_0.name@) by {
                    lemma_has_global_prefix(before, instructions@, unit@[t]->Function_0.name@);
                }
            }
        }
        i += 1;
    }
    let ghost before_c = instructions@;
    instructions.push(Instruction::Directive(Directive::Section(Section::TextCstring)));
    let ghost cpos = before_c.len() as int;
    proof {
        assert(instructions@.subrange(0, before_c.len() as int) =~= before_c);
        assert forall|t: int| 0 <= t < unit@.len() && (#[trigger] unit@[t]) is Function implies has_global(instructions@, unit@[t]->Function_0.name@) by {
            lemma_has_global_prefix(before_c, instructions@, unit@[t]->Function_0.name@);
        }
    }
    let literals = lookup.string_literals_iter();
    let mut k: usize = 0;
    while k < literals.len()
        invariant
            k <= literals@.len(),
            instructions@.len() > 0,
            instructions@[0] == Instruction::Directive(Directive::Section(Section::Text)),
            0 <= cpos < instructions@.len(),
            instructions@[cpos] == Instruction::Directive(Directive::Section(Section::TextCstring)),
            forall|t: int| 0 <= t < unit@.len() && (#[trigger] unit@[t]) is Function ==> has_global(instructions@, unit@[t]->Function_0.name@),
        decreases literals@.len() - k,
    {
        let ghost before = instructions@;
        instructions.push(Instruction::Label(literal_label(literals[k].0)));
        instructions.push(Instruction::Directive(Directive::AsciiCString(literals[k].1.clone())));
        proof {
            assert(instructions@.subrange(0, before.len() as int) =~= before);
            assert(instructions@[cpos] == before[cpos]);
            assert forall|t: int| 0 <= t < unit@.len() && (#[trigger] unit@[t]) is Function implies has_global(instructions@, unit@[t]->Function_0.name@) by {
                lemma_has_global_prefix(before, instructions@, unit@[t]->Function_0.name@);
            }
        }
        k += 1;
    }
    Ok(instructions)
}

/// Some instruction of `code` is the `.globl` directive for `name`.
pub open spec fn has_global(code: Seq<Instruction>, name: Seq<char>) -> bool {
    exists|k: int| 0 <= k < code.len() && (#[trigger] code[k]) is Directive && code[k]->Directive_0 is Global
        && code[k]->Directive_0->Global_0@ == name
}

proof fn lemma_has_global_prefix(a: Seq<Instruction>, b: Seq<Instruction>, name: Seq<char>)
    requires
        has_global(a, name),
        b.len() >= a.len(),
        b.subrange(0, a.len() as int) == a,
    ensures
        has_global(b, name),
{
    let k = choose|k: int| 0 <= k < a.len() && (#[trigger] a[k]) is Directive && a[k]->Directive_0 is Global
        && a[k]->Directive_0->Global_0@ == name;
    assert(b.subrange(0, a.len() as int)[k] == b[k]);
}

/// The text of a sequence of instructions: one line each, each ended by a newline.
pub open spec fn asm_text(instr: Seq<Instruction>) -> Seq<char>
    decreases instr.len(),
{
    if instr.len() == 0 {
        Seq::empty()
    } else {
        asm_text(instr.drop_last()) + instr_text(instr.last()) + "\n"@
    }
}

pub fn asm_into_text(instr: &[Instruction]) -> (r: String)
    ensures
        r@ == asm_text(instr@),
{
    let mut res = String::new();
    let mut i: usize = 0;
    while i < instr.len()
        invariant
            i <= instr@.len(),
            res@ == asm_text(instr@.subrange(0, i as int)),
        decreases instr@.len() - i,
    {
        let line = instr[i].to_string();
        res.append(line.as_str());
        res.append("\n");
        proof {
            let sub = instr@.subrange(0, i + 1);
            assert(sub.drop_last() =~= instr@.subrange(0, i as int));
            assert(sub.last() == instr@[i as int]);
        }
        i += 1;
    }
    proof {
        assert(instr@.subrange(0, instr@.len() as int) =~= instr@);
    }
    res
}

} // verus!
