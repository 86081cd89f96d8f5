use minicc::blocks::{block_bounds, ir_to_basic_blocks};
use minicc::common::Width;
use minicc::constant_folding::fold_constants;
use minicc::controlflow::ControlFlowGraph;
use minicc::copy_elimination::{copy_eliminate_forward_assignments, copy_eliminate_quadriplets};
use minicc::dataflow::DataFlowGraph;
use minicc::dead_code_elimination::eliminate_dead_code;
use minicc::graphviz::{graphviz_function, push_escaped_statement};
use minicc::instructions::{AddressingMode, Instruction, Register, RValue};
use minicc::nodes::{Address, AddressConstant, FunctionDef, Label, Op, PhiFunction, Quadriplet, Ssa};
use minicc::numtext::push_int;
use minicc::phi_elim::eliminate_phi_body;
use minicc::regalloc::{alive_addresses_in_ssa, analyze_lifetimes, Allocation, Lifetime, LinearScanRegisterAlloc, Location};
use minicc::text::IrTextRepr;

fn temp(n: usize) -> Address {
    Address::CompilerTemp(n)
}

fn src(name: &str, v: usize) -> Address {
    Address::Source(name.to_string(), v)
}

fn konst(n: i64) -> Address {
    Address::Constant(AddressConstant::Numeric(n))
}

fn assign(dest: Address, source: Address) -> Ssa {
    Ssa::Assignment { dest, source, width: Width::Word }
}

fn quad(dest: Address, op: Op, left: Address, right: Address) -> Ssa {
    Ssa::Quadriplet(Quadriplet { width: Width::Word, dest, op, left, right: Some(right) })
}

fn ret(a: Address) -> Ssa {
    Ssa::Return { value: Some((a, Width::Word)) }
}

fn label(n: usize) -> Ssa {
    Ssa::Label(Label::CompilerTemp(n))
}

#[test]
fn comparison_folds_to_zero_or_one() {
    assert_eq!(Op::Lt.apply_constant(3, 5), Some(1));
    assert_eq!(Op::Gt.apply_constant(3, 5), Some(0));
    assert_eq!(Op::Eq.apply_constant(7, 7), Some(1));
    assert_eq!(Op::Plus.apply_constant(i64::MAX, 1), Some(i64::MIN));
    assert_eq!(Op::Mul.apply_constant(-4, 6), Some(-24));
    assert_eq!(Op::Div.apply_constant(-7, 2), Some(-3));
    assert_eq!(Op::Div.apply_constant(5, 0), None);
    assert_eq!(Op::Div.apply_constant(i64::MIN, -1), Some(i64::MIN));
}

#[test]
fn folding_rewrites_constant_quadruple() {
    let body = vec![
        label(0),
        assign(temp(0), konst(2)),
        assign(temp(1), konst(3)),
        quad(temp(2), Op::Plus, temp(0), temp(1)),
        ret(temp(2)),
    ];
    let folded = fold_constants(&body);
    assert_eq!(folded[3].to_ir_string(), "\t%_t2 =w #5");
    assert_eq!(folded[4].to_ir_string(), "\treturn w #5");
}

#[test]
fn folding_is_block_local() {
    let body = vec![label(0), assign(temp(0), konst(2)), label(1), ret(temp(0))];
    let folded = fold_constants(&body);
    assert_eq!(folded[3].to_ir_string(), "\treturn w %_t0");
}

#[test]
fn dead_temporary_is_dropped() {
    let body = vec![label(0), assign(temp(0), konst(1)), assign(temp(1), konst(2)), ret(temp(1))];
    let out = eliminate_dead_code(&body);
    assert_eq!(out.len(), 3);
    assert_eq!(out[1].to_ir_string(), "\t%_t1 =w #2");
}

#[test]
fn phi_operand_is_kept_alive() {
    let body = vec![
        label(0),
        assign(src("x", 1), konst(4)),
        Ssa::Jump(Label::CompilerTemp(1)),
        label(1),
        Ssa::Phi(PhiFunction { dest: src("x", 2), width: Width::Word, merging: vec![(src("x", 1), Label::CompilerTemp(0))] }),
        ret(src("x", 2)),
    ];
    let out = eliminate_dead_code(&body);
    assert_eq!(out.len(), body.len());
}

#[test]
fn phi_elimination_drops_phis_and_versions() {
    let body = vec![
        label(0),
        Ssa::Phi(PhiFunction { dest: src("x", 2), width: Width::Word, merging: vec![(src("x", 1), Label::CompilerTemp(0))] }),
        ret(src("x", 2)),
    ];
    let out = eliminate_phi_body(&body);
    assert_eq!(out.len(), 2);
    assert_eq!(out[1].to_ir_string(), "\treturn w %x.0");
}

#[test]
fn blocks_split_at_labels_and_returns() {
    let body = vec![label(0), assign(temp(0), konst(1)), ret(temp(0)), assign(temp(1), konst(2)), label(1), ret(temp(1))];
    let bounds = block_bounds(&body);
    assert_eq!(bounds, vec![(0, 3), (3, 4), (4, 6)]);
    let blocks = ir_to_basic_blocks(&body);
    assert_eq!(blocks.len(), 3);
    assert_eq!(blocks[1].len(), 1);
}

#[test]
fn quadruple_fuses_into_its_assignment() {
    let body = vec![
        label(0),
        quad(temp(0), Op::Plus, src("a", 0), src("b", 0)),
        assign(src("x", 0), temp(0)),
        ret(src("x", 0)),
    ];
    let out = copy_eliminate_quadriplets(&body);
    assert_eq!(out.len(), 3);
    assert_eq!(out[1].to_ir_string(), "\t%x.0 =w %a.0 + %b.0");
}

#[test]
fn single_use_copy_is_forwarded() {
    let body = vec![label(0), assign(temp(0), src("a", 0)), ret(temp(0))];
    let out = copy_eliminate_forward_assignments(&body);
    assert_eq!(out.len(), 2);
    assert_eq!(out[1].to_ir_string(), "\treturn w %a.0");
}

#[test]
fn lifetimes_span_first_to_last_use() {
    let body = vec![assign(temp(0), konst(1)), assign(temp(1), konst(2)), quad(temp(2), Op::Plus, temp(0), temp(1)), ret(temp(2))];
    let lts = analyze_lifetimes(&body, &[]);
    assert_eq!(lts.len(), 3);
    assert_eq!(lts[0].1, Lifetime { start: 0, end: 2 });
    assert_eq!(lts[1].1, Lifetime { start: 1, end: 2 });
    assert_eq!(lts[2].1, Lifetime { start: 2, end: 3 });
}

#[test]
fn allocator_spills_when_registers_run_out() {
    let regs = vec![Register::x3(Width::Long)];
    let mut alloc = LinearScanRegisterAlloc::new(regs, Vec::new());
    let lts = vec![(temp(0), Lifetime { start: 0, end: 3 }), (temp(1), Lifetime { start: 1, end: 2 }), (temp(2), Lifetime { start: 3, end: 4 })];
    alloc.linear_scan(&lts);
    assert_eq!(alloc.location_of(&temp(0), 1), Some(Location::Reg(Register::x3(Width::Long))));
    assert_eq!(alloc.location_of(&temp(1), 1), Some(Location::Spill(0)));
    assert_eq!(alloc.location_of(&temp(2), 4), Some(Location::Spill(8)));
    assert_eq!(alloc.location_of(&temp(2), 0), None);
    assert_eq!(alloc.stack_size(), 16);
    assert_eq!(alloc.used_registers_at(2), vec![Register::x3(Width::Long)]);
}

#[test]
fn precolored_register_is_not_reused() {
    let regs = vec![Register::x0(Width::Long), Register::x1(Width::Long)];
    let pre = vec![(src("p", 0), Allocation { loc: Location::Reg(Register::x0(Width::Word)), lifetime: Lifetime { start: 0, end: 5 } })];
    let mut alloc = LinearScanRegisterAlloc::new(regs, pre);
    alloc.linear_scan(&vec![(temp(0), Lifetime { start: 1, end: 2 })]);
    assert_eq!(alloc.location_of(&temp(0), 1), Some(Location::Reg(Register::x1(Width::Long))));
}

#[test]
fn instruction_text() {
    let store = Instruction::Store { width: Width::Byte, source: Register::x2(Width::Byte), operand: AddressingMode::stack_offset(-8) };
    assert_eq!(store.to_string(), "strb w2, [sp, #-8]");
    let mov = Instruction::Mov { dest: Register::x1(Width::Long), operand: RValue::Immediate(-42) };
    assert_eq!(mov.to_string(), "mov x1, -42");
    assert_eq!(Register::stack_pointer().to_string(), "sp");
}

#[test]
fn decimal_text_of_extremes() {
    let mut s = String::new();
    push_int(&mut s, i64::MIN);
    assert_eq!(s, "-9223372036854775808");
    let mut z = String::new();
    push_int(&mut z, 0);
    assert_eq!(z, "0");
}

#[test]
fn escaped_statement_replaces_markup() {
    let mut s = String::new();
    push_escaped_statement(&mut s, &quad(temp(2), Op::Lt, temp(0), temp(1)));
    assert_eq!(s, "\t%_t2 =w %_t0 &lt; %_t1");
}

#[test]
fn graphviz_lists_blocks() {
    let f = FunctionDef {
        name: "f".to_string(),
        return_width: Width::Word,
        parameters: vec![],
        body: vec![label(0), quad(temp(0), Op::Gt, konst(1), konst(2)), ret(temp(0))],
    };
    let dot = graphviz_function(&f);
    assert!(dot.starts_with("digraph SSA {\n"));
    assert!(dot.contains("&gt;"));
    assert!(dot.ends_with('}'));
}

#[test]
fn dataflow_components_and_dot() {
    let body = vec![
        label(0),
        assign(temp(0), konst(1)),
        assign(temp(1), konst(2)),
        quad(temp(2), Op::Plus, temp(0), temp(1)),
        ret(temp(2)),
    ];
    let g = DataFlowGraph::from_basic_block(&body);
    assert_eq!(g.adjacency()[1], vec![3]);
    assert_eq!(g.adjacency()[3], vec![4]);
    assert_eq!(g.do_not_optimize(), &vec![0]);
    let comps = g.connected_components();
    assert_eq!(comps.len(), 2);
    assert_eq!(comps[0], vec![1, 3, 4]);
    assert_eq!(comps[1], vec![2]);
    let dot = g.to_dot();
    assert!(dot.starts_with("digraph SSA_Dataflow {\n"));
    assert!(dot.contains("block_1 -> block_3;"));
    assert!(dot.ends_with("}\n"));
}

#[test]
fn fall_through_follows_the_last_statement() {
    let body = vec![
        label(0),
        Ssa::Jump(Label::CompilerTemp(0)),
        assign(temp(0), konst(1)),
        label(1),
        ret(temp(0)),
        label(2),
        ret(konst(0)),
    ];
    let g = ControlFlowGraph::new(&body);
    let succ = g.control_adjacency();
    assert_eq!(succ.len(), 3);
    assert_eq!(succ[0], vec![0, 1]);
    assert!(succ[1].is_empty());
}

#[test]
fn constant_operands_stay_alive() {
    let branch = Ssa::Branch {
        width: Width::Word,
        cond: konst(1),
        true_target: Label::CompilerTemp(0),
        false_target: Label::CompilerTemp(1),
    };
    assert_eq!(alive_addresses_in_ssa(&branch).len(), 1);
    let q = quad(temp(1), Op::Plus, konst(2), temp(0));
    assert_eq!(alive_addresses_in_ssa(&q).len(), 3);
    let q2 = quad(temp(1), Op::Plus, temp(0), konst(2));
    assert_eq!(alive_addresses_in_ssa(&q2).len(), 2);
}
