use minicc::ast::{
    AssignmentExpression, AssignmentType, BinOp, CallExpression, CompoundStatement, DataType, Declaration, Declarator,
    Expression, ExpressionBinary, ExpressionStatement, FunctionDeclarator, FunctionDeclaratorField, FunctionDefinition,
    FunctionParameter, Identifier, IfStatement, InitDeclarator, LValue, NumberLiteral, ParameterDeclaration,
    ParenthesizedExpression, PointerDeclarator, ReturnStatement, Statement, StringLiteral, TopLevelItem, TranslationUnit,
    WhileStatement,
};
use minicc::codegen::{asm_into_text, convert_unit_to_asm};
use minicc::common::StorageClass;
use minicc::nodes::{Address, AddressConstant, FunctionDef, Ssa, ToplevelItem};
use minicc::phi_elim::eliminate_phi_body;
use minicc::optimisation::run_o1;
use minicc::ssa::build_ssa;
use minicc::table::SymbolTable;
use minicc::text::into_text;

fn ident(name: &str) -> Identifier {
    Identifier(name.to_string())
}

fn num(n: i64) -> Expression {
    Expression::NumberLiteral(NumberLiteral(n))
}

fn var(name: &str) -> Expression {
    Expression::Identifier(ident(name))
}

fn declare_int(name: &str, value: Expression) -> Statement {
    Statement::Declaration(Declaration {
        storage_class: StorageClass::Auto,
        dtype: DataType::Int,
        declarator: Box::new(Declarator::InitDeclarator(InitDeclarator {
            declarator: Box::new(Declarator::Identifier(ident(name))),
            value,
        })),
    })
}

fn assign(name: &str, atype: AssignmentType, value: Expression) -> Statement {
    Statement::ExpressionStatement(ExpressionStatement {
        expression: Expression::Assignment(AssignmentExpression {
            lvalue: LValue::Identifier(ident(name)),
            rvalue: Box::new(value),
            atype,
        }),
    })
}

fn binary(left: Expression, op: BinOp, right: Expression) -> Expression {
    Expression::Binary(ExpressionBinary { left: Box::new(left), op, right: Box::new(right) })
}

fn ret(e: Expression) -> Statement {
    Statement::ReturnStatement(ReturnStatement { expression: e })
}

fn block(items: Vec<Statement>) -> Statement {
    Statement::CompoundStatement(CompoundStatement { items })
}

fn main_function(items: Vec<Statement>) -> TopLevelItem {
    TopLevelItem::FunctionDefinition(FunctionDefinition {
        return_type: DataType::Int,
        declarator: FunctionDeclaratorField::FunctionDeclarator(FunctionDeclarator {
            declarator: Box::new(Declarator::Identifier(ident("main"))),
            parameters: vec![],
        }),
        body: CompoundStatement { items },
    })
}

fn compile(unit: &TranslationUnit) -> (Vec<ToplevelItem>, String) {
    let table = SymbolTable::from_translation_unit(unit).expect("symbol table");
    let ssa = build_ssa(unit, &table).expect("ssa");
    let opt = run_o1(&ssa);
    let code = convert_unit_to_asm(&opt).expect("lowering");
    (opt, asm_into_text(&code))
}

fn main_body(items: &[ToplevelItem]) -> Vec<Ssa> {
    for item in items {
        if let ToplevelItem::Function(f) = item {
            if f.name == "main" {
                return f.body.iter().map(|s| s.duplicate()).collect();
            }
        }
    }
    panic!("no main")
}

fn returned_constant(body: &[Ssa]) -> Option<i64> {
    for s in body {
        if let Ssa::Return { value: Some((Address::Constant(AddressConstant::Numeric(n)), _)) } = s {
            return Some(*n);
        }
    }
    None
}

#[test]
fn return_zero_emits_frame_and_ret() {
    let unit = TranslationUnit { items: vec![main_function(vec![ret(num(0))])] };
    let (_, text) = compile(&unit);
    assert!(text.contains("_main:"));
    assert!(text.contains("stp x29, x30, [sp, #-16]!"));
    assert!(text.contains("mov x29, sp"));
    assert!(text.contains("mov w0, 0"));
    assert!(text.contains("b return_main"));
    assert!(text.contains("return_main:"));
    assert!(text.contains("ldp x29, x30, [sp], #16"));
    assert!(text.contains("ret"));
    assert!(text.contains(".globl _main"));
}

#[test]
fn straight_line_sum_folds_to_five() {
    let unit = TranslationUnit {
        items: vec![main_function(vec![
            declare_int("x", num(2)),
            declare_int("y", num(3)),
            ret(binary(var("x"), BinOp::Plus, var("y"))),
        ])],
    };
    let (opt, text) = compile(&unit);
    assert_eq!(returned_constant(&main_body(&opt)), Some(5));
    assert!(text.contains("mov w0, 5"));
}

#[test]
fn constant_if_lowers_without_phis() {
    let unit = TranslationUnit {
        items: vec![main_function(vec![
            declare_int("x", num(0)),
            Statement::IfStatement(IfStatement {
                condition: ParenthesizedExpression { expression: Box::new(num(1)) },
                body: Box::new(block(vec![assign("x", AssignmentType::Eq, num(7))])),
                else_body: Some(Box::new(block(vec![assign("x", AssignmentType::Eq, num(9))]))),
            }),
            ret(var("x")),
        ])],
    };
    let (opt, text) = compile(&unit);
    let body = main_body(&opt);
    assert!(body.iter().all(|s| !matches!(s, Ssa::Phi(_))));
    assert!(text.contains("_main:"));
    assert!(text.contains(", 7"));
    assert!(text.contains(", 9"));
    assert!(text.contains("cmp x9, 1") || text.contains("cmp w9, 1"));
    assert!(text.contains("beq L_main_0"));
    assert!(text.contains("bne L_main_1"));
}

#[test]
fn while_loop_compiles() {
    let unit = TranslationUnit {
        items: vec![main_function(vec![
            declare_int("i", num(0)),
            declare_int("s", num(0)),
            Statement::WhileStatement(WhileStatement {
                condition: ParenthesizedExpression { expression: Box::new(binary(var("i"), BinOp::Lt, num(10))) },
                body: Box::new(block(vec![
                    assign("s", AssignmentType::AddEq, var("i")),
                    assign("i", AssignmentType::AddEq, num(1)),
                ])),
            }),
            ret(var("s")),
        ])],
    };
    let table = SymbolTable::from_translation_unit(&unit).expect("symbol table");
    let ssa = build_ssa(&unit, &table).expect("ssa");
    let ir = into_text(&ssa);
    assert!(ir.contains("phi"));
    assert!(ir.contains("jump @_l0"));
    let (_, text) = compile(&unit);
    assert!(text.contains("cset"));
    assert!(text.contains("beq L_main_1"));
    assert!(text.contains("b L_main_0"));
}

#[test]
fn printf_call_uses_variadic_slot() {
    let printf = TopLevelItem::Declaration(Declaration {
        storage_class: StorageClass::Extern,
        dtype: DataType::Int,
        declarator: Box::new(Declarator::FunctionDeclarator(FunctionDeclarator {
            declarator: Box::new(Declarator::Identifier(ident("printf"))),
            parameters: vec![
                FunctionParameter::ParameterDeclaration(ParameterDeclaration {
                    dtype: DataType::Char,
                    declarator: Box::new(Declarator::PointerDeclarator(PointerDeclarator {
                        declarator: Box::new(Declarator::Identifier(ident("format"))),
                    })),
                }),
                FunctionParameter::VariadicParameter,
            ],
        })),
    });
    let call = Statement::ExpressionStatement(ExpressionStatement {
        expression: Expression::Call(CallExpression {
            function: Box::new(var("printf")),
            arguments: vec![Expression::StringLiteral(StringLiteral("%d\\n".to_string())), num(42)],
        }),
    });
    let unit = TranslationUnit { items: vec![printf, main_function(vec![call, ret(num(0))])] };
    let (_, text) = compile(&unit);
    assert!(text.contains(".extern _printf"));
    assert!(text.contains("bl _printf"));
    assert!(text.contains("adrp"));
    assert!(text.contains("@PAGE"));
    assert!(text.contains("@PAGEOFF"));
    assert!(text.lines().any(|l| l.starts_with("str x") && l.ends_with(", [sp, #0]")), "{}", text);
    assert!(text.contains(", 42"));
    assert!(text.contains("sl0:"));
    assert!(text.contains(".asciz \"%d\\n\""));
}

#[test]
fn many_live_locals_spill() {
    let names = ["a", "b", "c", "d", "e", "f", "g", "h"];
    let mut items: Vec<Statement> = Vec::new();
    for (k, n) in names.iter().enumerate() {
        items.push(declare_int(n, num(k as i64 + 1)));
    }
    let mut sum = var("a");
    for n in names.iter().skip(1) {
        sum = binary(sum, BinOp::Plus, var(n));
    }
    items.push(ret(sum));
    let unit = TranslationUnit { items: vec![main_function(items)] };
    let table = SymbolTable::from_translation_unit(&unit).expect("symbol table");
    let ssa = build_ssa(&unit, &table).expect("ssa");
    let code = convert_unit_to_asm(&ssa_without_folding(&ssa)).expect("lowering");
    let text = asm_into_text(&code);
    assert!(text.contains("str"));
    assert!(text.contains("ldr"));
    assert!(text.contains("[sp, #0]"));
}

fn ssa_without_folding(items: &[ToplevelItem]) -> Vec<ToplevelItem> {
    items
        .iter()
        .map(|i| match i {
            ToplevelItem::Function(f) => ToplevelItem::Function(FunctionDef {
                name: f.name.clone(),
                return_width: f.return_width,
                parameters: f.parameters.clone(),
                body: eliminate_phi_body(&f.body),
            }),
            other => other.clone(),
        })
        .collect()
}
