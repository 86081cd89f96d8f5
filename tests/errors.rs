use minicc::ast::{
    CallExpression, CompoundStatement, DataType, Declaration, Declarator, Expression, ExpressionStatement,
    FunctionDeclarator, FunctionDeclaratorField, FunctionDefinition, Identifier, NumberLiteral, ReturnStatement,
    Statement, TopLevelItem, TranslationUnit,
};
use minicc::codegen::{convert_function_body_ir_to_asm, generate_precolor, AsmError};
use minicc::common::{StorageClass, Width};
use minicc::lookup_table::SymbolLookup;
use minicc::nodes::{Address, FunctionParameter, Label, PhiFunction, Ssa};
use minicc::ssa::{build_ssa, SsaError};
use minicc::table::SymbolTable;

fn main_with(items: Vec<Statement>) -> TranslationUnit {
    TranslationUnit {
        items: vec![TopLevelItem::FunctionDefinition(FunctionDefinition {
            return_type: DataType::Int,
            declarator: FunctionDeclaratorField::FunctionDeclarator(FunctionDeclarator {
                declarator: Box::new(Declarator::Identifier(Identifier("main".to_string()))),
                parameters: vec![],
            }),
            body: CompoundStatement { items },
        })],
    }
}

fn ssa_error(unit: &TranslationUnit) -> SsaError {
    let table = SymbolTable::from_translation_unit(unit).expect("symbol table");
    match build_ssa(unit, &table) {
        Ok(_) => panic!("expected an error"),
        Err(e) => e,
    }
}

#[test]
fn unknown_identifier_is_reported() {
    let unit = main_with(vec![Statement::ReturnStatement(ReturnStatement {
        expression: Expression::Identifier(Identifier("nowhere".to_string())),
    })]);
    assert_eq!(ssa_error(&unit), SsaError::UnknownIdentifier);
}

#[test]
fn literal_without_width_is_reported() {
    let unit = main_with(vec![Statement::ExpressionStatement(ExpressionStatement {
        expression: Expression::NumberLiteral(NumberLiteral(3)),
    })]);
    assert_eq!(ssa_error(&unit), SsaError::MissingWidth);
}

#[test]
fn wrong_argument_count_is_reported() {
    let mut unit = main_with(vec![Statement::ExpressionStatement(ExpressionStatement {
        expression: Expression::Call(CallExpression {
            function: Box::new(Expression::Identifier(Identifier("f".to_string()))),
            arguments: vec![Expression::NumberLiteral(NumberLiteral(1))],
        }),
    })]);
    unit.items.insert(
        0,
        TopLevelItem::Declaration(Declaration {
            storage_class: StorageClass::Extern,
            dtype: DataType::Int,
            declarator: Box::new(Declarator::FunctionDeclarator(FunctionDeclarator {
                declarator: Box::new(Declarator::Identifier(Identifier("f".to_string()))),
                parameters: vec![],
            })),
        }),
    );
    assert_eq!(ssa_error(&unit), SsaError::WrongArgumentCount);
}

#[test]
fn calling_a_variable_is_reported() {
    let unit = main_with(vec![
        Statement::Declaration(Declaration {
            storage_class: StorageClass::Auto,
            dtype: DataType::Int,
            declarator: Box::new(Declarator::Identifier(Identifier("v".to_string()))),
        }),
        Statement::ExpressionStatement(ExpressionStatement {
            expression: Expression::Call(CallExpression {
                function: Box::new(Expression::Identifier(Identifier("v".to_string()))),
                arguments: vec![],
            }),
        }),
    ]);
    assert_eq!(ssa_error(&unit), SsaError::NotAFunction);
}

#[test]
fn surviving_phi_is_rejected() {
    let body = vec![
        Ssa::Label(Label::CompilerTemp(0)),
        Ssa::Phi(PhiFunction {
            dest: Address::Source("x".to_string(), 1),
            width: Width::Word,
            merging: vec![(Address::Source("x".to_string(), 0), Label::CompilerTemp(0))],
        }),
    ];
    let lookup = SymbolLookup::global_from_unit(&[]);
    let r = convert_function_body_ir_to_asm(&body, "f", &vec![], &lookup);
    assert!(matches!(r, Err(AsmError::PhiNotEliminated)));
}

#[test]
fn too_many_parameters_are_rejected() {
    let params: Vec<(String, Width)> = (0..9).map(|i| (format!("p{}", i), Width::Word)).collect();
    assert!(matches!(generate_precolor(&params, 3), Err(AsmError::TooManyArguments)));
    let eight: Vec<(String, Width)> = (0..8).map(|i| (format!("p{}", i), Width::Word)).collect();
    assert_eq!(generate_precolor(&eight, 3).map(|v| v.len()).ok(), Some(8));
}

#[test]
fn call_through_constant_is_rejected() {
    let body = vec![Ssa::Call {
        parameters: Vec::<FunctionParameter>::new(),
        dest: None,
        func: Address::Constant(minicc::nodes::AddressConstant::Numeric(4)),
        num_params: 0,
    }];
    let lookup = SymbolLookup::global_from_unit(&[]);
    let r = convert_function_body_ir_to_asm(&body, "f", &vec![], &lookup);
    assert!(matches!(r, Err(AsmError::CallThroughConstant)));
}

#[test]
fn quadruple_without_right_operand_is_rejected() {
    let body = vec![Ssa::Quadriplet(minicc::nodes::Quadriplet {
        width: Width::Word,
        dest: Address::CompilerTemp(1),
        op: minicc::nodes::Op::Plus,
        left: Address::CompilerTemp(0),
        right: None,
    })];
    let lookup = SymbolLookup::global_from_unit(&[]);
    let r = convert_function_body_ir_to_asm(&body, "f", &vec![], &lookup);
    assert!(matches!(r, Err(AsmError::MissingLocation)));
}

#[test]
fn unknown_string_literal_is_rejected() {
    let lookup = SymbolLookup::global_from_unit(&[]);
    let body2 = vec![Ssa::Assignment {
        dest: Address::CompilerTemp(0),
        source: Address::Constant(minicc::nodes::AddressConstant::StringLiteral("missing".to_string())),
        width: Width::Long,
    }];
    let r2 = convert_function_body_ir_to_asm(&body2, "f", &vec![], &lookup);
    assert!(matches!(r2, Err(AsmError::UnknownStringLiteral)));
}
