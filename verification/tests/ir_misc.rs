use lib::common::text::trim_str;
use lib::common::types::Type;
use lib::interpreter_backend::InterpreterBackend;
use lib::ir::monomorphize::Monomorphizer;
use lib::ir::optimizer::Optimizer;
use lib::ir::semantic_ir::display::{FormatMode, FormatOptions};
use lib::ir::semantic_ir::{SemanticBinOp, SemanticBlock, SemanticFunction, SemanticProgram, Terminator, TypedIRValue};
use lib::ir::semantic_ir::values::value_text;
use lib::ir::{IRBuilder, IRConstant, IRInstruction, IRType, IRValue};

#[test]
fn specialized_names_join_argument_names() {
    let m = Monomorphizer::new();
    assert_eq!(m.specialized_name("map", &[Type::Int, Type::list(Type::String)]), "map_Int_List_String");
    assert_eq!(m.specialized_name("id", &[Type::option(Type::TypeVar("T".to_string()))]), "id_Option_T");
    assert_eq!(m.specialized_name("f", &[Type::Ptr]), "f_Unknown");
    assert_eq!(m.specialized_name("g", &[]), "g_");
}

#[test]
fn trimming_strips_unicode_whitespace() {
    assert_eq!(trim_str("  a b \t\n"), "a b");
    assert_eq!(trim_str("\u{3000}x\u{a0}"), "x");
    assert_eq!(trim_str("   "), "");
}

#[test]
fn type_rules() {
    assert!(Type::Int.can_coerce_to(&Type::Float));
    assert!(!Type::Float.can_coerce_to(&Type::Int));
    assert!(Type::Bool.can_cast_to(&Type::Int));
    assert!(!Type::String.can_cast_to(&Type::Int));
    assert_eq!(Type::Int.common_supertype(&Type::Float), Type::Float);
    assert_eq!(Type::Unknown.common_supertype(&Type::Bool), Type::Bool);
    assert_eq!(Type::String.common_supertype(&Type::Bool), Type::Unknown);
}

#[test]
fn fresh_optimizer_has_no_work_counted() {
    let o = Optimizer::new();
    let s = o.stats();
    assert_eq!(s.removed_blocks + s.folded_constants + s.eliminated_dead_code, 0);
    assert_eq!(s.propagated_constants + s.simplified_branches, 0);
}

#[test]
fn interpreter_backend_describes_itself() {
    let b = InterpreterBackend::new();
    assert_eq!(b.name(), "interpreter");
    assert!(b.can_execute());
}

#[test]
fn default_format_is_linear() {
    assert_eq!(FormatOptions::default().mode, FormatMode::Linear);
}

#[test]
fn test_ir_program() {
    let mut builder = lib::ir::IRBuilder::new();
    builder.begin_function("main", lib::ir::IRType::Int);
    builder.declare_variable("x", lib::ir::IRType::Float, true);
    builder.emit(lib::ir::IRInstruction::Print { value: lib::ir::IRValue::Variable("x".to_string()) });
    builder.end_function();

    let display = builder.program.display();
    assert!(display.contains("function main"));
    assert!(display.contains("x"));
}

#[test]
fn test_ir_types() {
    use_ir_types();
}

fn use_ir_types() {
    let mut builder = lib::ir::IRBuilder::new();
    builder.begin_function("test", lib::ir::IRType::Void);
    builder.declare_variable("i", lib::ir::IRType::Int, false);
    builder.declare_variable("f", lib::ir::IRType::Float, true);
    builder.declare_variable("s", lib::ir::IRType::String, false);
    builder.declare_variable("b", lib::ir::IRType::Bool, false);
    builder.declare_variable("l", lib::ir::IRType::List(3), false);
    builder.declare_variable("p", lib::ir::IRType::Pointer(Box::new(lib::ir::IRType::Int)), false);
    builder.end_function();

    let func = builder.program.get_function("test").unwrap();
    assert_eq!(func.local_vars.len(), 6);
}

#[test]
fn ir_listing_shows_signature_locals_and_blocks() {
    let mut builder = lib::ir::IRBuilder::new();
    builder.begin_function("f", lib::ir::IRType::Void);
    builder.declare_variable("n", lib::ir::IRType::Int, false);
    builder.emit(lib::ir::IRInstruction::Nop);
    let second = builder.new_block();
    builder.set_block(second);
    builder.emit(lib::ir::IRInstruction::Jump { block: 1 });
    builder.end_function();
    builder.emit(lib::ir::IRInstruction::Nop);
    assert_eq!(second, 2);
    assert_eq!(
        builder.program.display(),
        "ALGOL26 IR Program\n==================\n\nfunction f() -> Void\n  val n: Int\n  block 1:\n    Nop\n  block 2:\n    Jump { block: 1 }\n\n"
    );
}

#[test]
fn temporaries_and_blocks_count_up() {
    let mut program = lib::ir::IRProgram::new();
    assert_eq!(program.new_temp("t"), "t_0");
    assert_eq!(program.new_temp("tmp"), "tmp_1");
    assert_eq!(program.new_block_id(), 0);
    assert_eq!(program.new_block_id(), 1);
    assert!(program.get_function("missing").is_none());
}

fn one_function_program(terminator: Option<Terminator>, extra_block: bool) -> SemanticProgram {
    let mut program = SemanticProgram::new();
    let entry = program.new_block_id();
    let mut blocks = vec![SemanticBlock { id: entry, instructions: vec![], terminator }];
    if extra_block {
        let other = program.new_block_id();
        blocks.push(SemanticBlock {
            id: other,
            instructions: vec![],
            terminator: Some(Terminator::Return { value: None, type_: Type::Void }),
        });
    }
    program.functions.push(SemanticFunction {
        name: "main".to_string(),
        params: vec![],
        return_type: Type::Void,
        blocks,
        entry_block: entry,
        is_extern: false,
    });
    program
}

fn void_return() -> Option<Terminator> {
    Some(Terminator::Return { value: None, type_: Type::Void })
}

#[test]
fn test_verified_ir_accepts_valid_program() {
    assert!(lib::ir::verified_ir::VerifiedIR::new(one_function_program(void_return(), false)).is_ok());
}

#[test]
fn test_verified_ir_rejects_invalid_program() {
    assert!(lib::ir::verified_ir::VerifiedIR::new(one_function_program(None, false)).is_err());
}

#[test]
fn test_verified_ir_rejects_unreachable() {
    assert!(lib::ir::verified_ir::VerifiedIR::new(one_function_program(void_return(), true)).is_err());
}

#[test]
fn test_verified_ir_display() {
    let verified = lib::ir::verified_ir::VerifiedIR::new(one_function_program(void_return(), false))
        .expect("IR verification failed in test");
    assert_eq!(verified.to_string(), "VerifiedIR(functions: 1, blocks: 1)");
    assert!(verified.verify().is_ok());
    assert_eq!(verified.function_count(), 1);
    assert_eq!(verified.into_program().functions.len(), 1);
}

#[test]
fn defer_lowering_leaves_a_program_without_deferred_cleanup_as_it_was() {
    let mut program = SemanticProgram::new();
    let entry = program.new_block_id();
    program.functions.push(SemanticFunction {
        name: "main".to_string(),
        params: vec![],
        return_type: Type::Void,
        blocks: vec![SemanticBlock {
            id: entry,
            instructions: vec![],
            terminator: Some(Terminator::Return { value: None, type_: Type::Void }),
        }],
        entry_block: entry,
        is_extern: false,
    });
    let pass = lib::ir::defer_lowering::DeferLoweringPass::new();
    assert!(pass.lower(&mut program).is_ok());
    assert_eq!(program.functions[0].blocks.len(), 1);
    assert!(matches!(program.functions[0].blocks[0].terminator, Some(Terminator::Return { .. })));
}

#[test]
fn ir_listing_renders_instructions_in_debug_shape() {
    let mut builder = IRBuilder::new();
    builder.begin_function("g", IRType::Pointer(Box::new(IRType::List(2))));
    builder.emit(IRInstruction::Alloca { name: "a\"b".to_string(), type_: IRType::Int, mutable: false });
    builder.emit(IRInstruction::Store { target: "a".to_string(), value: IRValue::Constant(IRConstant::Int(-42)) });
    builder.emit(IRInstruction::Call {
        result: Some("t".to_string()),
        function: "h".to_string(),
        args: vec![
            IRValue::Temporary(3),
            IRValue::Constant(IRConstant::List(vec![IRConstant::Bool(true), IRConstant::String("x\n".to_string())])),
        ],
    });
    builder.emit(IRInstruction::Return { value: None });
    builder.end_function();
    let text = builder.program.display();
    assert!(text.contains("function g() -> Pointer(List(2))\n"));
    assert!(text.contains("    Alloca { name: \"a\\\"b\", type_: Int, mutable: false }\n"));
    assert!(text.contains("    Store { target: \"a\", value: Constant(Int(-42)) }\n"));
    assert!(text.contains(
        "    Call { result: Some(\"t\"), function: \"h\", args: [Temporary(3), Constant(List([Bool(true), String(\"x\\n\")]))] }\n"
    ));
    assert!(text.contains("    Return { value: None }\n"));
}

#[test]
fn typed_values_render_in_debug_shape() {
    assert_eq!(value_text(&TypedIRValue::Variable("x".to_string(), Type::list(Type::Int))), "Variable(\"x\", List(Int))");
    assert_eq!(
        value_text(&TypedIRValue::BinaryOp {
            op: SemanticBinOp::Add,
            left: Box::new(TypedIRValue::Int(i64::MIN)),
            right: Box::new(TypedIRValue::Bool(false)),
            result_type: Type::Int,
        }),
        "BinaryOp { op: Add, left: Int(-9223372036854775808), right: Bool(false), result_type: Int }"
    );
    assert_eq!(
        value_text(&TypedIRValue::NoneValue {
            option_type: Type::Generic { name: "Vec".to_string(), args: vec![Type::Int, Type::Array(Box::new(Type::Bool), 4)] },
        }),
        "NoneValue { option_type: Generic { name: \"Vec\", args: [Int, Array(Bool, 4)] } }"
    );
    assert_eq!(
        value_text(&TypedIRValue::Call { function: "f".to_string(), args: vec![], return_type: Type::Void }),
        "Call { function: \"f\", args: [], return_type: Void }"
    );
    assert_eq!(
        value_text(&TypedIRValue::Array(vec![TypedIRValue::String("q\\".to_string()), TypedIRValue::NullPtr], Type::String, 2)),
        "Array([String(\"q\\\\\"), NullPtr], String, 2)"
    );
}

#[test]
fn type_parameters_are_substituted_by_their_bindings() {
    let m = Monomorphizer::new();
    let bindings = vec![
        ("T".to_string(), Type::Int),
        ("U".to_string(), Type::list(Type::String)),
        ("T".to_string(), Type::Bool),
    ];
    assert_eq!(m.substitute_type_string("  U ", &bindings), "List(String)");
    assert_eq!(m.substitute_type_string("T", &bindings), "Bool");
    assert_eq!(m.substitute_type_string(" V ", &bindings), "V");
    assert_eq!(m.substitute_type_string("List<T>", &bindings), "List<T>");
    assert_eq!(m.substitute_type_string("t", &vec![("t".to_string(), Type::Int)]), "t");
    assert_eq!(m.substitute_type_string("Ä", &vec![("Ä".to_string(), Type::Int)]), "Ä");
}

#[test]
fn trait_bounds_are_checked_clause_by_clause() {
    use_trait_bounds();
}

fn use_trait_bounds() {
    let m = Monomorphizer::new();
    let func = lib::frontend::ast::FunctionDecl {
        name: "max".to_string(),
        params: vec![],
        return_type: None,
        body: vec![],
        is_extern: false,
        ffi_info: None,
        type_params: vec!["T".to_string(), "U".to_string()],
        where_clauses: vec![
            lib::frontend::ast::WhereClause { type_param: "T".to_string(), trait_name: "Comparable".to_string() },
            lib::frontend::ast::WhereClause { type_param: "U".to_string(), trait_name: "Display".to_string() },
            lib::frontend::ast::WhereClause { type_param: "V".to_string(), trait_name: "Add".to_string() },
        ],
    };
    assert_eq!(m.check_trait_bounds_for_instantiation(&func, &[Type::Int, Type::String]), Ok(()));
    assert_eq!(m.check_trait_bounds_for_instantiation(&func, &[Type::Float]), Ok(()));
    assert_eq!(
        m.check_trait_bounds_for_instantiation(&func, &[Type::String, Type::Ptr]),
        Err("Type 'String' does not implement trait 'Comparable' (required by 'T')".to_string())
    );
    assert_eq!(
        m.check_trait_bounds_for_instantiation(&func, &[Type::Int, Type::list(Type::Int)]),
        Err("Type 'List(Int)' does not implement trait 'Display' (required by 'U')".to_string())
    );
}

#[test]
fn calls_are_collected_with_their_argument_types() {
    let d = lib::common::span::Span::default();
    let call = |name: &str, args: Vec<lib::frontend::ast::Expr>| {
        lib::frontend::ast::Expr::new(lib::frontend::ast::ExprKind::FunctionCall { name: name.to_string(), args, span: d })
    };
    let int = lib::frontend::ast::Expr::new(lib::frontend::ast::ExprKind::Int(1, d));
    let inner = call("id()", vec![int]);
    let outer = call("id", vec![inner, lib::frontend::ast::Expr::new(lib::frontend::ast::ExprKind::Bool(true, d))]);
    let body = vec![
        lib::frontend::ast::Stmt::Print { expr: outer, span: d },
        lib::frontend::ast::Stmt::Break(d),
    ];
    let f = lib::frontend::ast::FunctionDecl {
        name: "main".to_string(),
        params: vec![],
        return_type: None,
        body,
        is_extern: false,
        ffi_info: None,
        type_params: vec![],
        where_clauses: vec![],
    };
    let mut m = Monomorphizer::new();
    m.collect_instantiations(&[f]);
    assert_eq!(m.calls_recorded("id"), 2);
    assert_eq!(m.calls_recorded("id()"), 0);
    assert_eq!(m.calls_recorded("main"), 0);
}
