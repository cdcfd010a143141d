use lib::common::types::Type;
use lib::ir::semantic_ir::{
    Instruction, SemanticBinOp, SemanticBlock, SemanticFunction, SemanticProgram, Terminator, TypedIRValue,
};
use lib::ir::semantic_verifier::builtins::builtin_signatures;
use lib::ir::semantic_verifier::value::types_compatible_for_call;
use lib::ir::semantic_verifier::walk::verify;
use lib::ir::semantic_verifier::VerifyError;

fn single_block_program(
    instructions: Vec<Instruction>,
    terminator: Option<Terminator>,
) -> SemanticProgram {
    let mut program = SemanticProgram::new();
    let entry = program.new_block_id();
    program.functions.push(SemanticFunction {
        name: "main".to_string(),
        params: vec![],
        return_type: Type::Void,
        blocks: vec![SemanticBlock {
            id: entry,
            instructions,
            terminator: Some(terminator.unwrap_or(Terminator::Return {
                value: None,
                type_: Type::Void,
            })),
        }],
        entry_block: entry,
        is_extern: false,
    });
    program
}
#[test]
fn tests_test_missing_return_detected() {
    let mut program = SemanticProgram::new();
    let entry = program.new_block_id();
    program.functions.push(SemanticFunction {
        name: "main".to_string(),
        params: vec![],
        return_type: Type::Int,
        blocks: vec![SemanticBlock {
            id: entry,
            instructions: vec![],
            terminator: Some(Terminator::Jump { block: entry }),
        }],
        entry_block: entry,
        is_extern: false,
    });
    assert!(verify(&program).is_err());
}
#[test]
fn tests_test_return_type_mismatch() {
    let mut program = SemanticProgram::new();
    let entry = program.new_block_id();
    program.functions.push(SemanticFunction {
        name: "main".to_string(),
        params: vec![],
        return_type: Type::Int,
        blocks: vec![SemanticBlock {
            id: entry,
            instructions: vec![],
            terminator: Some(Terminator::Return {
                value: Some(TypedIRValue::String("wrong".to_string())),
                type_: Type::String,
            }),
        }],
        entry_block: entry,
        is_extern: false,
    });
    assert!(verify(&program).is_err());
}

// ─── Stage 1: instruction-level checks ───
#[test]
fn tests_verifier_rejects_declare_type_mismatch() {
    let program = single_block_program(
        vec![Instruction::Declare {
            name: "x".to_string(),
            mutable: true,
            type_: Type::Int,
            value: TypedIRValue::String("hello".to_string()),
        }],
        None,
    );
    let result = verify(&program);
    assert!(result.is_err(), "expected type mismatch, got: {:?}", result);
}
#[test]
fn tests_verifier_rejects_assign_to_immutable() {
    let program = single_block_program(
        vec![
            Instruction::Declare {
                name: "x".to_string(),
                mutable: false,
                type_: Type::Int,
                value: TypedIRValue::Int(0),
            },
            Instruction::Assign {
                target: "x".to_string(),
                value: TypedIRValue::Int(1),
            },
        ],
        None,
    );
    assert!(verify(&program).is_err());
}
#[test]
fn tests_verifier_rejects_undefined_variable_read() {
    let program = single_block_program(
        vec![Instruction::Print {
            value: TypedIRValue::Variable("missing".to_string(), Type::Int),
        }],
        None,
    );
    assert!(verify(&program).is_err());
}
#[test]
fn tests_verifier_rejects_binary_op_type_mismatch() {
    let program = single_block_program(
        vec![
            Instruction::Declare {
                name: "x".to_string(),
                mutable: true,
                type_: Type::Int,
                value: TypedIRValue::Int(0),
            },
            Instruction::Declare {
                name: "y".to_string(),
                mutable: true,
                type_: Type::Int,
                value: TypedIRValue::BinaryOp {
                    op: SemanticBinOp::Add,
                    left: Box::new(TypedIRValue::Variable("x".into(), Type::Int)),
                    right: Box::new(TypedIRValue::String("oops".into())),
                    result_type: Type::Int,
                },
            },
        ],
        None,
    );
    assert!(verify(&program).is_err());
}
#[test]
fn tests_verifier_accepts_valid_declare() {
    let program = single_block_program(
        vec![Instruction::Declare {
            name: "x".to_string(),
            mutable: true,
            type_: Type::Float,
            value: TypedIRValue::Float(42.0f64.to_bits()),
        }],
        None,
    );
    assert!(verify(&program).is_ok());
}
#[test]
fn tests_verifier_accepts_int_to_float_coercion() {
    let program = single_block_program(
        vec![Instruction::Declare {
            name: "x".to_string(),
            mutable: true,
            type_: Type::Float,
            value: TypedIRValue::Int(5),
        }],
        None,
    );
    assert!(verify(&program).is_ok());
}
// ─── Stage 2: instruction-level checks ───
#[test]
fn verifier_rejects_array_assign_float_index() {
    let program = single_block_program(
        vec![
            Instruction::Declare {
                name: "xs".to_string(),
                mutable: true,
                type_: Type::list(Type::Int),
                value: TypedIRValue::List(
                    vec![TypedIRValue::Int(1), TypedIRValue::Int(2)],
                    Type::Int,
                ),
            },
            Instruction::ArrayAssign {
                array: Box::new(TypedIRValue::Variable("xs".into(), Type::list(Type::Int))),
                index: Box::new(TypedIRValue::Float(1.5f64.to_bits())),
                value: TypedIRValue::Int(99),
            },
        ],
        None,
    );
    assert!(verify(&program).is_err(), "float index must be rejected");
}
#[test]
fn verifier_rejects_array_assign_value_type_mismatch() {
    let program = single_block_program(
        vec![
            Instruction::Declare {
                name: "xs".to_string(),
                mutable: true,
                type_: Type::list(Type::Int),
                value: TypedIRValue::List(vec![TypedIRValue::Int(1)], Type::Int),
            },
            Instruction::ArrayAssign {
                array: Box::new(TypedIRValue::Variable("xs".into(), Type::list(Type::Int))),
                index: Box::new(TypedIRValue::Int(0)),
                value: TypedIRValue::String("oops".into()),
            },
        ],
        None,
    );
    assert!(
        verify(&program).is_err(),
        "value whose type does not match the element type must be rejected"
    );
}
#[test]
fn verifier_rejects_iterator_init_on_non_list() {
    let program = single_block_program(
        vec![
            Instruction::Declare {
                name: "n".to_string(),
                mutable: true,
                type_: Type::Int,
                value: TypedIRValue::Int(0),
            },
            Instruction::IteratorInit {
                iterator: "__it".to_string(),
                iterable: TypedIRValue::Variable("n".into(), Type::Int),
            },
        ],
        None,
    );
    assert!(
        verify(&program).is_err(),
        "iterator over Int must be rejected"
    );
}
#[test]
fn verifier_rejects_receive_on_non_channel() {
    let program = single_block_program(
        vec![
            Instruction::Declare {
                name: "n".to_string(),
                mutable: true,
                type_: Type::Int,
                value: TypedIRValue::Int(0),
            },
            Instruction::Receive {
                channel: "n".to_string(),
                target: "y".to_string(),
            },
        ],
        None,
    );
    assert!(verify(&program).is_err(), "receive on Int must be rejected");
}
#[test]
fn verifier_rejects_free_on_non_pointer() {
    let program = single_block_program(
        vec![
            Instruction::Declare {
                name: "n".to_string(),
                mutable: true,
                type_: Type::Int,
                value: TypedIRValue::Int(0),
            },
            Instruction::Free {
                ptr: TypedIRValue::Variable("n".into(), Type::Int),
            },
        ],
        None,
    );
    assert!(verify(&program).is_err(), "free on Int must be rejected");
}
#[test]
fn verifier_rejects_illegal_cast() {
    let program = single_block_program(
        vec![Instruction::Declare {
            name: "x".to_string(),
            mutable: true,
            type_: Type::Int,
            value: TypedIRValue::Cast {
                value: Box::new(TypedIRValue::String("hello".into())),
                target_type: Type::Int,
            },
        }],
        None,
    );
    assert!(
        verify(&program).is_err(),
        "String -> Int cast must be rejected"
    );
}
#[test]
fn verifier_accepts_channel_send_receive() {
    let program = single_block_program(
        vec![
            Instruction::ChannelDecl {
                name: "ch".to_string(),
                type_: Type::channel(Type::Int),
            },
            Instruction::Send {
                channel: "ch".to_string(),
                value: TypedIRValue::Int(42),
            },
            Instruction::Receive {
                channel: "ch".to_string(),
                target: "got".to_string(),
            },
        ],
        None,
    );
    assert!(verify(&program).is_ok());
}
#[test]
fn verifier_accepts_iterator_over_list() {
    let program = single_block_program(
        vec![
            Instruction::Declare {
                name: "xs".to_string(),
                mutable: true,
                type_: Type::list(Type::Int),
                value: TypedIRValue::List(
                    vec![TypedIRValue::Int(1), TypedIRValue::Int(2)],
                    Type::Int,
                ),
            },
            Instruction::IteratorInit {
                iterator: "__it".to_string(),
                iterable: TypedIRValue::Variable("xs".into(), Type::list(Type::Int)),
            },
        ],
        None,
    );
    assert!(verify(&program).is_ok());
}

#[test]
fn some_of_undefined_variable_is_rejected() {
    // `Some(Var("undefined_var", Int))` must fail verification because
    // the inner variable reference is checked. Before the fix, the
    // catch-all arm returned the value's self-claimed type without
    // recursing into the inner value, so the missing variable was
    // silently accepted.

    let mut program = SemanticProgram::new();
    let entry = program.new_block_id();

    let func = SemanticFunction {
        name: "f".to_string(),
        params: vec![],
        return_type: Type::Void,
        blocks: vec![SemanticBlock {
            id: entry,
            instructions: vec![Instruction::Declare {
                name: "wrapped".to_string(),
                mutable: false,
                type_: Type::option(Type::Int),
                value: TypedIRValue::SomeValue(Box::new(TypedIRValue::Variable(
                    "undefined_var".to_string(),
                    Type::Int,
                ))),
            }],
            terminator: Some(Terminator::Return {
                value: None,
                type_: Type::Void,
            }),
        }],
        entry_block: entry,
        is_extern: false,
    };
    program.functions.push(func);

    let result = verify(&program);
    assert!(
        result.is_err(),
        "verifier accepted `Some(Var(undefined_var))`"
    );
    match result.unwrap_err() {
        VerifyError::UndefinedVariable(name) => assert!(
            name.contains("undefined_var"),
            "expected an error naming the missing variable, got: {}",
            name
        ),
        other => panic!("expected an undefined-variable error, got: {:?}", other),
    }
}


#[test]
fn float_arg_does_not_satisfy_int_param() {
    assert!(
        !types_compatible_for_call(&Type::Float, &Type::Int),
        "verifier must reject Float arguments for Int parameters"
    );
    assert!(
        types_compatible_for_call(&Type::Int, &Type::Float),
        "verifier must accept Int arguments for Float parameters"
    );
    assert!(types_compatible_for_call(&Type::Int, &Type::Int), "same-type Int arguments must be accepted");
    assert!(types_compatible_for_call(&Type::Float, &Type::Float), "same-type Float arguments must be accepted");
}

#[test]
fn builtin_signatures_match_analyzer_table() {
    let sigs = builtin_signatures();

    let expected: Vec<(&str, Vec<Type>, Type)> = vec![
        ("Math.sqrt", vec![Type::Float], Type::Float),
        ("Math.pow", vec![Type::Float, Type::Float], Type::Float),
        ("Math.sin", vec![Type::Float], Type::Float),
        ("Math.cos", vec![Type::Float], Type::Float),
        ("Math.abs", vec![Type::Float], Type::Float),
        ("Math.floor", vec![Type::Float], Type::Float),
        ("Math.ceil", vec![Type::Float], Type::Float),
        ("Math.exp", vec![Type::Float], Type::Float),
        ("Math.log", vec![Type::Float], Type::Float),
        ("Math.tan", vec![Type::Float], Type::Float),
        ("String.length", vec![Type::String], Type::Int),
        ("String.concat", vec![Type::String, Type::String], Type::String),
        ("String.substring", vec![Type::String, Type::Int, Type::Int], Type::String),
        ("String.to_upper", vec![Type::String], Type::String),
        ("String.to_lower", vec![Type::String], Type::String),
        ("File.read", vec![Type::String], Type::String),
        ("File.write", vec![Type::String, Type::String], Type::Int),
        ("File.append", vec![Type::String, Type::String], Type::Int),
        ("List.length", vec![Type::list(Type::Unknown)], Type::Int),
        ("List.sum", vec![Type::list(Type::Unknown)], Type::Float),
        ("List.max", vec![Type::list(Type::Unknown)], Type::Float),
        ("List.min", vec![Type::list(Type::Unknown)], Type::Float),
        ("alloc", vec![Type::Int], Type::pointer(Type::Unknown)),
        ("free", vec![Type::pointer(Type::Unknown)], Type::Void),
    ];

    for (name, expected_params, expected_ret) in &expected {
        let sig = sigs
            .iter()
            .rev()
            .find(|(n, _)| n == name)
            .map(|(_, s)| s)
            .unwrap_or_else(|| panic!("builtin `{}` is in the expected table but missing from `builtin_signatures()`", name));

        assert_eq!(
            sig.params.len(),
            expected_params.len(),
            "builtin `{}`: param count mismatch (expected {}, got {})",
            name,
            expected_params.len(),
            sig.params.len()
        );

        for (i, (expected_ty, (_, actual_ty))) in expected_params.iter().zip(&sig.params).enumerate() {
            assert_eq!(
                actual_ty, expected_ty,
                "builtin `{}`: param {} type mismatch (expected {:?}, got {:?})",
                name, i, expected_ty, actual_ty
            );
        }

        assert_eq!(
            sig.return_type, *expected_ret,
            "builtin `{}`: return type mismatch (expected {:?}, got {:?})",
            name, expected_ret, sig.return_type
        );
    }

    for (name, _) in &sigs {
        assert!(
            expected.iter().any(|(n, _, _)| *n == name.as_str()),
            "verifier's signature table has `{}` but the expected list does not",
            name
        );
    }
}

// ─── Further cases ──────────────────────────────────────────────────

#[test]
fn call_with_wrong_argument_count_is_rejected() {
    let program = single_block_program(
        vec![Instruction::Call {
            func: "Math.sqrt".to_string(),
            args: vec![TypedIRValue::Int(1), TypedIRValue::Int(2)],
            result: None,
        }],
        None,
    );
    assert!(matches!(verify(&program), Err(VerifyError::ArgCount(_))));
}

#[test]
fn call_result_is_bound_with_return_type() {
    let program = single_block_program(
        vec![
            Instruction::Call {
                func: "String.length".to_string(),
                args: vec![TypedIRValue::String("abc".to_string())],
                result: Some("n".to_string()),
            },
            Instruction::Print { value: TypedIRValue::Variable("n".to_string(), Type::Int) },
        ],
        None,
    );
    assert!(verify(&program).is_ok());
}

#[test]
fn call_to_unknown_function_is_rejected() {
    let program = single_block_program(
        vec![Instruction::Call { func: "nowhere".to_string(), args: vec![], result: None }],
        None,
    );
    assert!(matches!(verify(&program), Err(VerifyError::UndefinedFunction(_))));
}

#[test]
fn branch_on_non_bool_is_rejected() {
    let mut program = SemanticProgram::new();
    program.functions.push(SemanticFunction {
        name: "main".to_string(),
        params: vec![],
        return_type: Type::Void,
        blocks: vec![
            SemanticBlock {
                id: 0,
                instructions: vec![],
                terminator: Some(Terminator::Branch { condition: TypedIRValue::Int(1), then_block: 1, else_block: 1 }),
            },
            SemanticBlock {
                id: 1,
                instructions: vec![],
                terminator: Some(Terminator::Return { value: None, type_: Type::Void }),
            },
        ],
        entry_block: 0,
        is_extern: false,
    });
    assert!(matches!(verify(&program), Err(VerifyError::BranchCondition)));
}

#[test]
fn structural_defects_are_reported_first() {
    let program = single_block_program(vec![], Some(Terminator::Jump { block: 42 }));
    assert!(matches!(verify(&program), Err(VerifyError::Structure(_))));
}

#[test]
fn comparison_of_int_and_float_is_bool() {
    let program = single_block_program(
        vec![Instruction::Declare {
            name: "b".to_string(),
            mutable: false,
            type_: Type::Bool,
            value: TypedIRValue::BinaryOp {
                op: SemanticBinOp::Less,
                left: Box::new(TypedIRValue::Int(1)),
                right: Box::new(TypedIRValue::Float(2.0f64.to_bits())),
                result_type: Type::Bool,
            },
        }],
        None,
    );
    assert!(verify(&program).is_ok());
}

#[test]
fn composite_parameter_with_unknown_accepts_any_element() {
    assert!(types_compatible_for_call(&Type::list(Type::Int), &Type::list(Type::Unknown)));
    assert!(!types_compatible_for_call(&Type::list(Type::Float), &Type::list(Type::Int)));
}

#[test]
fn invariants_accept_concrete_ir() {
    let mut program = SemanticProgram::new();
    program.functions.push(SemanticFunction {
        name: "main".to_string(),
        params: vec![("x".to_string(), Type::Int)],
        return_type: Type::Int,
        blocks: vec![SemanticBlock {
            id: 0,
            instructions: vec![Instruction::Print { value: TypedIRValue::Variable("x".to_string(), Type::Int) }],
            terminator: Some(Terminator::Return { value: Some(TypedIRValue::Int(0)), type_: Type::Int }),
        }],
        entry_block: 0,
        is_extern: false,
    });
    let plan = lib::ir::instantiation_plan::InstantiationPlan::new();
    assert!(lib::ir::semantic_verifier::invariants::check_invariants(&program, &plan).is_ok());
}

#[test]
fn invariants_report_every_type_variable_in_order() {
    use_invariant_types();
}

fn use_invariant_types() {
    let tv = || Type::TypeVar("T".to_string());
    let mut program = SemanticProgram::new();
    program.functions.push(SemanticFunction {
        name: "id".to_string(),
        params: vec![("x".to_string(), tv())],
        return_type: Type::List(Box::new(tv())),
        blocks: vec![SemanticBlock {
            id: 3,
            instructions: vec![
                Instruction::Nop,
                Instruction::Assign {
                    target: "y".to_string(),
                    value: TypedIRValue::Call {
                        function: "f".to_string(),
                        args: vec![TypedIRValue::Variable("x".to_string(), tv())],
                        return_type: Type::Function { params: vec![tv()], return_type: Box::new(Type::Int) },
                    },
                },
            ],
            terminator: Some(Terminator::Return {
                value: Some(TypedIRValue::NoneValue { option_type: Type::Option(Box::new(tv())) }),
                type_: Type::Int,
            }),
        }],
        entry_block: 3,
        is_extern: false,
    });
    let plan = lib::ir::instantiation_plan::InstantiationPlan::new();
    let errs = lib::ir::semantic_verifier::invariants::check_invariants(&program, &plan).unwrap_err();
    let locations: Vec<String> = errs
        .iter()
        .map(|e| match e {
            lib::ir::semantic_verifier::invariants::InvariantError::TypeVarInExecutableIr { function, location } => {
                assert_eq!(function, "id");
                location.clone()
            }
        })
        .collect();
    assert_eq!(
        locations,
        vec![
            "parameter `x` has type `TypeVar_T`".to_string(),
            "return type `List_TypeVar_T`".to_string(),
            "block 3 instr 1: Assign: Call return type `Function_1_TypeVar_T_Int`".to_string(),
            "block 3 instr 1: Assign: variable of type `TypeVar_T`".to_string(),
            "block 3 terminator: Return value: None of type `Option_TypeVar_T`".to_string(),
        ]
    );
    assert_eq!(
        errs[0].message(),
        "function `id` contains TypeVar in executable IR (parameter `x` has type `TypeVar_T`)"
    );
}

#[test]
fn semantic_verifier_test_missing_return_detected() {
    let mut program = SemanticProgram::new();
    let entry = program.new_block_id();
    program.functions.push(SemanticFunction {
        name: "main".to_string(),
        params: vec![],
        return_type: Type::Int,
        blocks: vec![SemanticBlock {
            id: entry,
            instructions: vec![],
            terminator: Some(Terminator::Jump { block: entry }),
        }],
        entry_block: entry,
        is_extern: false,
    });
    assert!(verify(&program).is_err());
}

#[test]
fn semantic_verifier_test_return_type_mismatch() {
    let mut program = SemanticProgram::new();
    let entry = program.new_block_id();
    program.functions.push(SemanticFunction {
        name: "main".to_string(),
        params: vec![],
        return_type: Type::Int,
        blocks: vec![SemanticBlock {
            id: entry,
            instructions: vec![],
            terminator: Some(Terminator::Return {
                value: Some(TypedIRValue::String("wrong".to_string())),
                type_: Type::String,
            }),
        }],
        entry_block: entry,
        is_extern: false,
    });
    assert!(verify(&program).is_err());
}

#[test]
fn semantic_verifier_verifier_rejects_declare_type_mismatch() {
    let program = single_block_program(
        vec![Instruction::Declare {
            name: "x".to_string(),
            mutable: true,
            type_: Type::Int,
            value: TypedIRValue::String("hello".to_string()),
        }],
        None,
    );
    let result = verify(&program);
    assert!(result.is_err(), "expected type mismatch, got: {:?}", result);
}

#[test]
fn semantic_verifier_verifier_rejects_assign_to_immutable() {
    let program = single_block_program(
        vec![
            Instruction::Declare {
                name: "x".to_string(),
                mutable: false,
                type_: Type::Int,
                value: TypedIRValue::Int(0),
            },
            Instruction::Assign {
                target: "x".to_string(),
                value: TypedIRValue::Int(1),
            },
        ],
        None,
    );
    assert!(verify(&program).is_err());
}

#[test]
fn semantic_verifier_verifier_rejects_undefined_variable_read() {
    let program = single_block_program(
        vec![Instruction::Print {
            value: TypedIRValue::Variable("missing".to_string(), Type::Int),
        }],
        None,
    );
    assert!(verify(&program).is_err());
}

#[test]
fn semantic_verifier_verifier_rejects_binary_op_type_mismatch() {
    let program = single_block_program(
        vec![
            Instruction::Declare {
                name: "x".to_string(),
                mutable: true,
                type_: Type::Int,
                value: TypedIRValue::Int(0),
            },
            Instruction::Declare {
                name: "y".to_string(),
                mutable: true,
                type_: Type::Int,
                value: TypedIRValue::BinaryOp {
                    op: SemanticBinOp::Add,
                    left: Box::new(TypedIRValue::Variable("x".into(), Type::Int)),
                    right: Box::new(TypedIRValue::String("oops".into())),
                    result_type: Type::Int,
                },
            },
        ],
        None,
    );
    assert!(verify(&program).is_err());
}

#[test]
fn semantic_verifier_verifier_accepts_valid_declare() {
    let program = single_block_program(
        vec![Instruction::Declare {
            name: "x".to_string(),
            mutable: true,
            type_: Type::Float,
            value: TypedIRValue::Float(42.0f64.to_bits()),
        }],
        None,
    );
    assert!(verify(&program).is_ok());
}

#[test]
fn semantic_verifier_verifier_accepts_int_to_float_coercion() {
    let program = single_block_program(
        vec![Instruction::Declare {
            name: "x".to_string(),
            mutable: true,
            type_: Type::Float,
            value: TypedIRValue::Int(5),
        }],
        None,
    );
    assert!(verify(&program).is_ok());
}
