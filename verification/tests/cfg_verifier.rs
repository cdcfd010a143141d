use lib::common::types::Type;
use lib::ir::cfg_verifier::{CFGVerifier, CfgError};
use lib::ir::semantic_ir::{SemanticBlock, SemanticFunction, SemanticPattern, SemanticProgram, Terminator, TypedIRValue};

fn create_test_program() -> SemanticProgram {
    let mut program = SemanticProgram::new();
    let entry = program.new_block_id();
    let func = SemanticFunction {
        name: "main".to_string(),
        params: vec![],
        return_type: Type::Void,
        blocks: vec![SemanticBlock {
            id: entry,
            instructions: vec![],
            terminator: Some(Terminator::Return {
                value: None,
                type_: Type::Void,
            }),
        }],
        entry_block: entry,
        is_extern: false,
    };
    program.functions.push(func);
    program
}

#[test]
fn test_valid_program() {
    let program = create_test_program();
    assert!(CFGVerifier::verify(&program).is_ok());
}

#[test]
fn test_duplicate_block_id() {
    let mut program = SemanticProgram::new();
    let block_id = program.new_block_id();
    let func = SemanticFunction {
        name: "main".to_string(),
        params: vec![],
        return_type: Type::Void,
        blocks: vec![
            SemanticBlock {
                id: block_id,
                instructions: vec![],
                terminator: None,
            },
            SemanticBlock {
                id: block_id,
                instructions: vec![],
                terminator: None,
            },
        ],
        entry_block: block_id,
        is_extern: false,
    };
    program.functions.push(func);
    assert!(CFGVerifier::verify(&program).is_err());
}

#[test]
fn test_missing_terminator() {
    let mut program = SemanticProgram::new();
    let entry = program.new_block_id();
    let func = SemanticFunction {
        name: "main".to_string(),
        params: vec![],
        return_type: Type::Void,
        blocks: vec![SemanticBlock {
            id: entry,
            instructions: vec![],
            terminator: None,
        }],
        entry_block: entry,
        is_extern: false,
    };
    program.functions.push(func);
    assert!(CFGVerifier::verify(&program).is_err());
}

#[test]
fn test_unreachable_block() {
    let mut program = SemanticProgram::new();
    let entry = program.new_block_id();
    let unreachable = program.new_block_id();
    let func = SemanticFunction {
        name: "main".to_string(),
        params: vec![],
        return_type: Type::Void,
        blocks: vec![
            SemanticBlock {
                id: entry,
                instructions: vec![],
                terminator: Some(Terminator::Return {
                    value: None,
                    type_: Type::Void,
                }),
            },
            SemanticBlock {
                id: unreachable,
                instructions: vec![],
                terminator: Some(Terminator::Return {
                    value: None,
                    type_: Type::Void,
                }),
            },
        ],
        entry_block: entry,
        is_extern: false,
    };
    program.functions.push(func);
    assert!(CFGVerifier::verify(&program).is_err());
}

#[test]
fn well_formed_fork_is_accepted() {
    let mut program = SemanticProgram::new();
    let entry = program.new_block_id();
    let a = program.new_block_id();
    let b = program.new_block_id();
    let join = program.new_block_id();
    let func = SemanticFunction {
        name: "main".to_string(),
        params: vec![],
        return_type: Type::Void,
        blocks: vec![
            SemanticBlock {
                id: entry,
                instructions: vec![],
                terminator: Some(Terminator::Fork {
                    blocks: vec![a, b],
                    join_block: join,
                }),
            },
            SemanticBlock {
                id: a,
                instructions: vec![],
                terminator: Some(Terminator::Jump { block: join }),
            },
            SemanticBlock {
                id: b,
                instructions: vec![],
                terminator: Some(Terminator::Jump { block: join }),
            },
            SemanticBlock {
                id: join,
                instructions: vec![],
                terminator: Some(Terminator::Return {
                    value: None,
                    type_: Type::Void,
                }),
            },
        ],
        entry_block: entry,
        is_extern: false,
    };
    program.functions.push(func);
    assert!(CFGVerifier::verify(&program).is_ok());
}

#[test]
fn fork_branch_with_extra_predecessor_is_rejected() {
    let mut program = SemanticProgram::new();
    let entry = program.new_block_id();
    let fork_block = program.new_block_id();
    let extra = program.new_block_id();
    let a = program.new_block_id();
    let join = program.new_block_id();
    let func = SemanticFunction {
        name: "main".to_string(),
        params: vec![],
        return_type: Type::Void,
        blocks: vec![
            SemanticBlock {
                id: entry,
                instructions: vec![],
                terminator: Some(Terminator::Branch {
                    condition: TypedIRValue::Bool(true),
                    then_block: fork_block,
                    else_block: extra,
                }),
            },
            SemanticBlock {
                id: fork_block,
                instructions: vec![],
                terminator: Some(Terminator::Fork {
                    blocks: vec![a],
                    join_block: join,
                }),
            },
            SemanticBlock {
                id: extra,
                instructions: vec![],
                terminator: Some(Terminator::Jump { block: a }),
            },
            SemanticBlock {
                id: a,
                instructions: vec![],
                terminator: Some(Terminator::Jump { block: join }),
            },
            SemanticBlock {
                id: join,
                instructions: vec![],
                terminator: Some(Terminator::Return {
                    value: None,
                    type_: Type::Void,
                }),
            },
        ],
        entry_block: entry,
        is_extern: false,
    };
    program.functions.push(func);
    // `a` is a fork branch but has two predecessors: `fork_block`
    // and `extra`. Rule 1 rejects it.
    assert!(CFGVerifier::verify(&program).is_err());
}

#[test]
fn fork_branch_with_early_return_is_rejected() {
    let mut program = SemanticProgram::new();
    let entry = program.new_block_id();
    let a = program.new_block_id();
    let b = program.new_block_id();
    let join = program.new_block_id();
    let func = SemanticFunction {
        name: "main".to_string(),
        params: vec![],
        return_type: Type::Void,
        blocks: vec![
            SemanticBlock {
                id: entry,
                instructions: vec![],
                terminator: Some(Terminator::Fork {
                    blocks: vec![a, b],
                    join_block: join,
                }),
            },
            SemanticBlock {
                id: a,
                instructions: vec![],
                terminator: Some(Terminator::Return {
                    value: None,
                    type_: Type::Void,
                }),
            },
            SemanticBlock {
                id: b,
                instructions: vec![],
                terminator: Some(Terminator::Jump { block: join }),
            },
            SemanticBlock {
                id: join,
                instructions: vec![],
                terminator: Some(Terminator::Return {
                    value: None,
                    type_: Type::Void,
                }),
            },
        ],
        entry_block: entry,
        is_extern: false,
    };
    program.functions.push(func);
    // Branch `a` terminates with `Return` instead of `Jump{join}`.
    // Rule 2 rejects it.
    assert!(CFGVerifier::verify(&program).is_err());
}

#[test]
fn fork_branch_with_nested_fork_is_rejected() {
    let mut program = SemanticProgram::new();
    let entry = program.new_block_id();
    let a = program.new_block_id();
    let b = program.new_block_id();
    let join = program.new_block_id();
    let a_inner = program.new_block_id();
    let a_inner_join = program.new_block_id();
    let func = SemanticFunction {
        name: "main".to_string(),
        params: vec![],
        return_type: Type::Void,
        blocks: vec![
            SemanticBlock {
                id: entry,
                instructions: vec![],
                terminator: Some(Terminator::Fork {
                    blocks: vec![a, b],
                    join_block: join,
                }),
            },
            SemanticBlock {
                id: a,
                instructions: vec![],
                terminator: Some(Terminator::Fork {
                    blocks: vec![a_inner],
                    join_block: a_inner_join,
                }),
            },
            SemanticBlock {
                id: a_inner,
                instructions: vec![],
                terminator: Some(Terminator::Jump {
                    block: a_inner_join,
                }),
            },
            SemanticBlock {
                id: a_inner_join,
                instructions: vec![],
                terminator: Some(Terminator::Jump { block: join }),
            },
            SemanticBlock {
                id: b,
                instructions: vec![],
                terminator: Some(Terminator::Jump { block: join }),
            },
            SemanticBlock {
                id: join,
                instructions: vec![],
                terminator: Some(Terminator::Return {
                    value: None,
                    type_: Type::Void,
                }),
            },
        ],
        entry_block: entry,
        is_extern: false,
    };
    program.functions.push(func);
    // Branch `a` contains a nested `Fork`. The outer fork's Rule 2
    // sees `a` in its reachable set and rejects the nested terminator.
    assert!(CFGVerifier::verify(&program).is_err());
}

#[test]
fn fork_join_in_branches_is_rejected() {
    let mut program = SemanticProgram::new();
    let entry = program.new_block_id();
    let a = program.new_block_id();
    let b = program.new_block_id();
    let join = program.new_block_id();
    let func = SemanticFunction {
        name: "main".to_string(),
        params: vec![],
        return_type: Type::Void,
        blocks: vec![
            SemanticBlock {
                id: entry,
                instructions: vec![],
                terminator: Some(Terminator::Fork {
                    blocks: vec![a, b, join],
                    join_block: join,
                }),
            },
            SemanticBlock {
                id: a,
                instructions: vec![],
                terminator: Some(Terminator::Jump { block: join }),
            },
            SemanticBlock {
                id: b,
                instructions: vec![],
                terminator: Some(Terminator::Jump { block: join }),
            },
            SemanticBlock {
                id: join,
                instructions: vec![],
                terminator: Some(Terminator::Return {
                    value: None,
                    type_: Type::Void,
                }),
            },
        ],
        entry_block: entry,
        is_extern: false,
    };
    program.functions.push(func);
    // `join` appears in its own fork's `blocks` list. Rule 1 fires
    // first here (join has three predecessors), but either Rule 1
    // or Rule 3 would reject the shape. The test asserts rejection.
    assert!(CFGVerifier::verify(&program).is_err());
}


// ─── Which defect is reported ───────────────────────────────────────

fn function(name: &str, entry: usize, blocks: Vec<SemanticBlock>) -> SemanticFunction {
    SemanticFunction { name: name.to_string(), params: vec![], return_type: Type::Void, blocks, entry_block: entry, is_extern: false }
}

fn block(id: usize, terminator: Option<Terminator>) -> SemanticBlock {
    SemanticBlock { id, instructions: vec![], terminator }
}

fn ret() -> Option<Terminator> {
    Some(Terminator::Return { value: None, type_: Type::Void })
}

#[test]
fn empty_function_reports_no_blocks() {
    let f = function("f", 0, vec![]);
    assert!(matches!(CFGVerifier::verify_function(&f), Err(CfgError::NoBlocks { .. })));
}

#[test]
fn duplicate_block_reports_its_id() {
    let f = function("f", 0, vec![block(0, ret()), block(3, ret()), block(3, ret())]);
    match CFGVerifier::verify_function(&f) {
        Err(CfgError::DuplicateBlockId { block, .. }) => assert_eq!(block, 3),
        other => panic!("unexpected: {:?}", other),
    }
}

#[test]
fn missing_entry_is_reported() {
    let f = function("f", 7, vec![block(0, ret())]);
    match CFGVerifier::verify_function(&f) {
        Err(CfgError::EntryNotFound { entry, .. }) => assert_eq!(entry, 7),
        other => panic!("unexpected: {:?}", other),
    }
}

#[test]
fn jump_to_unknown_block_is_reported() {
    let f = function("f", 0, vec![block(0, Some(Terminator::Jump { block: 9 }))]);
    match CFGVerifier::verify_function(&f) {
        Err(CfgError::UnknownSuccessor { block, target, .. }) => {
            assert_eq!(block, 0);
            assert_eq!(target, 9);
        }
        other => panic!("unexpected: {:?}", other),
    }
}

#[test]
fn extern_function_needs_no_terminators() {
    let mut f = function("ext", 0, vec![block(0, None)]);
    f.is_extern = true;
    assert!(CFGVerifier::verify_function(&f).is_ok());
}

#[test]
fn duplicate_switch_target_is_reported() {
    let f = function(
        "f",
        0,
        vec![
            block(
                0,
                Some(Terminator::Switch {
                    value: TypedIRValue::Int(1),
                    cases: vec![(SemanticPattern::Wildcard, 1), (SemanticPattern::NoneCase, 1)],
                    default_block: None,
                }),
            ),
            block(1, ret()),
        ],
    );
    match CFGVerifier::verify_function(&f) {
        Err(CfgError::DuplicateSwitchTarget { target, .. }) => assert_eq!(target, 1),
        other => panic!("unexpected: {:?}", other),
    }
}

#[test]
fn fork_branches_with_inner_paths_to_join_are_accepted() {
    let f = function(
        "f",
        0,
        vec![
            block(0, Some(Terminator::Fork { blocks: vec![1, 2], join_block: 3 })),
            block(1, Some(Terminator::Jump { block: 4 })),
            block(2, Some(Terminator::Jump { block: 3 })),
            block(4, Some(Terminator::Jump { block: 3 })),
            block(3, ret()),
        ],
    );
    assert!(CFGVerifier::verify_function(&f).is_ok());
    let g = function(
        "g",
        0,
        vec![
            block(0, Some(Terminator::Fork { blocks: vec![1, 2], join_block: 3 })),
            block(1, Some(Terminator::Jump { block: 3 })),
            block(2, Some(Terminator::Branch { condition: TypedIRValue::Bool(true), then_block: 3, else_block: 3 })),
            block(3, ret()),
        ],
    );
    assert!(CFGVerifier::verify_function(&g).is_ok());
}

#[test]
fn duplicate_function_names_are_reported() {
    let mut program = SemanticProgram::new();
    program.functions.push(function("main", 0, vec![block(0, ret())]));
    program.functions.push(function("main", 0, vec![block(0, ret())]));
    match CFGVerifier::verify(&program) {
        Err(CfgError::DuplicateFunction { function }) => assert_eq!(function, "main"),
        other => panic!("unexpected: {:?}", other),
    }
}

#[test]
fn fork_successors_do_not_include_join() {
    let term = Terminator::Fork { blocks: vec![1, 2], join_block: 3 };
    let succs = term.successors();
    assert_eq!(succs, vec![1, 2]);
    assert!(!succs.contains(&3), "join block must not be a direct successor of the fork");
}

#[test]
fn fork_with_single_branch_has_single_successor() {
    let term = Terminator::Fork { blocks: vec![5], join_block: 9 };
    assert_eq!(term.successors(), vec![5]);
}

#[test]
fn cfg_error_messages_read_as_sentences() {
    let f = || "main".to_string();
    assert_eq!(CfgError::NoBlocks { function: f() }.message(), "Function 'main' has no blocks");
    assert_eq!(
        CfgError::UnknownSuccessor { function: f(), block: 3, target: 12 }.message(),
        "Function 'main' block 3 jumps to unknown block 12"
    );
    assert_eq!(
        CfgError::ForkBranchPredecessors { function: f(), fork: 0, branch: 2, count: 0 }.message(),
        "Function 'main' fork at block 0: branch 2 has no predecessor"
    );
    assert_eq!(
        CfgError::ForkBranchPredecessors { function: f(), fork: 0, branch: 2, count: 3 }.message(),
        "Function 'main' fork at block 0: branch 2 has 3 predecessor(s); expected exactly one (from the fork)"
    );
    assert_eq!(
        CfgError::ForkBranchReturns { function: f(), fork: 1, branch: 4 }.message(),
        "Function 'main' fork at block 1: branch 4 returns from the function, which the parallel model does not allow"
    );
    assert_eq!(CfgError::DuplicateFunction { function: f() }.message(), "Duplicate function name 'main'");
}
