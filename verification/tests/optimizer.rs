use lib::common::types::Type;
use lib::ir::optimizer::Optimizer;
use lib::ir::semantic_ir::{Instruction, SemanticBinOp, SemanticBlock, SemanticFunction, SemanticProgram, Terminator, TypedIRValue};

fn block(id: usize, instructions: Vec<Instruction>, term: Terminator) -> SemanticBlock {
    SemanticBlock { id, instructions, terminator: Some(term) }
}

fn function(blocks: Vec<SemanticBlock>, entry: usize) -> SemanticFunction {
    SemanticFunction {
        name: "f".to_string(),
        params: vec![("cond".to_string(), Type::Bool)],
        return_type: Type::Void,
        blocks,
        entry_block: entry,
        is_extern: false,
    }
}

fn var(n: &str, t: Type) -> TypedIRValue {
    TypedIRValue::Variable(n.to_string(), t)
}

fn ret() -> Terminator {
    Terminator::Return { value: None, type_: Type::Void }
}

fn declare(name: &str, mutable: bool, value: TypedIRValue) -> Instruction {
    Instruction::Declare { name: name.to_string(), mutable, type_: Type::Int, value }
}

#[test]
fn unreachable_blocks_are_removed_in_order() {
    let mut f = function(
        vec![
            block(0, vec![], Terminator::Jump { block: 2 }),
            block(1, vec![], ret()),
            block(2, vec![], Terminator::Branch { condition: var("cond", Type::Bool), then_block: 0, else_block: 4 }),
            block(3, vec![], Terminator::Jump { block: 1 }),
        ],
        0,
    );
    let mut opt = Optimizer::new();
    opt.remove_unreachable_blocks(&mut f);
    let ids: Vec<usize> = f.blocks.iter().map(|b| b.id).collect();
    assert_eq!(ids, vec![0, 2]);
    assert_eq!(opt.stats().removed_blocks, 2);
}

#[test]
fn literal_branches_become_jumps() {
    let mut f = function(
        vec![
            block(0, vec![], Terminator::Branch { condition: TypedIRValue::Bool(true), then_block: 1, else_block: 2 }),
            block(1, vec![], Terminator::Branch { condition: TypedIRValue::Bool(false), then_block: 0, else_block: 2 }),
            block(2, vec![], Terminator::Branch { condition: var("cond", Type::Bool), then_block: 0, else_block: 1 }),
        ],
        0,
    );
    let mut opt = Optimizer::new();
    opt.simplify_branches(&mut f);
    assert!(matches!(f.blocks[0].terminator, Some(Terminator::Jump { block: 1 })));
    assert!(matches!(f.blocks[1].terminator, Some(Terminator::Jump { block: 2 })));
    assert!(matches!(f.blocks[2].terminator, Some(Terminator::Branch { .. })));
    assert_eq!(opt.stats().simplified_branches, 2);
}

#[test]
fn cycles_are_detected_only_when_reachable() {
    let looping = function(
        vec![
            block(0, vec![], Terminator::Jump { block: 1 }),
            block(1, vec![], Terminator::Branch { condition: var("cond", Type::Bool), then_block: 0, else_block: 2 }),
            block(2, vec![], ret()),
        ],
        0,
    );
    assert!(Optimizer::has_cfg_cycle(&looping));
    let straight = function(
        vec![
            block(0, vec![], Terminator::Jump { block: 1 }),
            block(1, vec![], ret()),
            block(5, vec![], Terminator::Jump { block: 5 }),
        ],
        0,
    );
    assert!(!Optimizer::has_cfg_cycle(&straight));
}

#[test]
fn dead_immutable_declarations_are_dropped_and_calls_kept() {
    let mut f = function(
        vec![block(
            0,
            vec![
                Instruction::Call {
                    func: "Math.abs".to_string(),
                    args: vec![TypedIRValue::Float((-1.0f64).to_bits())],
                    result: Some("unused".to_string()),
                },
                declare("unused", false, TypedIRValue::Void),
                declare("a", false, TypedIRValue::Int(1)),
                declare("b", false, var("a", Type::Int)),
                declare("c", false, TypedIRValue::Int(2)),
                declare("m", true, TypedIRValue::Int(3)),
                Instruction::Print { value: var("b", Type::Int) },
            ],
            ret(),
        )],
        0,
    );
    let mut opt = Optimizer::new();
    opt.dead_code_elimination(&mut f);
    let kept: Vec<String> = f.blocks[0]
        .instructions
        .iter()
        .map(|i| match i {
            Instruction::Declare { name, .. } => format!("declare {}", name),
            Instruction::Call { func, .. } => format!("call {}", func),
            Instruction::Print { .. } => "print".to_string(),
            _ => "other".to_string(),
        })
        .collect();
    assert_eq!(kept, vec!["call Math.abs", "declare a", "declare b", "declare m", "print"]);
    assert_eq!(opt.stats().eliminated_dead_code, 2);
}

#[test]
fn constants_are_propagated_within_a_block_only() {
    let mut f = function(
        vec![
            block(
                0,
                vec![
                    declare("x", true, TypedIRValue::Int(5)),
                    Instruction::Assign { target: "y".to_string(), value: var("x", Type::Int) },
                ],
                Terminator::Jump { block: 1 },
            ),
            block(
                1,
                vec![Instruction::Assign { target: "z".to_string(), value: var("x", Type::Int) }],
                ret(),
            ),
        ],
        0,
    );
    let mut opt = Optimizer::new();
    opt.constant_propagation(&mut f);
    assert!(matches!(
        &f.blocks[0].instructions[1],
        Instruction::Assign { value: TypedIRValue::Int(5), .. }
    ));
    assert!(matches!(
        &f.blocks[1].instructions[0],
        Instruction::Assign { value: TypedIRValue::Variable(n, _), .. } if n == "x"
    ));
    assert_eq!(opt.stats().propagated_constants, 1);
}

#[test]
fn propagation_forgets_targets_given_non_numeric_values() {
    let mut f = function(
        vec![block(
            0,
            vec![
                declare("s", false, TypedIRValue::String("hi".to_string())),
                declare("n", true, TypedIRValue::Int(1)),
                Instruction::Assign { target: "n".to_string(), value: var("s", Type::String) },
                Instruction::Assign { target: "k".to_string(), value: var("n", Type::Int) },
                Instruction::Assign {
                    target: "k".to_string(),
                    value: TypedIRValue::BinaryOp {
                        op: SemanticBinOp::Add,
                        left: Box::new(TypedIRValue::Int(1)),
                        right: Box::new(TypedIRValue::Int(2)),
                        result_type: Type::Int,
                    },
                },
            ],
            ret(),
        )],
        0,
    );
    let mut opt = Optimizer::new();
    opt.constant_propagation(&mut f);
    let is = &f.blocks[0].instructions;
    assert!(matches!(&is[2], Instruction::Assign { value: TypedIRValue::String(s), .. } if s == "hi"));
    assert!(matches!(&is[3], Instruction::Assign { value: TypedIRValue::Variable(n, _), .. } if n == "n"));
    assert_eq!(opt.stats().propagated_constants, 1);
}

/// The library's passes in the order of the optimizer's pipeline; constant
/// folding, which computes in floating point, is not among them, and the
/// programs below hold nothing for it to fold.
fn run_library_passes(program: &mut SemanticProgram) {
    let mut opt = Optimizer::new();
    for func in &mut program.functions {
        opt.remove_unreachable_blocks(func);
        opt.propagate_if_acyclic(func);
        opt.dead_code_elimination(func);
        opt.simplify_branches(func);
        opt.remove_unreachable_blocks(func);
    }
}

#[test]
fn constant_propagation_does_not_leak_across_branches() {
    let mut program = SemanticProgram::new();
    let entry = program.new_block_id();
    let then_id = program.new_block_id();
    let else_id = program.new_block_id();
    let merge_id = program.new_block_id();

    let func = SemanticFunction {
        name: "f".to_string(),
        params: vec![("cond".to_string(), Type::Bool)],
        return_type: Type::Float,
        blocks: vec![
            block(
                entry,
                vec![
                    Instruction::Declare {
                        name: "y".to_string(),
                        mutable: true,
                        type_: Type::Float,
                        value: TypedIRValue::Float(0.0f64.to_bits()),
                    },
                    Instruction::Declare {
                        name: "x".to_string(),
                        mutable: true,
                        type_: Type::Float,
                        value: TypedIRValue::Float(5.0f64.to_bits()),
                    },
                ],
                Terminator::Branch {
                    condition: TypedIRValue::Variable("cond".to_string(), Type::Bool),
                    then_block: then_id,
                    else_block: else_id,
                },
            ),
            block(
                then_id,
                vec![Instruction::Assign { target: "x".to_string(), value: TypedIRValue::Float(10.0f64.to_bits()) }],
                Terminator::Jump { block: merge_id },
            ),
            block(else_id, vec![], Terminator::Jump { block: merge_id }),
            block(
                merge_id,
                vec![Instruction::Assign {
                    target: "y".to_string(),
                    value: TypedIRValue::Variable("x".to_string(), Type::Float),
                }],
                Terminator::Return {
                    value: Some(TypedIRValue::Variable("y".to_string(), Type::Float)),
                    type_: Type::Float,
                },
            ),
        ],
        entry_block: entry,
        is_extern: false,
    };
    program.functions.push(func);

    run_library_passes(&mut program);

    let merge = program.functions[0]
        .blocks
        .iter()
        .find(|b| b.id == merge_id)
        .expect("merge block was removed");
    let assign = merge
        .instructions
        .iter()
        .find_map(|i| match i {
            Instruction::Assign { target, value } if target == "y" => Some(value),
            _ => None,
        })
        .expect("Assign to `y` was removed");
    assert!(
        matches!(assign, TypedIRValue::Variable(name, _) if name == "x"),
        "constant propagation leaked across branches: got {:?}",
        assign
    );
}

#[test]
fn dce_preserves_call_side_effects_even_when_result_unused() {
    let mut program = SemanticProgram::new();
    let entry = program.new_block_id();
    let func = SemanticFunction {
        name: "f".to_string(),
        params: vec![],
        return_type: Type::Void,
        blocks: vec![SemanticBlock {
            id: entry,
            instructions: vec![
                Instruction::Call {
                    func: "Math.abs".to_string(),
                    args: vec![TypedIRValue::Float((-1.0f64).to_bits())],
                    result: Some("unused".to_string()),
                },
                Instruction::Declare {
                    name: "unused".to_string(),
                    mutable: false,
                    type_: Type::Float,
                    value: TypedIRValue::Void,
                },
            ],
            terminator: Some(Terminator::Return { value: None, type_: Type::Void }),
        }],
        entry_block: entry,
        is_extern: false,
    };
    program.functions.push(func);

    run_library_passes(&mut program);

    let block = &program.functions[0].blocks[0];
    let call_still_there = block
        .instructions
        .iter()
        .any(|i| matches!(i, Instruction::Call { result: Some(name), .. } if name == "unused"));
    let declare_removed = !block
        .instructions
        .iter()
        .any(|i| matches!(i, Instruction::Declare { name, .. } if name == "unused"));
    assert!(call_still_there, "DCE removed the Call instruction; side effects were lost");
    assert!(declare_removed, "DCE should have removed the unused immutable Declare");
}

#[test]
fn a_freed_pointer_keeps_its_declaration() {
    let mut f = function(
        vec![block(
            0,
            vec![
                Instruction::Declare { name: "p".to_string(), mutable: false, type_: Type::Ptr, value: TypedIRValue::NullPtr },
                Instruction::Free { ptr: TypedIRValue::Variable("p".to_string(), Type::Ptr) },
            ],
            ret(),
        )],
        0,
    );
    let mut opt = Optimizer::new();
    opt.dead_code_elimination(&mut f);
    assert_eq!(f.blocks[0].instructions.len(), 2);
    assert_eq!(opt.stats().eliminated_dead_code, 0);
}

#[test]
fn propagation_is_skipped_on_a_cycle() {
    let mut looping = function(
        vec![
            block(0, vec![declare("x", true, TypedIRValue::Int(1)), Instruction::Assign { target: "y".to_string(), value: var("x", Type::Int) }], Terminator::Jump { block: 1 }),
            block(1, vec![], Terminator::Jump { block: 0 }),
        ],
        0,
    );
    let mut opt = Optimizer::new();
    assert!(!opt.propagate_if_acyclic(&mut looping));
    assert!(matches!(&looping.blocks[0].instructions[1], Instruction::Assign { value: TypedIRValue::Variable(n, _), .. } if n == "x"));

    let mut straight = function(
        vec![block(0, vec![declare("x", true, TypedIRValue::Int(1)), Instruction::Assign { target: "y".to_string(), value: var("x", Type::Int) }], ret())],
        0,
    );
    assert!(opt.propagate_if_acyclic(&mut straight));
    assert!(matches!(&straight.blocks[0].instructions[1], Instruction::Assign { value: TypedIRValue::Int(1), .. }));
}
