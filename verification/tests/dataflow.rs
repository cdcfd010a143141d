use lib::ir::cfg::dataflow::{build_cfg_from_blocks, Cfg, CfgBlock, CfgInstruction, FunctionCfg, OwnershipTransfer, Transfer};
use lib::ir::cfg::engine::DataflowEngine;
use lib::ir::cfg::state::{InitState, OwnershipState, SemanticState, VarState};

fn s(x: &str) -> String {
    x.to_string()
}

fn block(id: usize, instructions: Vec<CfgInstruction>) -> CfgBlock {
    CfgBlock { id, instructions }
}

fn graph(blocks: Vec<CfgBlock>, edges: &[(usize, usize)]) -> Cfg {
    let mut cfg = Cfg::new(0);
    for b in blocks {
        cfg.add_block(b);
    }
    for (from, to) in edges {
        cfg.add_edge(*from, *to);
    }
    cfg
}

fn messages(r: &lib::ir::cfg::engine::DataflowResult) -> Vec<String> {
    r.diagnostics.iter().map(|d| d.message.clone()).collect()
}

#[test]
fn build_cfg_records_edges_at_both_ends() {
    let cfg = build_cfg_from_blocks(3, &[(0, 1), (0, 2), (1, 2)]);
    assert_eq!(cfg.entry, 0);
    assert_eq!(cfg.blocks.len(), 3);
    assert_eq!(cfg.successors(0), &[1, 2]);
    assert_eq!(cfg.successors(1), &[2]);
    assert_eq!(cfg.predecessors(2), &[0, 1]);
    assert!(cfg.predecessors(0).is_empty());
    assert!(cfg.successors(7).is_empty());
}

#[test]
fn transfer_reports_use_after_move_in_one_block() {
    let b = block(4, vec![
        CfgInstruction::Declare { name: s("x") },
        CfgInstruction::Move { name: s("x") },
        CfgInstruction::Use { name: s("x") },
    ]);
    let r = OwnershipTransfer.transfer(&b, SemanticState::new());
    assert_eq!(r.diagnostics.len(), 1);
    assert_eq!(r.diagnostics[0].message, "E-MOVE-001: Use of moved 'x'");
    assert_eq!(r.diagnostics[0].block, 4);
    assert!(r.diagnostics[0].is_error);
    assert_eq!(
        r.outgoing.var_state(&s("x")),
        Some(VarState { init: InitState::Initialized, ownership: OwnershipState::Moved })
    );
}

#[test]
fn move_flows_into_successor() {
    let cfg = graph(
        vec![
            block(0, vec![CfgInstruction::Declare { name: s("x") }, CfgInstruction::Move { name: s("x") }]),
            block(1, vec![CfgInstruction::Use { name: s("x") }]),
        ],
        &[(0, 1)],
    );
    let r = DataflowEngine::new(OwnershipTransfer).run(&cfg);
    assert!(r.converged);
    assert!(r.has_errors());
    assert_eq!(messages(&r), vec![s("E-MOVE-001: Use of moved 'x'")]);
    assert_eq!(r.diagnostics[0].block, 1);
    assert_eq!(r.order, vec![0, 1]);
    assert!(r.visited.contains(&0) && r.visited.contains(&1));
}

#[test]
fn move_on_one_branch_is_maybe_moved_at_join() {
    let cfg = graph(
        vec![
            block(0, vec![CfgInstruction::Declare { name: s("x") }]),
            block(1, vec![CfgInstruction::Move { name: s("x") }]),
            block(2, vec![]),
            block(3, vec![CfgInstruction::Use { name: s("x") }]),
        ],
        &[(0, 1), (0, 2), (1, 3), (2, 3)],
    );
    let r = DataflowEngine::new(OwnershipTransfer).run(&cfg);
    assert!(r.converged);
    assert_eq!(messages(&r), vec![s("E-MOVE-002: Use of maybe-moved 'x'")]);
    let at_join = r.in_states.get(&3).unwrap();
    assert_eq!(
        at_join.var_state(&s("x")),
        Some(VarState { init: InitState::Initialized, ownership: OwnershipState::MaybeMoved })
    );
    assert_eq!(r.order, vec![0, 1, 2, 3]);
}

#[test]
fn clean_graph_has_no_errors() {
    let cfg = graph(
        vec![
            block(0, vec![CfgInstruction::Declare { name: s("x") }]),
            block(1, vec![CfgInstruction::Use { name: s("x") }, CfgInstruction::Return]),
        ],
        &[(0, 1)],
    );
    let r = DataflowEngine::new(OwnershipTransfer).run(&cfg);
    assert!(r.converged);
    assert!(!r.has_errors());
    assert!(r.diagnostics.is_empty());
}

#[test]
fn loop_reaches_a_fixpoint() {
    // 0 -> 1 -> 1 (loop) -> 2; the move inside the loop is seen on the
    // second trip round it.
    let cfg = graph(
        vec![
            block(0, vec![CfgInstruction::Declare { name: s("x") }]),
            block(1, vec![CfgInstruction::Use { name: s("x") }, CfgInstruction::Move { name: s("x") }]),
            block(2, vec![]),
        ],
        &[(0, 1), (1, 1), (1, 2)],
    );
    let r = DataflowEngine::new(OwnershipTransfer).run(&cfg);
    assert!(r.converged);
    assert!(r.has_errors());
    assert!(messages(&r).contains(&s("E-MOVE-002: Use of maybe-moved 'x'")));
    assert_eq!(r.order, vec![0, 1, 2]);
    let into_loop = r.in_states.get(&1).unwrap();
    assert_eq!(
        into_loop.var_state(&s("x")),
        Some(VarState { init: InitState::Initialized, ownership: OwnershipState::MaybeMoved })
    );
}

#[test]
fn unreachable_block_is_not_visited() {
    let cfg = graph(
        vec![
            block(0, vec![]),
            block(1, vec![CfgInstruction::Use { name: s("x") }]),
        ],
        &[],
    );
    let r = DataflowEngine::new(OwnershipTransfer).run(&cfg);
    assert!(r.converged);
    assert_eq!(r.order, vec![0]);
    assert!(!r.visited.contains(&1));
    assert!(r.in_states.get(&1).is_none());
}

#[test]
fn missing_entry_block_visits_nothing() {
    let cfg = Cfg::new(5);
    let r = DataflowEngine::new(OwnershipTransfer).run(&cfg);
    assert!(r.converged);
    assert!(r.order.is_empty());
    assert!(r.diagnostics.is_empty());
}

#[test]
fn run_all_seeds_parameters_and_labels_findings() {
    let f = FunctionCfg {
        name: s("f"),
        cfg: graph(
            vec![block(0, vec![CfgInstruction::Move { name: s("p") }, CfgInstruction::Use { name: s("p") }])],
            &[],
        ),
        params: vec![s("p")],
    };
    let g = FunctionCfg {
        name: s("g"),
        cfg: graph(vec![block(0, vec![CfgInstruction::Use { name: s("p") }])], &[]),
        params: vec![s("p")],
    };
    let r = DataflowEngine::new(OwnershipTransfer).run_all(&[f, g]);
    assert!(r.converged);
    assert_eq!(messages(&r), vec![s("[f] E-MOVE-001: Use of moved 'p'")]);
    assert_eq!(r.order, vec![0, 0]);
}

#[test]
fn run_all_reports_each_finding_once() {
    // The loop block is visited twice; its finding is reported once.
    let f = FunctionCfg {
        name: s("main"),
        cfg: graph(
            vec![
                block(0, vec![CfgInstruction::Declare { name: s("x") }]),
                block(1, vec![CfgInstruction::Unsupported { op: s("Spawn") }, CfgInstruction::Move { name: s("x") }]),
            ],
            &[(0, 1), (1, 1)],
        ),
        params: vec![],
    };
    let single = DataflowEngine::new(OwnershipTransfer).run(&f.cfg);
    let repeated = single
        .diagnostics
        .iter()
        .filter(|d| d.message.starts_with("E-UNSUPPORTED-001"))
        .count();
    assert!(repeated >= 2);
    let r = DataflowEngine::new(OwnershipTransfer).run_all(&[f]);
    let unsupported: Vec<String> = messages(&r).into_iter().filter(|m| m.contains("E-UNSUPPORTED-001")).collect();
    assert_eq!(
        unsupported,
        vec![s("[main] E-UNSUPPORTED-001: Unsupported IR operation in dataflow: Spawn (H fail-closed)")]
    );
}

use lib::common::types::Type;
use lib::ir::cfg::builder::build_cfgs_from_semantic_program;
use lib::ir::semantic_ir::{Instruction, SemanticBlock, SemanticFunction, SemanticProgram, Terminator, TypedIRValue};

fn var(n: &str) -> TypedIRValue {
    TypedIRValue::Variable(s(n), Type::Int)
}

fn lowering_program() -> SemanticProgram {
    let mut program = SemanticProgram::new();
    program.functions.push(SemanticFunction {
        name: s("puts"),
        params: vec![(s("text"), Type::String)],
        return_type: Type::Void,
        blocks: vec![],
        entry_block: 0,
        is_extern: true,
    });
    program.functions.push(SemanticFunction {
        name: s("main"),
        params: vec![(s("y"), Type::Int)],
        return_type: Type::Int,
        blocks: vec![
            SemanticBlock {
                id: 7,
                instructions: vec![
                    Instruction::Declare { name: s("x"), mutable: true, type_: Type::Int, value: TypedIRValue::Int(1) },
                    Instruction::Declare {
                        name: s("r"),
                        mutable: false,
                        type_: Type::Int,
                        value: TypedIRValue::Borrow { expr: Box::new(var("x")), target_type: Type::Int },
                    },
                    Instruction::Call {
                        func: s("f"),
                        args: vec![
                            TypedIRValue::MutBorrow { expr: Box::new(var("x")), target_type: Type::Int },
                            var("y"),
                            TypedIRValue::Int(3),
                        ],
                        result: Some(s("z")),
                    },
                    Instruction::Free { ptr: TypedIRValue::NullPtr },
                ],
                terminator: Some(Terminator::Branch { condition: var("z"), then_block: 8, else_block: 9 }),
            },
            SemanticBlock { id: 8, instructions: vec![], terminator: Some(Terminator::Jump { block: 9 }) },
            SemanticBlock {
                id: 9,
                instructions: vec![],
                terminator: Some(Terminator::Return { value: Some(var("x")), type_: Type::Int }),
            },
        ],
        entry_block: 7,
        is_extern: false,
    });
    program
}

#[test]
fn builder_skips_extern_functions_and_keeps_block_ids() {
    let cfgs = build_cfgs_from_semantic_program(&lowering_program());
    assert_eq!(cfgs.len(), 1);
    let f = &cfgs[0];
    assert_eq!(f.name, "main");
    assert_eq!(f.params, vec![s("y")]);
    assert_eq!(f.cfg.entry, 7);
    assert_eq!(f.cfg.blocks.len(), 3);
    assert_eq!(f.cfg.successors(7), &[8, 9]);
    assert_eq!(f.cfg.successors(8), &[9]);
    assert_eq!(f.cfg.predecessors(9), &[7, 8]);
    assert!(f.cfg.successors(9).is_empty());
}

#[test]
fn builder_lowers_instructions_to_ownership_operations() {
    let cfgs = build_cfgs_from_semantic_program(&lowering_program());
    let b = cfgs[0].cfg.blocks.get(&7).unwrap();
    let text: Vec<String> = b.instructions.iter().map(|i| format!("{:?}", i)).collect();
    assert_eq!(
        text,
        vec![
            s("Declare { name: \"x\" }"),
            s("Declare { name: \"r\" }"),
            s("Borrow { borrower: \"r\", place: \"x\", mutable: false }"),
            s("Borrow { borrower: \"__tmp_call_7_x\", place: \"x\", mutable: true }"),
            s("Use { name: \"y\" }"),
            s("Declare { name: \"z\" }"),
            s("Call { name: \"f\", args: [\"x\", \"y\"] }"),
            s("Unsupported { op: \"Free non-var NullPtr\" }"),
            s("Use { name: \"z\" }"),
        ]
    );
    let ret = cfgs[0].cfg.blocks.get(&9).unwrap();
    assert_eq!(ret.instructions.len(), 1);
    assert_eq!(format!("{:?}", ret.instructions[0]), "Use { name: \"x\" }");
}

#[test]
fn built_graph_runs_clean_with_parameters_seeded() {
    let cfgs = build_cfgs_from_semantic_program(&lowering_program());
    let r = DataflowEngine::new(OwnershipTransfer).run_all(&cfgs);
    assert!(r.converged);
    let msgs = messages(&r);
    assert!(msgs.contains(&s("[main] E-UNSUPPORTED-001: Unsupported IR operation in dataflow: Free non-var NullPtr (H fail-closed)")));
    assert!(!msgs.iter().any(|m| m.contains("uninitialized")));
}

#[test]
fn a_run_visits_the_entry_and_counts_its_steps() {
    let cfg = graph(
        vec![block(0, vec![CfgInstruction::Declare { name: s("x") }]), block(1, vec![CfgInstruction::Use { name: s("x") }])],
        &[(0, 1)],
    );
    let r = DataflowEngine::new(OwnershipTransfer).run(&cfg);
    assert!(r.converged);
    assert!(r.visited.contains(&0));
    assert_eq!(r.steps, 2);
}
