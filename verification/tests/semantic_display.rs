use lib::common::types::Type;
use lib::ir::semantic_ir::display::{format_program, format_program_with, FormatMode, FormatOptions};
use lib::ir::semantic_ir::{
    Instruction, SemanticBlock, SemanticFunction, SemanticPattern, SemanticProgram, Terminator, TypedIRValue,
};

fn returning(id: usize) -> SemanticBlock {
    SemanticBlock { id, instructions: vec![], terminator: Some(Terminator::Return { value: None, type_: Type::Void }) }
}

fn function(name: &str, blocks: Vec<SemanticBlock>, entry: usize) -> SemanticFunction {
    SemanticFunction {
        name: name.to_string(),
        params: vec![],
        return_type: Type::Void,
        blocks,
        entry_block: entry,
        is_extern: false,
    }
}

#[test]
fn empty_program() {
    let program = SemanticProgram::new();
    assert_eq!(format_program(&program), "(no functions)\n");
}

#[test]
fn simple_main() {
    let mut program = SemanticProgram::new();
    let entry = program.new_block_id();
    let func = function(
        "main",
        vec![SemanticBlock {
            id: entry,
            instructions: vec![
                Instruction::Declare {
                    name: "x".to_string(),
                    mutable: true,
                    type_: Type::Int,
                    value: TypedIRValue::Int(5),
                },
                Instruction::Print { value: TypedIRValue::Variable("x".to_string(), Type::Int) },
            ],
            terminator: Some(Terminator::Return { value: None, type_: Type::Void }),
        }],
        entry,
    );
    program.functions.push(func);

    let out = format_program(&program);
    assert!(out.contains("function main() -> Void"), "got:\n{}", out);
    assert!(out.contains("[0] (entry):"), "got:\n{}", out);
    assert!(out.contains("var x: Int := 5"), "got:\n{}", out);
    assert!(out.contains("print(x)"), "got:\n{}", out);
    assert!(out.contains("return"), "got:\n{}", out);
}

#[test]
fn branch_shows_successors() {
    let mut program = SemanticProgram::new();
    let entry = program.new_block_id();
    let then_id = program.new_block_id();
    let else_id = program.new_block_id();
    let func = function(
        "f",
        vec![
            SemanticBlock {
                id: entry,
                instructions: vec![],
                terminator: Some(Terminator::Branch {
                    condition: TypedIRValue::Bool(true),
                    then_block: then_id,
                    else_block: else_id,
                }),
            },
            returning(then_id),
            returning(else_id),
        ],
        entry,
    );
    program.functions.push(func);

    let out = format_program(&program);
    assert!(out.contains("branch true ? ["), "got:\n{}", out);
}

#[test]
fn borrow_and_deref_rendering() {
    let mut program = SemanticProgram::new();
    let entry = program.new_block_id();
    let func = function(
        "f",
        vec![SemanticBlock {
            id: entry,
            instructions: vec![Instruction::Print {
                value: TypedIRValue::Deref {
                    expr: Box::new(TypedIRValue::Borrow {
                        expr: Box::new(TypedIRValue::Variable("x".to_string(), Type::Int)),
                        target_type: Type::borrow(Type::Int),
                    }),
                    target_type: Type::Int,
                },
            }],
            terminator: Some(Terminator::Return { value: None, type_: Type::Void }),
        }],
        entry,
    );
    program.functions.push(func);

    let out = format_program(&program);
    assert!(out.contains("print(*&x)"), "got:\n{}", out);
}

#[test]
fn cfg_mode_shows_successors() {
    let mut program = SemanticProgram::new();
    let entry = program.new_block_id();
    let then_id = program.new_block_id();
    let else_id = program.new_block_id();
    let join = program.new_block_id();
    let func = function(
        "f",
        vec![
            SemanticBlock {
                id: entry,
                instructions: vec![],
                terminator: Some(Terminator::Branch {
                    condition: TypedIRValue::Bool(true),
                    then_block: then_id,
                    else_block: else_id,
                }),
            },
            SemanticBlock { id: then_id, instructions: vec![], terminator: Some(Terminator::Jump { block: join }) },
            SemanticBlock { id: else_id, instructions: vec![], terminator: Some(Terminator::Jump { block: join }) },
            returning(join),
        ],
        entry,
    );
    program.functions.push(func);

    let out = format_program_with(&program, FormatOptions { mode: FormatMode::Cfg });
    assert!(out.contains("[0] (entry) -> ["), "got:\n{}", out);
    assert!(out.contains("-> return"), "got:\n{}", out);
    // No instructions in CFG mode.
    assert!(!out.contains("branch true ? ["), "got:\n{}", out);
}

#[test]
fn whole_listing_of_a_small_program() {
    let mut program = SemanticProgram::new();
    let mut f = function(
        "g",
        vec![
            SemanticBlock {
                id: 0,
                instructions: vec![
                    Instruction::Call {
                        func: "h".to_string(),
                        args: vec![TypedIRValue::PtrLiteral(255), TypedIRValue::Int(-3)],
                        result: Some("r".to_string()),
                    },
                    Instruction::Free { ptr: TypedIRValue::NullPtr },
                ],
                terminator: Some(Terminator::Switch {
                    value: TypedIRValue::Variable("r".to_string(), Type::Int),
                    cases: vec![(SemanticPattern::SomeBinding { binding: "v".to_string() }, 1), (SemanticPattern::Wildcard, 2)],
                    default_block: Some(2),
                }),
            },
            SemanticBlock { id: 1, instructions: vec![], terminator: None },
        ],
        0,
    );
    f.params = vec![("a".to_string(), Type::list(Type::String)), ("b".to_string(), Type::Bool)];
    f.is_extern = true;
    program.functions.push(f);
    program.functions.push(function("k", vec![], 0));
    program.ffi_symbols = vec![("zeta".to_string(), "z_c".to_string()), ("alpha".to_string(), "a_c".to_string())];
    program.ffi_libraries = vec!["m".to_string(), "c".to_string()];

    assert_eq!(
        format_program(&program),
        "function g(a: List(String), b: Bool) -> Void  (extern)\n  [0] (entry):\n    r := h(0xff, -3)\n    free(null)\n    switch r { case Some(v) -> [1], case _ -> [2], default -> [2] }\n  [1]:\n\nfunction k() -> Void\n\nffi symbols:\n  alpha -> a_c\n  zeta -> z_c\nffi libraries: m, c\n"
    );
    assert_eq!(
        format_program_with(&program, FormatOptions { mode: FormatMode::Cfg }),
        "function g(a: List(String), b: Bool) -> Void  (extern)\n  [0] (entry) -> [1], [2], [2]\n  [1] -> (no terminator)\n\nfunction k() -> Void\n\nffi symbols:\n  alpha -> a_c\n  zeta -> z_c\nffi libraries: m, c\n"
    );
    assert_eq!(
        format_program_with(&program, FormatOptions { mode: FormatMode::Signatures }),
        "function g(a: List(String), b: Bool) -> Void  (extern)\n\nfunction k() -> Void\n\nffi symbols:\n  alpha -> a_c\n  zeta -> z_c\nffi libraries: m, c\n"
    );
}
