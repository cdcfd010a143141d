use lib::common::types::Type;
use lib::frontend::ast::ExprId;
use lib::ir::instantiation_plan::{
    mangled_name, mangled_type_name, GenericFunction, Instantiation, InstantiationPlan, Specialization,
};
use std::collections::HashMap;
use lib::common::span::Span;
use lib::frontend::ast::{Expr, ExprKind, FunctionDecl, Stmt};
use lib::ir::call_ids::collect_function_call_ids;

fn inst(call_site: u32, function: &str, type_params: &[&str], type_args: Vec<Type>) -> Instantiation {
    Instantiation {
        call_site: ExprId(call_site),
        function: function.to_string(),
        type_params: type_params.iter().map(|s| s.to_string()).collect(),
        type_args,
    }
}

fn bindings_map(spec: &Specialization) -> HashMap<String, Type> {
    spec.bindings().into_iter().collect()
}

#[test]
fn empty_instantiations_produce_empty_plan() {
    let plan = InstantiationPlan::from_instantiations(&[]);
    assert!(plan.is_empty());
}

#[test]
fn one_concrete_instantiation_creates_one_specialization() {
    let insts = vec![inst(42, "identity", &["T"], vec![Type::Int])];
    let plan = InstantiationPlan::from_instantiations(&insts);

    assert_eq!(plan.all_specializations().len(), 1);

    let spec = plan.specialization_for("identity", &[Type::Int]).unwrap();
    assert_eq!(spec.mangled_name, "identity_Int");
    assert_eq!(spec.type_args, vec![Type::Int]);
    assert_eq!(spec.function, "identity");

    let mut expected = HashMap::new();
    expected.insert("T".to_string(), Type::Int);
    assert_eq!(bindings_map(spec), expected);
}

#[test]
fn reference_type_arg_mangles_with_borrow_prefix() {
    let insts = vec![inst(42, "identity", &["T"], vec![Type::borrow(Type::Float)])];
    let plan = InstantiationPlan::from_instantiations(&insts);

    let spec = plan.specialization_for("identity", &[Type::borrow(Type::Float)]).unwrap();
    assert_eq!(spec.mangled_name, "identity_Borrow_Float");
}

#[test]
fn two_instantiations_of_same_function_produce_two_specializations() {
    let insts = vec![
        inst(10, "identity", &["T"], vec![Type::Int]),
        inst(20, "identity", &["T"], vec![Type::Float]),
    ];
    let plan = InstantiationPlan::from_instantiations(&insts);

    assert_eq!(plan.all_specializations().len(), 2);
    assert!(plan.specialization_for("identity", &[Type::Int]).is_some());
    assert!(plan.specialization_for("identity", &[Type::Float]).is_some());
}

#[test]
fn duplicate_concrete_instantiations_are_deduplicated() {
    let insts = vec![
        inst(10, "identity", &["T"], vec![Type::Int]),
        inst(20, "identity", &["T"], vec![Type::Int]),
    ];
    let plan = InstantiationPlan::from_instantiations(&insts);

    assert_eq!(plan.all_specializations().len(), 1);
    assert!(plan.call_site(ExprId(10)).is_some());
    assert!(plan.call_site(ExprId(20)).is_some());
}

#[test]
fn symbolic_instantiation_records_call_site_but_no_specialization() {
    let insts = vec![inst(99, "g", &["U"], vec![Type::TypeVar("T".to_string())])];
    let plan = InstantiationPlan::from_instantiations(&insts);

    assert!(plan.call_site(ExprId(99)).is_some());
    assert_eq!(plan.all_specializations().len(), 0);
}

#[test]
fn unknown_type_arg_blocks_specialization() {
    let insts = vec![inst(99, "identity", &["T"], vec![Type::Unknown])];
    let plan = InstantiationPlan::from_instantiations(&insts);
    assert_eq!(plan.all_specializations().len(), 0);
}

#[test]
fn unresolved_inside_function_or_generic_blocks_specialization() {
    let insts = vec![
        inst(
            10,
            "f",
            &["T"],
            vec![Type::Function {
                params: vec![Type::TypeVar("T".to_string())],
                return_type: Box::new(Type::Int),
            }],
        ),
        inst(20, "g", &["T"], vec![Type::generic("Box", vec![Type::TypeVar("T".to_string())])]),
    ];
    let plan = InstantiationPlan::from_instantiations(&insts);
    assert_eq!(plan.all_specializations().len(), 0);
}

#[test]
fn call_site_entries_are_keyed_by_expr_id() {
    let insts = vec![inst(10, "f", &["T"], vec![Type::Int]), inst(20, "g", &["U"], vec![Type::Float])];
    let plan = InstantiationPlan::from_instantiations(&insts);

    assert_eq!(plan.call_site_count(), 2);
    assert_eq!(plan.call_site(ExprId(10)).unwrap().function, "f");
    assert_eq!(plan.call_site(ExprId(20)).unwrap().function, "g");
}

#[test]
fn mangler_covers_every_scalar() {
    assert_eq!(mangled_type_name(&Type::Int), "Int");
    assert_eq!(mangled_type_name(&Type::Float), "Float");
    assert_eq!(mangled_type_name(&Type::String), "String");
    assert_eq!(mangled_type_name(&Type::Bool), "Bool");
    assert_eq!(mangled_type_name(&Type::Void), "Void");
    assert_eq!(mangled_type_name(&Type::Ptr), "Ptr");
    assert_eq!(mangled_type_name(&Type::Never), "Never");
}

#[test]
fn mangler_distinguishes_tuple_shapes() {
    let a = mangled_type_name(&Type::tuple(vec![Type::Int, Type::Float]));
    let b = mangled_type_name(&Type::tuple(vec![Type::tuple(vec![Type::Int]), Type::Float]));
    assert_ne!(a, b);
}

#[test]
fn mangler_distinguishes_array_sizes() {
    let a = mangled_type_name(&Type::array(Type::Int, 3));
    let b = mangled_type_name(&Type::array(Type::Int, 4));
    assert_ne!(a, b);
}

#[test]
fn mangler_distinguishes_function_signatures() {
    let a = mangled_type_name(&Type::Function {
        params: vec![Type::Int, Type::Float],
        return_type: Box::new(Type::Bool),
    });
    let b = mangled_type_name(&Type::Function { params: vec![Type::Int], return_type: Box::new(Type::Float) });
    assert_ne!(a, b);
}

#[test]
fn mangler_distinguishes_generic_argument_counts() {
    let a = mangled_type_name(&Type::generic("Box", vec![Type::Int]));
    let b = mangled_type_name(&Type::generic("Box", vec![Type::Int, Type::Float]));
    assert_ne!(a, b);
}

#[test]
fn mangler_no_unknown_fallback_for_ptr() {
    assert_ne!(mangled_type_name(&Type::Ptr), mangled_type_name(&Type::Unknown));
}

// ─── Further cases ──────────────────────────────────────────────────

#[test]
fn mangled_names_of_composites() {
    assert_eq!(mangled_type_name(&Type::list(Type::Int)), "List_Int");
    assert_eq!(mangled_type_name(&Type::option(Type::String)), "Option_String");
    assert_eq!(mangled_name("id", &[Type::Int, Type::Bool]), "id_Int_Bool");
}

#[test]
fn specialization_bindings_pair_params_with_args() {
    let spec = Specialization::new(
        "pair".to_string(),
        vec!["A".to_string(), "B".to_string()],
        vec![Type::Int, Type::String],
    );
    assert_eq!(spec.mangled_name, mangled_name("pair", &[Type::Int, Type::String]));
    assert_eq!(
        spec.bindings(),
        vec![("A".to_string(), Type::Int), ("B".to_string(), Type::String)]
    );
}

#[test]
fn closure_noop_on_plan_with_no_generic_calls() {
    let insts = vec![inst(10, "f", &["T"], vec![Type::Int])];
    let mut plan = InstantiationPlan::from_instantiations(&insts);
    let before = plan.specialization_count();
    assert!(plan.close(&[], 100));
    assert_eq!(plan.specialization_count(), before);
}

fn generic(name: &str, params: &[&str], calls: &[u32]) -> GenericFunction {
    GenericFunction {
        name: name.to_string(),
        type_params: params.iter().map(|s| s.to_string()).collect(),
        call_ids: calls.iter().map(|c| ExprId(*c)).collect(),
    }
}

#[test]
fn closure_materializes_two_hop_specialization() {
    // f<T> calls g<T> at site 1, g<T> calls h<T> at site 2; main calls f<Int>.
    let insts = vec![
        inst(100, "f", &["T"], vec![Type::Int]),
        inst(1, "g", &["T"], vec![Type::TypeVar("T".to_string())]),
        inst(2, "h", &["T"], vec![Type::TypeVar("T".to_string())]),
    ];
    let functions = vec![generic("f", &["T"], &[1]), generic("g", &["T"], &[2]), generic("h", &["T"], &[])];
    let mut plan = InstantiationPlan::from_instantiations(&insts);
    assert!(plan.specialization_for("g", &[Type::Int]).is_none());
    assert!(plan.close(&functions, 100));
    assert!(plan.specialization_for("f", &[Type::Int]).is_some());
    assert!(plan.specialization_for("g", &[Type::Int]).is_some());
    assert!(plan.specialization_for("h", &[Type::Int]).is_some());
    assert_eq!(plan.specialization_count(), 3);
}

#[test]
fn closure_is_idempotent() {
    let insts = vec![
        inst(100, "f", &["T"], vec![Type::list(Type::Int)]),
        inst(1, "g", &["U"], vec![Type::TypeVar("T".to_string())]),
    ];
    let functions = vec![generic("f", &["T"], &[1]), generic("g", &["U"], &[])];
    let mut plan = InstantiationPlan::from_instantiations(&insts);
    assert!(plan.close(&functions, 100));
    let first: Vec<String> = plan.all_specializations().iter().map(|s| s.mangled_name.clone()).collect();
    assert!(plan.close(&functions, 100));
    let second: Vec<String> = plan.all_specializations().iter().map(|s| s.mangled_name.clone()).collect();
    assert_eq!(first, second);
    assert!(first.contains(&"g_List_Int".to_string()));
}

#[test]
fn names_with_underscores_are_escaped_and_never_collide() {
    assert_eq!(mangled_name("a_Int", &[Type::Int]), "a$uInt_Int");
    assert_ne!(mangled_name("a_Int", &[Type::Int]), mangled_name("a", &[Type::Int, Type::Int]));
    let a = mangled_type_name(&Type::generic("a_1_TypeVar_q", vec![]));
    let b = mangled_type_name(&Type::generic("a", vec![Type::TypeVar("q_0_".to_string())]));
    assert_ne!(a, b);
    assert_eq!(mangled_type_name(&Type::TypeVar("x$y".to_string())), "TypeVar_x$$y");
}

#[test]
fn closure_stops_short_only_with_that_many_specializations() {
    // f<T> calls f<List<T>>: the closure never ends.
    let insts = vec![
        inst(100, "f", &["T"], vec![Type::Int]),
        inst(1, "f", &["T"], vec![Type::list(Type::TypeVar("T".to_string()))]),
    ];
    let functions = vec![generic("f", &["T"], &[1])];
    let mut plan = InstantiationPlan::from_instantiations(&insts);
    assert!(!plan.close(&functions, 5));
    assert!(plan.specialization_count() >= 5);
    assert!(plan.specialization_for("f", &[Type::list(Type::list(Type::Int))]).is_some());
}

fn call(id: u32, name: &str, args: Vec<Expr>) -> Expr {
    Expr { id: ExprId(id), kind: ExprKind::FunctionCall { name: name.to_string(), args, span: Span::point(1, 1) } }
}

#[test]
fn call_ids_are_collected_in_preorder() {
    let sp = Span::point(1, 1);
    let int = |v: i64| Expr { id: ExprId(0), kind: ExprKind::Int(v, sp) };
    let body = vec![
        Stmt::VarDecl { name: "x".to_string(), value: call(1, "f", vec![call(2, "g", vec![int(1)])]), type_annotation: None, mutable: false, span: sp },
        Stmt::Expression(Expr {
            id: ExprId(9),
            kind: ExprKind::If {
                condition: Box::new(call(3, "h", vec![])),
                then_branch: Box::new(int(2)),
                else_branch: Some(Box::new(call(4, "k", vec![]))),
                span: sp,
            },
        }),
        Stmt::Break(sp),
    ];
    let ids: Vec<u32> = collect_function_call_ids(&body).iter().map(|e| e.0).collect();
    assert_eq!(ids, vec![1, 2, 3, 4]);

    let decl = FunctionDecl {
        name: "main".to_string(),
        params: vec![],
        return_type: None,
        body,
        is_extern: false,
        ffi_info: None,
        type_params: vec!["T".to_string()],
        where_clauses: vec![],
    };
    let g = GenericFunction::of_decl(&decl);
    assert_eq!(g.name, "main");
    assert_eq!(g.type_params, vec!["T".to_string()]);
    assert_eq!(g.call_ids.iter().map(|e| e.0).collect::<Vec<u32>>(), vec![1, 2, 3, 4]);
}

fn decl(name: &str, params: &[&str], body: Vec<Stmt>) -> FunctionDecl {
    FunctionDecl {
        name: name.to_string(),
        params: vec![],
        return_type: None,
        body,
        is_extern: false,
        ffi_info: None,
        type_params: params.iter().map(|p| p.to_string()).collect(),
        where_clauses: vec![],
    }
}

#[test]
fn closure_over_declarations_finds_the_calls_in_their_bodies() {
    let insts = vec![
        inst(100, "f", &["T"], vec![Type::Int]),
        inst(1, "g", &["U"], vec![Type::TypeVar("T".to_string())]),
    ];
    let functions = vec![
        decl("f", &["T"], vec![Stmt::Expression(call(1, "g", vec![]))]),
        decl("g", &["U"], vec![]),
    ];
    let mut plan = InstantiationPlan::from_instantiations(&insts);
    assert!(plan.specialization_for("g", &[Type::Int]).is_none());
    assert!(plan.close_decls(&functions, 100));
    assert!(plan.specialization_for("g", &[Type::Int]).is_some());
}
