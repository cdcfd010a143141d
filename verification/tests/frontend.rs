use lib::common::types::Type;
use lib::frontend::ast::{ExprId, TypeSyntax};
use lib::frontend::module_loader::{first_existing, module_file_name, LoadStep, ModuleError, ModuleLoader};

#[test]
fn expr_id_sentinel_is_unassigned() {
    assert!(!ExprId::unassigned().is_assigned());
    assert!(ExprId(0).is_assigned());
}

#[test]
fn type_syntax_reads_plain_names() {
    assert_eq!(TypeSyntax::from_string("Int"), TypeSyntax::Named("Int".to_string()));
    assert_eq!(TypeSyntax::from_string(""), TypeSyntax::Unknown);
}

#[test]
fn type_syntax_reads_generics_and_trims_arguments() {
    let t = TypeSyntax::from_string("Result< Int ,  List<String>>");
    assert_eq!(
        t,
        TypeSyntax::Generic {
            name: "Result".to_string(),
            args: vec![
                TypeSyntax::Named("Int".to_string()),
                TypeSyntax::Generic { name: "List".to_string(), args: vec![TypeSyntax::Named("String".to_string())] },
            ],
        }
    );
    assert_eq!(t.to_string_rep(), "Result<Int, List<String>>");
    assert_eq!(t.as_str(), "Result");
}

#[test]
fn type_syntax_reads_square_brackets() {
    assert_eq!(
        TypeSyntax::from_string("List[Int]"),
        TypeSyntax::Generic { name: "List".to_string(), args: vec![TypeSyntax::Named("Int".to_string())] }
    );
}

#[test]
fn empty_argument_list_reads_as_one_unknown() {
    assert_eq!(
        TypeSyntax::from_string("List<>"),
        TypeSyntax::Generic { name: "List".to_string(), args: vec![TypeSyntax::Unknown] }
    );
}

#[test]
fn type_syntax_denotes_types() {
    assert_eq!(TypeSyntax::Named("int".to_string()).to_type(), Type::Int);
    assert_eq!(TypeSyntax::Named("T".to_string()).to_type(), Type::TypeVar("T".to_string()));
    assert_eq!(TypeSyntax::Named("Self".to_string()).to_type(), Type::TypeVar("Self".to_string()));
    assert_eq!(TypeSyntax::Named("Widget".to_string()).to_type(), Type::Unknown);
    assert_eq!(TypeSyntax::from_string("LIST<Float>").to_type(), Type::list(Type::Float));
    assert_eq!(TypeSyntax::from_string("mut_borrow<Int>").to_type(), Type::mut_borrow(Type::Int));
    assert_eq!(
        TypeSyntax::from_string("Result<Int, String>").to_type(),
        Type::result(Type::Int, Type::String)
    );
    assert_eq!(TypeSyntax::from_string("Result<Int>").to_type(), Type::Unknown);
    assert_eq!(TypeSyntax::Unknown.to_type(), Type::Unknown);
}

#[test]
fn import_names_gain_the_module_suffix() {
    assert_eq!(module_file_name("util"), "util.gol");
    assert_eq!(module_file_name("util.gol"), "util.gol");
}

#[test]
fn candidates_cover_the_search_paths() {
    let mut loader = ModuleLoader::new();
    loader.add_search_path("lib");
    let cands = loader.import_candidates("util", "src/main.gol");
    assert_eq!(cands.len(), 3);
}

#[test]
fn resolving_picks_the_first_existing_candidate() {
    let cands = vec!["a/x.gol".to_string(), "b/x.gol".to_string(), "c/x.gol".to_string()];
    let existing = vec!["c/x.gol".to_string(), "b/x.gol".to_string()];
    assert_eq!(first_existing("x", &cands, &existing).unwrap(), "b/x.gol");
    match first_existing("x", &cands, &vec![]) {
        Err(ModuleError::NotFound { module }) => assert_eq!(module, "x"),
        other => panic!("unexpected: {:?}", other),
    }
}

#[test]
fn circular_import_is_detected() {
    let mut loader = ModuleLoader::new();
    loader.begin_import("/m/a.gol").unwrap();
    loader.begin_import("/m/b.gol").unwrap();
    match loader.check_load("/m/a.gol") {
        LoadStep::Cycle(c) => assert_eq!(c, vec!["/m/a.gol", "/m/b.gol", "/m/a.gol"]),
        other => panic!("unexpected: {:?}", other),
    }
    loader.end_import();
    loader.end_import();
    assert!(matches!(loader.check_load("/m/a.gol"), LoadStep::NeedsRead));
}

#[test]
fn loaded_modules_are_cached() {
    let mut loader = ModuleLoader::new();
    assert!(!loader.is_loaded("/m/t.gol"));
    loader.record_loaded("/m/t.gol", "procedure main".to_string());
    assert!(loader.is_loaded("/m/t.gol"));
    match loader.check_load("/m/t.gol") {
        LoadStep::Cached(s) => assert_eq!(s, "procedure main"),
        other => panic!("unexpected: {:?}", other),
    }
    assert_eq!(loader.get_loaded_modules(), vec!["/m/t.gol".to_string()]);
    loader.clear();
    assert!(!loader.is_loaded("/m/t.gol"));
    assert!(loader.get_loaded_modules().is_empty());
}

#[test]
fn module_error_messages_read_as_sentences() {
    use_module_errors();
}

fn use_module_errors() {
    let not_found = lib::frontend::module_loader::ModuleError::NotFound { module: "util".to_string() };
    assert_eq!(not_found.message(), "Module 'util' not found");
    let cycle = lib::frontend::module_loader::ModuleError::CircularImport {
        cycle: vec!["a.gol".to_string(), "b.gol".to_string(), "a.gol".to_string()],
    };
    assert_eq!(cycle.message(), "Circular import detected: a.gol -> b.gol -> a.gol");
}

#[test]
fn type_variables_are_found_inside_generics_and_functions() {
    let t = || Type::TypeVar("T".to_string());
    assert!(Type::Generic { name: "Box".to_string(), args: vec![t()] }.contains_type_var());
    assert!(Type::Function { params: vec![t()], return_type: Box::new(Type::Int) }.contains_type_var());
    assert!(Type::Function { params: vec![], return_type: Box::new(t()) }.contains_type_var());
    assert!(!Type::Function { params: vec![Type::Int], return_type: Box::new(Type::Bool) }.contains_type_var());
}

#[test]
fn written_types_read_back_as_themselves() {
    for text in ["Int", "List<Int>", "Map<String, List<Int>>", "Result<Option<T>, E>"] {
        let t = TypeSyntax::from_string(text);
        assert_eq!(t.to_string_rep(), text);
        assert_eq!(TypeSyntax::from_string(&t.to_string_rep()), t);
    }
}

#[test]
fn candidate_bases_are_the_importing_directory_then_the_search_paths() {
    let mut loader = ModuleLoader::new();
    loader.add_search_path("lib");
    assert_eq!(loader.candidate_bases("src/main.gol"), vec!["src".to_string(), ".".to_string(), "lib".to_string()]);
    assert_eq!(loader.candidate_bases(""), vec![".".to_string(), ".".to_string(), "lib".to_string()]);
}

#[test]
fn written_types_read_back_with_spaced_outer_names() {
    let outer = TypeSyntax::Generic {
        name: " Map ".to_string(),
        args: vec![
            TypeSyntax::Named("Int".to_string()),
            TypeSyntax::Generic { name: "List ".to_string(), args: vec![TypeSyntax::Named("Bool".to_string())] },
        ],
    };
    let text = outer.to_string_rep();
    assert_eq!(text, " Map <Int, List <Bool>>");
    assert_eq!(TypeSyntax::from_string(&text), outer);
    let plain = TypeSyntax::Named(" a b ".to_string());
    assert_eq!(TypeSyntax::from_string(&plain.to_string_rep()), plain);
}

#[test]
fn candidate_parts_pair_directories_with_the_module_file() {
    let mut loader = ModuleLoader::new();
    loader.add_search_path("lib");
    let parts = loader.import_candidate_parts("util", "src/main.gol");
    let bases = loader.candidate_bases("src/main.gol");
    assert_eq!(parts.len(), 3);
    assert_eq!(parts[0], ("src".to_string(), "util.gol".to_string()));
    for (k, (dir, file)) in parts.iter().enumerate() {
        assert_eq!(dir, &bases[k]);
        assert_eq!(file, "util.gol");
    }
    assert_eq!(parts[2].0, "lib");
    assert_eq!(loader.import_candidate_parts("m.gol", "")[0], (".".to_string(), "m.gol".to_string()));
}
