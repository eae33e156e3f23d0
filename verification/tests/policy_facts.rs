use armerge::objects::syms::ObjectSyms;
use armerge::objects::syms::SymKind;
use armerge::objects::syms::SymbolInfo;
use armerge::ArmergeKeepOrRemove;
use armerge::MergeError;
use armerge::Pattern;

fn sym(name: &str, kind: SymKind, undefined: bool, global: bool, weak: bool) -> SymbolInfo {
    SymbolInfo { name: Some(name.to_string()), kind, undefined, global, weak }
}

#[test]
fn pattern_matching_goes_by_the_source() {
    let p = Pattern::new("^pub_api$").unwrap();
    assert!(p.is_match("pub_api"));
    assert!(!p.is_match("pub_api2"));
    assert!(!p.is_match("helper"));
    assert_eq!(p.as_str(), "^pub_api$");
}

#[test]
fn pattern_rejects_bad_regex() {
    assert!(Pattern::new("(").is_err());
}

#[test]
fn facts_keep_mode() {
    let syms = vec![
        sym("pub_api", SymKind::Text, false, true, false),
        sym("helper", SymKind::Text, false, true, false),
        sym("local_thing", SymKind::Text, false, false, false),
        sym("external", SymKind::Unknown, true, true, false),
    ];
    let pats = vec![Pattern::new("^pub_api$").unwrap()];
    let facts = ObjectSyms::from_symbols(&syms, ArmergeKeepOrRemove::KeepSymbols, &pats);
    assert!(facts.has_exported_symbols);
    assert_eq!(facts.globals, vec!["pub_api".to_string(), "helper".to_string()]);
    assert_eq!(facts.undefineds, vec!["external".to_string()]);
    assert!(facts.deps.is_empty());
}

#[test]
fn facts_keep_mode_no_match() {
    let syms = vec![sym("foo", SymKind::Text, false, true, false)];
    let pats = vec![Pattern::new("^nonexistent$").unwrap()];
    let facts = ObjectSyms::from_symbols(&syms, ArmergeKeepOrRemove::KeepSymbols, &pats);
    assert!(!facts.has_exported_symbols);
}

#[test]
fn facts_remove_mode() {
    // a symbol survives the removal, so the object counts as exported
    let syms = vec![
        sym("keep_me", SymKind::Text, false, true, false),
        sym("hide_me", SymKind::Text, false, true, false),
    ];
    let pats = vec![Pattern::new("^hide_me$").unwrap()];
    let facts = ObjectSyms::from_symbols(&syms, ArmergeKeepOrRemove::RemoveSymbols, &pats);
    assert!(facts.has_exported_symbols);

    // every global matches the removal: nothing is left exported
    let syms = vec![sym("hide_me", SymKind::Text, false, true, false)];
    let facts = ObjectSyms::from_symbols(&syms, ArmergeKeepOrRemove::RemoveSymbols, &pats);
    assert!(!facts.has_exported_symbols);
}

#[test]
fn facts_ignore_unconsidered_kinds() {
    let syms = vec![sym("whatever", SymKind::Other, false, true, false)];
    let pats = vec![Pattern::new(".*").unwrap()];
    let facts = ObjectSyms::from_symbols(&syms, ArmergeKeepOrRemove::KeepSymbols, &pats);
    assert!(!facts.has_exported_symbols);
    assert!(facts.globals.is_empty());
}

#[test]
fn weak_symbols_count_as_defined() {
    let syms = vec![sym("weak_def", SymKind::Data, false, false, true)];
    let pats: Vec<Pattern> = Vec::new();
    let facts = ObjectSyms::from_symbols(&syms, ArmergeKeepOrRemove::KeepSymbols, &pats);
    assert_eq!(facts.globals, vec!["weak_def".to_string()]);
    // weak but not global: it does not anchor retention
    assert!(!facts.has_exported_symbols);
}

#[test]
fn dependency_edges() {
    let pats: Vec<Pattern> = Vec::new();
    let a = ObjectSyms::from_symbols(
        &vec![
            sym("pub", SymKind::Text, false, true, false),
            sym("aux", SymKind::Unknown, true, true, false),
        ],
        ArmergeKeepOrRemove::KeepSymbols,
        &pats,
    );
    let b = ObjectSyms::from_symbols(
        &vec![sym("aux", SymKind::Text, false, true, false)],
        ArmergeKeepOrRemove::KeepSymbols,
        &pats,
    );
    let c = ObjectSyms::from_symbols(
        &vec![sym("dead", SymKind::Text, false, true, false)],
        ArmergeKeepOrRemove::KeepSymbols,
        &pats,
    );
    assert!(a.has_dependency(&b));
    assert!(!b.has_dependency(&a));
    assert!(!a.has_dependency(&c));

    let mut objs = vec![a, b, c];
    ObjectSyms::check_dependencies(&mut objs);
    assert_eq!(objs[0].deps, vec![1usize]);
    assert!(objs[1].deps.is_empty());
    assert!(objs[2].deps.is_empty());
}

#[test]
fn invalid_object_error_names_the_path() {
    let pats: Vec<Pattern> = Vec::new();
    let garbage: Vec<u8> = vec![1, 2, 3, 4];
    let r = ObjectSyms::new("scratch/x.o", &garbage, ArmergeKeepOrRemove::KeepSymbols, &pats);
    match r {
        Err(MergeError::InvalidObject { path, .. }) => assert_eq!(path, "scratch/x.o"),
        _ => panic!("expected an InvalidObject error"),
    }
}
