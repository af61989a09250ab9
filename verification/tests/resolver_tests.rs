use tsc_core::resolver::{parse_imports, ModuleResolver, ResolutionError};

fn graph(entries: &[(&str, &[&str])]) -> Vec<(String, Vec<String>)> {
    entries
        .iter()
        .map(|(p, is)| {
            (
                p.to_string(),
                is.iter().map(|s| s.to_string()).collect::<Vec<_>>(),
            )
        })
        .collect()
}

#[test]
fn resolving_twice_gives_the_same_order() {
    let g = graph(&[
        ("/a.ts", &["/b.ts", "/c.ts"]),
        ("/b.ts", &["/c.ts"]),
        ("/c.ts", &[]),
    ]);
    let mut r1 = ModuleResolver::new("/a.ts".to_string());
    r1.resolve_all(&g).unwrap();
    let mut r2 = ModuleResolver::new("/a.ts".to_string());
    r2.resolve_all(&g).unwrap();
    assert_eq!(r1.get_all_modules(), r2.get_all_modules());
    assert_eq!(r1.get_all_modules().len(), 3);
}

#[test]
fn an_import_cycle_terminates_and_visits_each_module_once() {
    let g = graph(&[("/a.ts", &["/b.ts"]), ("/b.ts", &["/a.ts"])]);
    let mut r = ModuleResolver::new("/a.ts".to_string());
    assert!(r.resolve_all(&g).is_ok());
    let visited = r.get_all_modules();
    assert_eq!(visited.len(), 2);
    assert!(visited.contains(&"/a.ts".to_string()));
    assert!(visited.contains(&"/b.ts".to_string()));
}

#[test]
fn a_diamond_graph_resolves_each_module_once() {
    let g = graph(&[
        ("/a.ts", &["/b.ts", "/c.ts"]),
        ("/b.ts", &["/d.ts"]),
        ("/c.ts", &["/d.ts"]),
        ("/d.ts", &[]),
    ]);
    let mut r = ModuleResolver::new("/a.ts".to_string());
    assert!(r.resolve_all(&g).is_ok());
    assert_eq!(r.get_all_modules().len(), 4);
}

#[test]
fn a_missing_module_fails_with_io() {
    let g = graph(&[("/a.ts", &["/missing.ts"])]);
    let mut r = ModuleResolver::new("/a.ts".to_string());
    match r.resolve_all(&g) {
        Err(ResolutionError::Io(p)) => assert_eq!(p, "/missing.ts"),
        other => panic!("expected an unreadable-module failure, got {:?}", other),
    }
}

#[test]
fn caller_driven_resolution_matches_the_pure_form() {
    let g = graph(&[("/a.ts", &["/b.ts"]), ("/b.ts", &[])]);
    let mut r = ModuleResolver::new("/a.ts".to_string());
    while let Some(path) = r.next_pending() {
        let imports = g
            .iter()
            .find(|(p, _)| *p == path)
            .map(|(_, is)| is.clone())
            .unwrap();
        r.record_module(&imports);
    }
    let mut pure = ModuleResolver::new("/a.ts".to_string());
    pure.resolve_all(&g).unwrap();
    assert_eq!(r.get_all_modules(), pure.get_all_modules());
}

#[test]
fn import_specifiers_are_scanned_in_order() {
    let source = "import { a } from \"./m\";\nimport b from \"./n\";\nconst x = 1;\n";
    let imports = parse_imports(source).unwrap();
    assert_eq!(imports, vec!["./m".to_string(), "./n".to_string()]);
}

#[test]
fn a_source_without_imports_scans_empty() {
    let imports = parse_imports("const x = 1;\n").unwrap();
    assert!(imports.is_empty());
}

#[test]
fn a_syntax_error_fails_the_scan() {
    assert!(parse_imports("import from from import {{{").is_none());
}
