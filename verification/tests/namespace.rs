use bugstalker::debugger::debugee::dwarf::NamespaceHierarchy;

#[test]
fn test_namespace_from_mangled() {
    struct TestCase {
        mangled: &'static str,
        expected_ns: Vec<String>,
        expected_fn: &'static str,
    }

    let test_cases = vec![
        TestCase {
            mangled: "_ZN5tokio7runtime4task3raw7RawTask4poll17h7b89afb116da4cf2E",
            expected_ns: vec![
                "tokio".to_string(),
                "runtime".to_string(),
                "task".to_string(),
                "raw".to_string(),
                "RawTask".to_string(),
            ],
            expected_fn: "poll",
        },
        TestCase {
            mangled: "poll",
            expected_ns: vec![],
            expected_fn: "poll",
        },
    ];

    for tc in test_cases {
        let (ns, name) = NamespaceHierarchy::from_mangled(tc.mangled);
        assert_eq!(ns.as_parts(), tc.expected_ns);
        assert_eq!(name, tc.expected_fn);
    }
}

#[test]
fn namespace_from_demangled_splits_at_path_separators() {
    let (ns, name) = NamespaceHierarchy::from_demangled("std::collections::HashMap::new");
    assert_eq!(ns.as_parts(), vec!["std", "collections", "HashMap"]);
    assert_eq!(name, "new");

    let (ns, name) = NamespaceHierarchy::from_demangled("main");
    assert!(ns.is_empty());
    assert_eq!(name, "main");
}

#[test]
fn namespace_contains_consecutive_parts() {
    let ns = NamespaceHierarchy::new(&["a", "b", "c", "d"]);
    assert!(ns.contains(&["b", "c"]));
    assert!(ns.contains(&["a", "b", "c", "d"]));
    assert!(!ns.contains(&["a", "c"]));
    assert!(!ns.contains(&["d", "e"]));
    assert_eq!(ns.join("::"), "a::b::c::d");
}

#[test]
fn namespace_clone_keeps_parts() {
    let ns = NamespaceHierarchy::from_parts(vec!["x".to_string(), "y".to_string()]);
    let c = ns.clone_hierarchy();
    assert_eq!(c.as_parts(), ns.as_parts());
    assert!(NamespaceHierarchy::empty().is_empty());
}

use bugstalker::debugger::debugee::dwarf::unit::parser::DieTree;

#[test]
fn namespace_of_an_entry() {
    // 0 unit, 1 ns "std", 2 ns "io", 3 struct "Stdin", 4 fn "read" inside the struct, 5 ns without a name, 6 fn
    let mut tree = DieTree::new();
    tree.push(0);
    tree.push(1);
    tree.push(1);
    tree.push(1);
    tree.push(1);
    tree.push(-3);
    tree.push(1);
    let is_ns = [false, true, true, false, false, true, false];
    let names = [
        None,
        Some("std".to_string()),
        Some("io".to_string()),
        Some("Stdin".to_string()),
        Some("read".to_string()),
        None,
        Some("f".to_string()),
    ];
    assert_eq!(NamespaceHierarchy::for_die(&tree, &is_ns, &names, 3).as_parts(), vec!["std", "io"]);
    // a type between the entry and the namespaces ends the chain
    assert!(NamespaceHierarchy::for_die(&tree, &is_ns, &names, 4).is_empty());
    assert_eq!(NamespaceHierarchy::for_die(&tree, &is_ns, &names, 6).as_parts(), vec![""]);
    assert!(NamespaceHierarchy::for_die(&tree, &is_ns, &names, 0).is_empty());
}
