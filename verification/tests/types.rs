use bugstalker::debugger::debugee::dwarf::types::{
    ArrayBoundValue, ArrayType, CModifier, ComplexType, ScalarType, StructureMember, TypeDeclaration, TypeIdentity,
    UpperBound,
};
use bugstalker::debugger::debugee::dwarf::NamespaceHierarchy;
use std::collections::HashMap;

fn scalar(name: &str, size: u64) -> TypeDeclaration {
    TypeDeclaration::Scalar(ScalarType {
        namespaces: NamespaceHierarchy::new(&["core"]),
        name: Some(name.to_string()),
        byte_size: Some(size),
        encoding: None,
    })
}

fn member(name: &str, t: Option<u64>) -> StructureMember {
    StructureMember { name: Some(name.to_string()), type_ref: t }
}

fn graph() -> ComplexType {
    let mut types = HashMap::new();
    types.insert(1, scalar("u8", 1));
    types.insert(2, scalar("u32", 4));
    // [u32; 3] given by a count
    types.insert(
        3,
        TypeDeclaration::Array(ArrayType::new(
            NamespaceHierarchy::empty(),
            None,
            Some(2),
            ArrayBoundValue::Const(0),
            Some(UpperBound::Count(ArrayBoundValue::Const(3))),
        )),
    );
    types.insert(
        4,
        TypeDeclaration::ModifiedType {
            modifier: CModifier::Const,
            namespaces: NamespaceHierarchy::empty(),
            name: None,
            inner: Some(3),
        },
    );
    types.insert(
        5,
        TypeDeclaration::Pointer {
            namespaces: NamespaceHierarchy::empty(),
            name: Some("*const u8".to_string()),
            target_type: Some(1),
        },
    );
    types.insert(
        6,
        TypeDeclaration::Structure {
            namespaces: NamespaceHierarchy::new(&["app"]),
            name: Some("Pair".to_string()),
            byte_size: Some(16),
            members: vec![member("a", Some(2)), member("pad", None), member("p", Some(5))],
            type_params: vec![("T".to_string(), Some(1))],
        },
    );
    // array whose upper bound could not be evaluated
    types.insert(
        7,
        TypeDeclaration::Array(ArrayType::new(
            NamespaceHierarchy::empty(),
            None,
            Some(1),
            ArrayBoundValue::Expr(None),
            Some(UpperBound::UpperBound(ArrayBoundValue::Expr(None))),
        )),
    );
    // array with an upper bound and an unknown lower bound (taken as zero)
    types.insert(
        8,
        TypeDeclaration::Array(ArrayType::new(
            NamespaceHierarchy::empty(),
            None,
            Some(2),
            ArrayBoundValue::Expr(None),
            Some(UpperBound::UpperBound(ArrayBoundValue::Expr(Some(5)))),
        )),
    );
    types.insert(
        9,
        TypeDeclaration::ModifiedType {
            modifier: CModifier::TypeDef,
            namespaces: NamespaceHierarchy::empty(),
            name: Some("Alias".to_string()),
            inner: Some(2),
        },
    );
    ComplexType::new(types, 6)
}

#[test]
fn type_identity_names() {
    let id = TypeIdentity::no_namespace("u8");
    assert_eq!(id.name(), Some("u8"));
    assert!(!id.is_unknown());
    assert_eq!(id.as_address_type().name(), Some("&u8"));
    assert_eq!(id.as_deref_type().name(), Some("*u8"));
    assert_eq!(id.as_array_type().name(), Some("[u8]"));
    let unknown = TypeIdentity::unknown();
    assert!(unknown.is_unknown());
    assert_eq!(unknown.name(), None);
    assert_eq!(unknown.name_fmt(), "unknown");
    assert_eq!(unknown.as_address_type().name_fmt(), "&unknown");
}

#[test]
fn complex_type_identity() {
    let g = graph();
    assert_eq!(g.root(), 6);
    assert_eq!(g.identity(1).name(), Some("u8"));
    assert_eq!(g.identity(3).name(), Some("[u32]"));
    assert_eq!(g.identity(4).name(), Some("const [u32]"));
    assert_eq!(g.identity(5).name(), Some("*const u8"));
    assert_eq!(g.identity(6).name(), Some("Pair"));
    assert_eq!(g.identity(9).name(), Some("Alias"));
    assert!(g.identity(42).is_unknown());
}

#[test]
fn complex_type_sizes() {
    let g = graph();
    assert_eq!(g.type_size_in_bytes(1), Some(1));
    assert_eq!(g.type_size_in_bytes(3), Some(12));
    assert_eq!(g.type_size_in_bytes(4), Some(12));
    assert_eq!(g.type_size_in_bytes(5), Some(std::mem::size_of::<usize>() as u64));
    assert_eq!(g.type_size_in_bytes(6), Some(16));
    assert_eq!(g.type_size_in_bytes(7), None);
    assert_eq!(g.type_size_in_bytes(8), Some(20));
    assert_eq!(g.type_size_in_bytes(9), Some(4));
    assert_eq!(g.type_size_in_bytes(42), None);
}

#[test]
fn array_bounds_by_count_and_by_upper_bound() {
    let by_count = ArrayType::new(
        NamespaceHierarchy::empty(),
        None,
        None,
        ArrayBoundValue::Const(1),
        Some(UpperBound::Count(ArrayBoundValue::Const(4))),
    );
    assert_eq!(by_count.bounds(), Some((1, 4)));
    let by_upper = ArrayType::new(
        NamespaceHierarchy::empty(),
        None,
        None,
        ArrayBoundValue::Const(1),
        Some(UpperBound::UpperBound(ArrayBoundValue::Const(4))),
    );
    assert_eq!(by_upper.bounds(), Some((1, 3)));
    let open = ArrayType::new(NamespaceHierarchy::empty(), None, None, ArrayBoundValue::Const(0), None);
    assert_eq!(open.bounds(), None);
    assert_eq!(ArrayBoundValue::Expr(Some(7)).value(), Some(7));
}

#[test]
fn bfs_visits_dependencies_in_order() {
    let g = graph();
    // the structure, then its members' types, then its type parameter, then their dependencies
    assert_eq!(g.bfs_order(6, 10), vec![6, 2, 5, 1, 1]);
    assert_eq!(g.bfs_order(6, 2), vec![6, 2]);
    assert_eq!(g.bfs_order(4, 10), vec![4, 3, 2]);
    assert_eq!(g.bfs_order(1, 0), Vec::<u64>::new());
}

use bugstalker::debugger::debugee::dwarf::types::TypeParser;

#[test]
fn type_parser_keeps_the_types_a_type_depends_on() {
    let mut decls = HashMap::new();
    // a list node: a structure with a value and a pointer to a node
    decls.insert(
        10,
        TypeDeclaration::Structure {
            namespaces: NamespaceHierarchy::new(&["list"]),
            name: Some("Node".to_string()),
            byte_size: Some(16),
            members: vec![member("value", Some(11)), member("next", Some(12)), member("tag", Some(99))],
            type_params: vec![],
        },
    );
    decls.insert(11, scalar("u64", 8));
    decls.insert(
        12,
        TypeDeclaration::Pointer { namespaces: NamespaceHierarchy::empty(), name: Some("*Node".to_string()), target_type: Some(10) },
    );
    // not reachable from the node
    decls.insert(20, scalar("f64", 8));
    let g = TypeParser::new().parse(decls, 10);
    assert_eq!(g.root(), 10);
    let mut ids: Vec<u64> = g.types.keys().copied().collect();
    ids.sort();
    // the member of type 99 has no declaration and is left out
    assert_eq!(ids, vec![10, 11, 12]);
    assert_eq!(g.identity(12).name(), Some("*Node"));
    assert_eq!(g.type_size_in_bytes(10), Some(16));
}
