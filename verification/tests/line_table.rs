use bugstalker::debugger::debugee::dwarf::unit::parser::DieTree;
use bugstalker::debugger::debugee::dwarf::unit::{closest_places_in_files, BsUnit, LineRow, Range};

fn row(address: u64, file: u64, line: u64, column: u64, stmt: bool, pe: bool) -> LineRow {
    LineRow::new(address, file, line, column, stmt, pe, false, false)
}

fn unit() -> BsUnit {
    let lines = vec![
        row(0x100, 0, 10, 1, true, false),
        row(0x104, 0, 11, 5, true, false),
        row(0x108, 0, 11, 5, true, true),
        row(0x10c, 0, 12, 1, false, false),
        row(0x110, 1, 3, 1, true, false),
        row(0x114, 0, 11, 5, true, true),
        row(0x118, 0, 13, 1, true, false),
    ];
    BsUnit::new(
        Some("main.rs".to_string()),
        vec!["/src/main.rs".to_string(), "/src/lib.rs".to_string()],
        lines,
        vec![Range { begin: 0x100, end: 0x11c }],
    )
}

#[test]
fn line_row_flags() {
    let r = LineRow::new(1, 2, 3, 4, true, false, true, false);
    assert!(r.is_stmt());
    assert!(!r.prolog_end());
    assert!(r.epilog_begin());
    assert!(!r.end_sequence());
}

#[test]
fn place_by_pc_takes_exact_or_previous_line() {
    let u = unit();
    let p = u.find_place_by_pc(0x108).unwrap();
    assert_eq!(p.line_number, 11);
    assert!(p.prolog_end);
    assert_eq!(p.pos_in_unit, 2);
    let p = u.find_place_by_pc(0x10a).unwrap();
    assert_eq!(p.pos_in_unit, 2);
    let p = u.find_place_by_pc(0x50).unwrap();
    assert_eq!(p.pos_in_unit, 0);
    assert!(u.find_exact_place_by_pc(0x10a).is_none());
    assert_eq!(u.find_exact_place_by_pc(0x110).unwrap().file, "/src/lib.rs");
}

#[test]
fn place_by_line_and_neighbours() {
    let u = unit();
    let p = u.find_place_by_line(0, 12).unwrap();
    assert_eq!(p.address, 0x10c);
    let next = p.next().unwrap();
    assert_eq!(next.address, 0x110);
    let prev = p.prev().unwrap();
    assert_eq!(prev.address, 0x108);
    assert!(u.find_place_by_line(1, 12).is_none());
    assert!(u.find_place_by_idx(7).is_none());
}

#[test]
fn closest_places_prefer_prolog_end_and_keep_repeats() {
    let u = unit();
    let pairs = u.file_lines_pairs();
    assert_eq!(pairs.len(), 2);
    assert_eq!(pairs[0].0, 0);
    assert_eq!(pairs[0].1, vec![0, 1, 2, 3, 5, 6]);
    let places = u.closest_places(&pairs[0].1, 11);
    let addrs: Vec<u64> = places.iter().map(|p| p.address).collect();
    assert_eq!(addrs, vec![0x108, 0x114]);
    assert!(u.closest_places(&pairs[0].1, 12).is_empty());
}

#[test]
fn closest_places_fall_back_to_next_line() {
    let units = vec![unit()];
    let pairs = units[0].file_lines_pairs();
    let files: Vec<&(usize, Vec<usize>)> = vec![&pairs[0]];
    let found = closest_places_in_files(&units, &files, 12);
    let addrs: Vec<u64> = found.iter().map(|p| p.address).collect();
    assert_eq!(addrs, vec![0x118]);
    let found = closest_places_in_files(&units, &files, 10);
    assert_eq!(found.len(), 1);
    assert_eq!(found[0].address, 0x100);
    assert!(closest_places_in_files(&units, &files, 40).is_empty());
}

#[test]
fn lines_for_range() {
    let u = unit();
    let places = u.find_lines_for_range(&Range { begin: 0x104, end: 0x10d });
    let addrs: Vec<u64> = places.iter().map(|p| p.address).collect();
    assert_eq!(addrs, vec![0x104, 0x108, 0x10c]);
}

#[test]
fn die_tree_parents_follow_depth_changes() {
    let mut tree = DieTree::new();
    assert_eq!(tree.push(0), 0); // unit
    assert_eq!(tree.push(1), 1); // child of 0
    assert_eq!(tree.push(1), 2); // child of 1
    assert_eq!(tree.push(0), 3); // sibling of 2
    assert_eq!(tree.push(-1), 4); // sibling of 1
    assert_eq!(tree.push(1), 5); // child of 4
    assert_eq!(tree.push(1), 6); // child of 5
    assert_eq!(tree.push(-2), 7); // child of 0
    assert_eq!(tree.parent(0), None);
    assert_eq!(tree.parent(1), Some(0));
    assert_eq!(tree.parent(2), Some(1));
    assert_eq!(tree.parent(3), Some(1));
    assert_eq!(tree.parent(4), Some(0));
    assert_eq!(tree.parent(6), Some(5));
    assert_eq!(tree.parent(7), Some(0));
    assert_eq!(tree.node(0).children, vec![1, 4, 7]);
    assert_eq!(tree.node(1).children, vec![2, 3]);
    assert_eq!(tree.len(), 8);
}

use bugstalker::debugger::debugee::dwarf::unit::{end_instruction, start_instruction};
use bugstalker::debugger::error::Error;

#[test]
fn function_bounds_and_prolog() {
    let ranges = [Range { begin: 0x108, end: 0x110 }, Range { begin: 0x100, end: 0x104 }];
    assert_eq!(start_instruction(&ranges), Some(0x100));
    assert_eq!(end_instruction(&ranges), Some(0x110));
    assert_eq!(start_instruction(&[]), None);
    let u = unit();
    let prolog = u.function_prolog(&ranges, None).unwrap();
    assert_eq!(prolog, Range { begin: 0x100, end: 0x108 });
    assert!(matches!(u.function_prolog(&[], Some("f".to_string())), Err(Error::NoFunctionRanges(Some(_)))));
    let empty = BsUnit::new(None, vec![], vec![], vec![]);
    assert!(matches!(empty.function_prolog(&ranges, None), Err(Error::FunctionNotFound(0x100))));
}

use bugstalker::debugger::debugee::dwarf::{find_exact_place_from_pc, find_place_from_pc, find_unit_by_pc, range};

fn small_unit(lines: &[u64], ranges: Vec<Range>) -> BsUnit {
    let rows = lines.iter().map(|&a| row(a, 0, a, 1, true, false)).collect();
    BsUnit::new(None, vec!["/x.rs".to_string()], rows, ranges)
}

#[test]
fn units_by_address() {
    let units = vec![
        small_unit(&[0x100, 0x110], vec![Range { begin: 0x100, end: 0x120 }]),
        small_unit(&[0x200, 0x210], vec![Range { begin: 0x200, end: 0x220 }, Range { begin: 0x300, end: 0x300 }]),
        small_unit(&[], vec![]),
    ];
    assert_eq!(find_unit_by_pc(&units, 0x105), Some(0));
    assert_eq!(find_unit_by_pc(&units, 0x120), None);
    assert_eq!(find_unit_by_pc(&units, 0x215), Some(1));
    // a range that begins at the address covers it even when empty
    assert_eq!(find_unit_by_pc(&units, 0x300), Some(1));
    assert_eq!(find_place_from_pc(&units, 0x115).map(|p| p.address), Some(0x110));
    assert!(find_place_from_pc(&units, 0x50).is_none());
    assert!(find_exact_place_from_pc(&units, 0x115).is_none());
    assert_eq!(find_exact_place_from_pc(&units, 0x210).map(|p| p.address), Some(0x210));
    assert_eq!(range(&units), Some(Range { begin: 0x100, end: 0x300 }));
    assert_eq!(range(&units[2..]), None);
}

use bugstalker::debugger::debugee::dwarf::unit::{find_function_range, DieRange};

#[test]
fn innermost_function_range() {
    // entry 0: a function, entry 1: a lexical block, entry 2: an inlined function
    let drs = [
        DieRange { range: Range { begin: 0x100, end: 0x200 }, die_idx: 0 },
        DieRange { range: Range { begin: 0x120, end: 0x140 }, die_idx: 1 },
        DieRange { range: Range { begin: 0x120, end: 0x130 }, die_idx: 2 },
        DieRange { range: Range { begin: 0x300, end: 0x400 }, die_idx: 0 },
    ];
    let is_function = [true, false, true];
    assert_eq!(find_function_range(&drs, &is_function, 0x125), Some(2));
    assert_eq!(find_function_range(&drs, &is_function, 0x135), Some(0));
    assert_eq!(find_function_range(&drs, &is_function, 0x100), Some(0));
    assert_eq!(find_function_range(&drs, &is_function, 0x250), None);
    assert_eq!(find_function_range(&drs, &is_function, 0x350), Some(3));
    assert_eq!(find_function_range(&drs, &is_function, 0x50), None);
}

#[test]
fn function_end_line_is_last_line_of_its_ranges() {
    let u = unit();
    // lines 10, 11, 11, 12 lie in the first range, line 13 at 0x118 in the second
    let ranges = [Range { begin: 0x100, end: 0x110 }, Range { begin: 0x118, end: 0x11c }];
    assert_eq!(u.function_end_line(&ranges, 9), 13);
    assert_eq!(u.function_end_line(&ranges[..1], 9), 12);
    // a declaration line below no place is kept as the end
    assert_eq!(u.function_end_line(&ranges[..1], 40), 40);
    assert_eq!(u.function_end_line(&[], 7), 7);
    let empty = BsUnit::new(None, vec![], vec![], vec![]);
    assert_eq!(empty.function_end_line(&ranges, 5), 5);
}

use bugstalker::debugger::debugee::dwarf::unit::parser::{enclosing_blocks_of, BlockKind};
use bugstalker::debugger::debugee::dwarf::unit::{index_function, FunctionInfo};
use bugstalker::debugger::debugee::dwarf::utils::PathSearchIndex;
use bugstalker::debugger::debugee::dwarf::NamespaceHierarchy;

#[test]
fn variables_find_their_lexical_block_and_function() {
    // 0 unit, 1 function, 2 lexical block, 3 lexical block, 4 inner entry; 5 function at the top level
    let mut tree = DieTree::new();
    tree.push(0);
    tree.push(1);
    tree.push(1);
    tree.push(1);
    tree.push(1);
    tree.push(-4);
    let kinds = [
        BlockKind::Other,
        BlockKind::Function,
        BlockKind::LexicalBlock,
        BlockKind::LexicalBlock,
        BlockKind::Other,
        BlockKind::Function,
    ];
    assert_eq!(enclosing_blocks_of(&tree, &kinds, Some(4)), (Some(3), Some(1)));
    assert_eq!(enclosing_blocks_of(&tree, &kinds, Some(2)), (Some(2), Some(1)));
    assert_eq!(enclosing_blocks_of(&tree, &kinds, Some(1)), (None, Some(1)));
    assert_eq!(enclosing_blocks_of(&tree, &kinds, Some(0)), (None, None));
    assert_eq!(enclosing_blocks_of(&tree, &kinds, None), (None, None));
}

#[test]
fn functions_are_indexed_by_linkage_name_or_name() {
    let mut index: PathSearchIndex<usize> = PathSearchIndex::new("::");
    let with_name = FunctionInfo {
        namespace: NamespaceHierarchy::new(&["app", "net"]),
        linkage_name: None,
        decl_file_line: None,
        name: Some("connect".to_string()),
    };
    index_function(&mut index, &with_name, true, 10);
    let without_ranges = FunctionInfo {
        namespace: NamespaceHierarchy::new(&["app"]),
        linkage_name: None,
        decl_file_line: None,
        name: Some("inlined_only".to_string()),
    };
    index_function(&mut index, &without_ranges, false, 11);
    let anonymous = FunctionInfo {
        namespace: NamespaceHierarchy::new(&["app"]),
        linkage_name: None,
        decl_file_line: None,
        name: None,
    };
    index_function(&mut index, &anonymous, true, 12);
    assert_eq!(index.get("net::connect"), vec![&10]);
    assert_eq!(index.get("connect"), vec![&10]);
    assert!(index.get("inlined_only").is_empty());
}

use bugstalker::debugger::debugee::dwarf::unit::sort_die_ranges;

#[test]
fn die_ranges_are_sorted_by_begin() {
    let dr = |begin: u64, end: u64, die_idx: usize| DieRange { range: Range { begin, end }, die_idx };
    let sorted = sort_die_ranges(vec![dr(0x300, 0x310, 2), dr(0x100, 0x200, 0), dr(0x200, 0x220, 1), dr(0x100, 0x110, 3)]);
    let begins: Vec<u64> = sorted.iter().map(|d| d.range.begin).collect();
    assert_eq!(begins, vec![0x100, 0x100, 0x200, 0x300]);
    let mut idxs: Vec<usize> = sorted.iter().map(|d| d.die_idx).collect();
    idxs.sort();
    assert_eq!(idxs, vec![0, 1, 2, 3]);
    assert!(sort_die_ranges(vec![]).is_empty());
}

use bugstalker::debugger::debugee::dwarf::unit::parser::render_file_path;

#[test]
fn file_paths_of_a_unit() {
    assert_eq!(render_file_path(Some("/home/u/proj"), None, "src/main.rs", None), "/home/u/proj/src/main.rs");
    assert_eq!(render_file_path(Some("/home/u/proj"), Some("src"), "main.rs", None), "/home/u/proj/src/main.rs");
    assert_eq!(render_file_path(Some("/home/u/proj/"), Some("/usr/include"), "stdio.h", None), "/usr/include/stdio.h");
    assert_eq!(render_file_path(Some("/home/u/proj"), Some("src"), "/abs/file.rs", None), "/abs/file.rs");
    assert_eq!(render_file_path(None, None, "a.rs", None), "a.rs");
}

#[test]
fn std_sources_are_found_in_the_toolchain() {
    let std = "/home/u/.rustup/toolchains/stable/lib/rustlib/src/rust";
    assert_eq!(
        render_file_path(Some("/rustc/90b35a6"), Some("library/core/src"), "ptr/mod.rs", Some(std)),
        "/home/u/.rustup/toolchains/stable/lib/rustlib/src/rust/library/core/src/ptr/mod.rs"
    );
    assert_eq!(
        render_file_path(Some("/rustc/90b35a6"), Some("library/core/src"), "ptr/mod.rs", None),
        "/rustc/90b35a6/library/core/src/ptr/mod.rs"
    );
    // only a path whose first component is `rustc` is moved
    assert_eq!(render_file_path(Some("/rustcx/1"), None, "a.rs", Some(std)), "/rustcx/1/a.rs");
    assert_eq!(render_file_path(Some("/rustc/1"), None, "a.rs", Some(std)), format!("{std}/a.rs"));
}

#[test]
fn max_range_ends_at_the_epilog() {
    let lines = vec![
        LineRow::new(0x100, 0, 1, 1, true, false, false, false),
        LineRow::new(0x104, 0, 2, 1, true, false, false, false),
        LineRow::new(0x108, 0, 3, 1, true, false, true, false),
        LineRow::new(0x10c, 0, 4, 1, true, false, false, false),
        LineRow::new(0x120, 0, 9, 1, true, false, false, false),
    ];
    let u = BsUnit::new(None, vec!["/a.rs".to_string()], lines, vec![Range { begin: 0x100, end: 0x130 }]);
    // the range that ends last is the first one; its epilog begins at 0x108
    let ranges = [Range { begin: 0x100, end: 0x110 }, Range { begin: 0x120, end: 0x104 }];
    assert_eq!(u.max_range(&ranges), Some(Range { begin: 0x100, end: 0x108 }));
    // no epilog before 0x104: the last range is taken
    let early = [Range { begin: 0x120, end: 0x124 }, Range { begin: 0x100, end: 0x104 }];
    assert_eq!(u.max_range(&early[1..]), Some(Range { begin: 0x100, end: 0x104 }));
    assert_eq!(u.max_range(&[]), None);
    // of ranges ending at the same address, the last one gives the begin
    let ties = [Range { begin: 0x100, end: 0x110 }, Range { begin: 0x104, end: 0x110 }];
    assert_eq!(u.max_range(&ties), Some(Range { begin: 0x104, end: 0x108 }));
}

use bugstalker::debugger::debugee::dwarf::unit::{unique_function_places, FunctionKey};

#[test]
fn one_place_per_function() {
    let key = |name: &str, begin: u64| {
        Some(FunctionKey { name: Some(name.to_string()), ranges: vec![Range { begin, end: begin + 0x10 }] })
    };
    let places = vec![1, 2, 3, 4, 5];
    let keys = vec![key("f", 0x100), key("f", 0x100), None, key("f", 0x200), None];
    // the second place of `f` at 0x100 is dropped; the same name with other ranges is another function
    assert_eq!(unique_function_places(places, &keys), vec![1, 3, 4, 5]);
    assert_eq!(unique_function_places(Vec::<u32>::new(), &vec![]), Vec::<u32>::new());
}

use bugstalker::debugger::debugee::dwarf::unit::UnitIndexes;
use bugstalker::debugger::debugee::dwarf::utils::NameIndex;

#[test]
fn unit_indexes_collect_variables_types_and_declarations() {
    let mut ix = UnitIndexes::new();
    ix.add_variable("COUNTER", NamespaceHierarchy::new(&["app"]), 3);
    ix.add_variable("COUNTER", NamespaceHierarchy::new(&["app", "net"]), 9);
    ix.add_variable("x", NamespaceHierarchy::empty(), 4);
    let counters = ix.locate_var_die("COUNTER").unwrap();
    assert_eq!(counters.len(), 2);
    assert_eq!(counters[0].1, 3);
    assert_eq!(counters[1].1, 9);
    assert_eq!(counters[1].0.as_parts(), vec!["app".to_string(), "net".to_string()]);
    assert!(ix.locate_var_die("y").is_none());
    ix.add_type("u8", 0x40);
    ix.add_type("u8", 0x80);
    assert_eq!(ix.locate_type("u8"), Some(0x80));
    assert_eq!(ix.locate_type("i8"), None);
    ix.add_declaration(0x100, 7);
    assert_eq!(ix.declaration(0x100), Some(7));
    assert_eq!(ix.declaration(0x104), None);
}

#[test]
fn name_index_insert_get_take() {
    let mut ix: NameIndex<u32> = NameIndex::new();
    ix.insert("a", 1);
    ix.insert("b", 2);
    ix.insert("a", 3);
    assert_eq!(ix.get("a"), Some(&3));
    assert_eq!(ix.take("a"), Some(3));
    assert_eq!(ix.get("a"), None);
    assert_eq!(ix.take("a"), None);
    assert_eq!(ix.get("b"), Some(&2));
}

use bugstalker::debugger::debugee::dwarf::unit::subprogram_info;

#[test]
fn subprogram_info_from_linkage_name_or_enclosing_namespace() {
    let f = subprogram_info(
        Some("test".to_string()),
        Some("_ZN4main4test17h1234567890abcdefE"),
        Some((1, 10)),
        NamespaceHierarchy::new(&["ignored"]),
        None,
    );
    assert_eq!(f.namespace.as_parts(), vec!["main".to_string()]);
    assert_eq!(f.linkage_name.as_deref(), Some("test"));
    let g = subprogram_info(Some("helper".to_string()), None, None, NamespaceHierarchy::new(&["app"]), None);
    assert_eq!(g.namespace.as_parts(), vec!["app".to_string()]);
    assert_eq!(g.linkage_name, None);
    // a definition by specification takes what it lacks from its declaration
    let h = subprogram_info(None, None, None, NamespaceHierarchy::empty(), Some(&f));
    assert_eq!(h.name.as_deref(), Some("test"));
    assert_eq!(h.linkage_name.as_deref(), Some("test"));
    assert_eq!(h.namespace.as_parts(), vec!["main".to_string()]);
    assert_eq!(h.decl_file_line, Some((1, 10)));
}

#[test]
fn epilog_on_the_first_line_is_found() {
    let lines = vec![
        LineRow::new(0x100, 0, 1, 1, true, false, true, false),
        LineRow::new(0x104, 0, 2, 1, true, false, false, false),
    ];
    let u = BsUnit::new(None, vec!["/a.rs".to_string()], lines, vec![Range { begin: 0x100, end: 0x110 }]);
    assert_eq!(u.find_eb(0x106).unwrap().pos_in_unit, 0);
    assert_eq!(u.find_eb(0x100).unwrap().address, 0x100);
    // below the first line there is nothing at or before the address
    assert!(u.find_eb(0x50).is_none());
}
