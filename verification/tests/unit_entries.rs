use bugstalker::debugger::debugee::dwarf::unit::lazy::{EntryData, EntryKind, EntryRecord, UnitLazyPart};
use bugstalker::debugger::debugee::dwarf::unit::{BsUnit, LineRow, Range};

fn record(offset: u64, name: Option<&str>, ranges: Vec<Range>, kind: EntryKind) -> EntryRecord {
    EntryRecord { offset, name: name.map(|n| n.to_string()), ranges, kind }
}

fn subprogram(is_declaration: bool, specification: Option<u64>, decl_file_line: Option<(u64, u64)>) -> EntryKind {
    EntryKind::Subprogram { is_declaration, specification, linkage_name: None, decl_file_line }
}

/// Reads the entries of a small unit: a namespace holding a function with a
/// variable, a lexical block with another variable, a type, and a function
/// defined apart from its declaration.
fn sample_unit() -> UnitLazyPart {
    let mut unit = UnitLazyPart::new();
    assert_eq!(unit.add_entry(0, record(0x10, Some("ns"), vec![], EntryKind::Namespace)), 0);
    assert_eq!(
        unit.add_entry(1, record(0x20, Some("foo"), vec![Range { begin: 0x500, end: 0x600 }], subprogram(false, None, None))),
        1
    );
    assert_eq!(unit.add_entry(1, record(0x30, Some("x"), vec![], EntryKind::Variable { linkage_name: None })), 2);
    assert_eq!(unit.add_entry(0, record(0x40, None, vec![Range { begin: 0x520, end: 0x540 }], EntryKind::LexicalBlock)), 3);
    assert_eq!(unit.add_entry(1, record(0x50, Some("y"), vec![], EntryKind::Variable { linkage_name: None })), 4);
    assert_eq!(unit.add_entry(-2, record(0x58, Some("i32"), vec![], EntryKind::IndexedType)), 5);
    assert_eq!(unit.add_entry(0, record(0x60, Some("bar"), vec![], subprogram(true, None, Some((1, 7))))), 6);
    assert_eq!(
        unit.add_entry(0, record(0x70, None, vec![Range { begin: 0x100, end: 0x200 }], subprogram(false, Some(0x60), None))),
        7
    );
    assert_eq!(unit.add_entry(0, record(0x80, Some("p"), vec![], EntryKind::Parameter)), 8);
    unit
}

#[test]
fn unit_entries_form_a_tree() {
    let unit = sample_unit();
    assert_eq!(unit.len(), 9);
    assert_eq!(unit.parent(0), None);
    assert_eq!(unit.parent(1), Some(0));
    assert_eq!(unit.parent(2), Some(1));
    assert_eq!(unit.parent(3), Some(1));
    assert_eq!(unit.parent(4), Some(3));
    assert_eq!(unit.parent(5), Some(0));
    assert_eq!(unit.parent(7), Some(0));
}

#[test]
fn unit_entries_offsets_point_to_entries() {
    let unit = sample_unit();
    assert_eq!(unit.entry_at(0x10), Some(0));
    assert_eq!(unit.entry_at(0x50), Some(4));
    assert_eq!(unit.entry_at(0x70), Some(7));
    assert_eq!(unit.entry_at(0x11), None);
}

#[test]
fn unit_entries_variables_keep_their_blocks() {
    let unit = sample_unit();
    match unit.entry(2) {
        EntryData::Variable { fn_block_idx, lexical_block_idx } => {
            assert_eq!(*fn_block_idx, Some(1));
            assert_eq!(*lexical_block_idx, None);
        }
        _ => panic!("a variable is expected"),
    }
    match unit.entry(4) {
        EntryData::Variable { fn_block_idx, lexical_block_idx } => {
            assert_eq!(*fn_block_idx, Some(1));
            assert_eq!(*lexical_block_idx, Some(3));
        }
        _ => panic!("a variable is expected"),
    }
    match unit.entry(8) {
        EntryData::Parameter { fn_block_idx } => assert_eq!(*fn_block_idx, None),
        _ => panic!("a parameter is expected"),
    }
    let x = unit.indexes().locate_var_die("x").expect("x is indexed");
    assert_eq!(x.len(), 1);
    assert_eq!(x[0].1, 2);
    assert!(unit.indexes().locate_var_die("z").is_none());
}

#[test]
fn unit_entries_types_and_functions_are_indexed() {
    let unit = sample_unit();
    assert_eq!(unit.indexes().locate_type("i32"), Some(0x58));
    assert_eq!(unit.indexes().locate_type("ns"), None);
    assert_eq!(unit.indexes().declaration(0x60), Some(6));
    let foo = unit.function_index().get("ns::foo");
    assert_eq!(foo, vec![&1]);
    // the definition takes its name from the declaration; the declaration
    // itself has no address range and is not indexed
    assert_eq!(unit.function_index().get("bar"), vec![&7]);
    match unit.entry(7) {
        EntryData::Function(info) => {
            assert_eq!(info.name.as_deref(), Some("bar"));
            assert_eq!(info.decl_file_line, Some((1, 7)));
        }
        _ => panic!("a function is expected"),
    }
}

#[test]
fn unit_entries_ranges_are_sorted_at_finish() {
    let mut unit = sample_unit();
    assert_eq!(unit.die_ranges().len(), 3);
    unit.finish();
    let begins: Vec<u64> = unit.die_ranges().iter().map(|r| r.range.begin).collect();
    assert_eq!(begins, vec![0x100, 0x500, 0x520]);
    let owners: Vec<usize> = unit.die_ranges().iter().map(|r| r.die_idx).collect();
    assert_eq!(owners, vec![7, 1, 3]);
}

#[test]
fn unit_from_rows_orders_lines_and_ranges() {
    let lines = vec![
        LineRow::new(0x30, 0, 3, 1, true, false, false, false),
        LineRow::new(0x10, 0, 1, 1, true, false, false, false),
        LineRow::new(0x20, 0, 2, 1, true, false, false, false),
    ];
    let ranges = vec![Range { begin: 0x40, end: 0x50 }, Range { begin: 0x10, end: 0x30 }];
    let unit = BsUnit::from_rows(Some("u".to_string()), vec!["a.rs".to_string()], lines, ranges);
    assert_eq!(unit.line(0).address, 0x10);
    assert_eq!(unit.line(1).address, 0x20);
    assert_eq!(unit.line(2).address, 0x30);
    assert_eq!(unit.ranges()[0].begin, 0x10);
    assert_eq!(unit.ranges()[1].begin, 0x40);
}

use bugstalker::debugger::debugee::dwarf::find_closest_place;
use bugstalker::debugger::debugee::dwarf::utils::PathSearchIndex;

fn line_row(address: u64, line: u64) -> LineRow {
    LineRow::new(address, 0, line, 1, true, false, false, false)
}

/// A unit with two functions, `foo` (where line 5 shows twice) and `bar`
/// (where line 5 shows once more), and the index of its file.
fn closest_place_fixture() -> (Vec<BsUnit>, Vec<UnitLazyPart>, PathSearchIndex<(usize, Vec<usize>)>) {
    let lines = vec![line_row(0x10, 4), line_row(0x20, 5), line_row(0x30, 5), line_row(0x110, 5)];
    let mut unit = BsUnit::new(None, vec!["/src/main.rs".to_string()], lines, vec![Range { begin: 0, end: 0x200 }]);
    unit.set_idx(0);
    let mut part = UnitLazyPart::new();
    part.add_entry(0, record(1, Some("foo"), vec![Range { begin: 0x10, end: 0x40 }], subprogram(false, None, None)));
    part.add_entry(0, record(2, Some("bar"), vec![Range { begin: 0x100, end: 0x140 }], subprogram(false, None, None)));
    part.finish();
    let mut index = PathSearchIndex::new("/");
    for (file, lines) in unit.file_lines_pairs() {
        assert_eq!(file, 0);
        index.insert(&["src", "main.rs"], (0, lines));
    }
    (vec![unit], vec![part], index)
}

#[test]
fn function_key_at_finds_the_enclosing_function() {
    let (_, parts, _) = closest_place_fixture();
    let key = parts[0].function_key_at(0x110).expect("bar covers the address");
    assert_eq!(key.name.as_deref(), Some("bar"));
    assert_eq!(key.ranges, vec![Range { begin: 0x100, end: 0x140 }]);
    assert!(parts[0].function_key_at(0x50).is_none());
}

#[test]
fn closest_place_keeps_one_place_per_function() {
    let (units, parts, index) = closest_place_fixture();
    let places = find_closest_place(&units, &parts, &index, "main.rs", 5);
    let addresses: Vec<u64> = places.iter().map(|p| p.address).collect();
    assert_eq!(addresses, vec![0x20, 0x110]);
}

#[test]
fn closest_place_takes_the_next_line() {
    let (units, parts, index) = closest_place_fixture();
    let places = find_closest_place(&units, &parts, &index, "src/main.rs", 3);
    let addresses: Vec<u64> = places.iter().map(|p| p.address).collect();
    assert_eq!(addresses, vec![0x10]);
    assert!(find_closest_place(&units, &parts, &index, "main.rs", 7).is_empty());
    assert!(find_closest_place(&units, &parts, &index, "other.rs", 5).is_empty());
}

use bugstalker::debugger::debugee::dwarf::build_units_index;

#[test]
fn units_are_ordered_by_offset_and_their_files_indexed() {
    let a = BsUnit::new(
        Some("a".to_string()),
        vec!["/src/a.rs".to_string(), "/src/unused.rs".to_string()],
        vec![line_row(0x10, 1), line_row(0x20, 2)],
        vec![Range { begin: 0x10, end: 0x30 }],
    );
    let b = BsUnit::new(
        Some("b".to_string()),
        vec!["/src/b.rs".to_string()],
        vec![line_row(0x100, 7)],
        vec![Range { begin: 0x100, end: 0x110 }],
    );
    let (offsets, units, index) = build_units_index(vec![(0x50, a), (0x10, b)]);
    assert_eq!(offsets, vec![0x10, 0x50]);
    assert_eq!(units[0].idx(), 0);
    assert_eq!(units[1].idx(), 1);
    assert_eq!(units[0].files()[0], "/src/b.rs");
    assert_eq!(index.get("a.rs"), vec![&(1, vec![0, 1])]);
    assert_eq!(index.get("src/b.rs"), vec![&(0, vec![0])]);
    assert!(index.get("unused.rs").is_empty());
}

#[test]
fn unit_entries_children_in_reading_order() {
    let unit = sample_unit();
    assert_eq!(unit.children(0), &vec![1, 5, 6, 7, 8]);
    assert_eq!(unit.children(1), &vec![2, 3]);
    assert_eq!(unit.children(3), &vec![4]);
    assert!(unit.children(2).is_empty());
}

#[test]
fn units_index_lists_each_file_once_in_order() {
    let a = BsUnit::new(
        None,
        vec!["/x/one.rs".to_string(), "/x/two.rs".to_string()],
        vec![
            LineRow::new(0x10, 1, 1, 1, true, false, false, false),
            LineRow::new(0x20, 0, 2, 1, true, false, false, false),
            LineRow::new(0x30, 1, 3, 1, true, false, false, false),
        ],
        vec![],
    );
    let b = BsUnit::new(None, vec!["/y/one.rs".to_string()], vec![line_row(0x40, 1)], vec![]);
    let (_, _, index) = build_units_index(vec![(1, a), (2, b)]);
    assert_eq!(index.get("one.rs"), vec![&(0, vec![1]), &(1, vec![0])]);
    assert_eq!(index.get("two.rs"), vec![&(0, vec![0, 2])]);
    assert_eq!(index.get("x/one.rs"), vec![&(0, vec![1])]);
}
