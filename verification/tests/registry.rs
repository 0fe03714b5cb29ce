use bugstalker::debugger::address::RelocatedAddress;
use bugstalker::debugger::debugee::registry::{DwarfRegistry, RegionRange};

fn range(from: usize, to: usize) -> RegionRange {
    RegionRange { from: RelocatedAddress(from), to: RelocatedAddress(to) }
}

fn registry() -> DwarfRegistry<u32> {
    let mut reg = DwarfRegistry::new(100, "/bin/prog".to_string(), 1u32);
    reg.add("/lib/liba.so".to_string(), 2);
    reg.add("/lib/libb.so".to_string(), 3);
    reg.set_mappings(
        vec![
            ("/bin/prog".to_string(), 0x1000),
            ("/lib/liba.so".to_string(), 0x7000_0000),
            ("/lib/libb.so".to_string(), 0x7100_0000),
        ],
        vec![
            ("/lib/libb.so".to_string(), range(0x7100_0000, 0x7100_ffff)),
            ("/bin/prog".to_string(), range(0x1000, 0x1fff)),
            ("/lib/liba.so".to_string(), range(0x7000_0000, 0x7000_ffff)),
        ],
    );
    reg
}

#[test]
fn registry_finds_dwarf_by_address_and_file() {
    let reg = registry();
    assert_eq!(reg.find_by_addr(RelocatedAddress(0x1500)), Some(&1));
    assert_eq!(reg.find_by_addr(RelocatedAddress(0x7000_0010)), Some(&2));
    assert_eq!(reg.find_by_addr(RelocatedAddress(0x7100_ffff)), Some(&3));
    assert_eq!(reg.find_by_addr(RelocatedAddress(0x5000)), None);
    assert_eq!(reg.find_by_file("/lib/libb.so"), Some(&3));
    assert_eq!(reg.find_by_file("/lib/libc.so"), None);
    assert_eq!(reg.find_main_program_dwarf(), Some(&1));
}

#[test]
fn registry_mapping_offsets() {
    let reg = registry();
    assert_eq!(reg.find_mapping_offset(RelocatedAddress(0x7000_0100)), Some(0x7000_0000));
    assert_eq!(reg.find_mapping_offset(RelocatedAddress(0x10)), None);
    assert_eq!(reg.find_mapping_offset_for_file("/bin/prog"), Some(0x1000));
    assert_eq!(reg.find_mapping_offset_for_file("/nope"), None);
}

#[test]
fn registry_remove_forgets_file() {
    let mut reg = registry();
    reg.remove("/lib/liba.so");
    assert_eq!(reg.find_by_file("/lib/liba.so"), None);
    assert_eq!(reg.find_by_addr(RelocatedAddress(0x7000_0010)), None);
    assert_eq!(reg.find_by_file("/lib/libb.so"), Some(&3));
}

#[test]
fn registry_reload_plan_keeps_program() {
    let reg = registry();
    let plan = reg.reload_plan(vec!["/lib/libb.so".to_string(), "/lib/libc.so".to_string()]);
    assert_eq!(plan.to_del, vec!["/lib/liba.so".to_string()]);
    assert_eq!(plan.to_add, vec!["/lib/libc.so".to_string()]);
}

#[test]
fn registry_add_replaces_existing() {
    let mut reg = registry();
    reg.add("/lib/liba.so".to_string(), 20);
    assert_eq!(reg.find_by_file("/lib/liba.so"), Some(&20));
}

#[test]
fn registry_extend_keeps_files() {
    let reg = registry();
    let ext = reg.extend(200);
    assert_eq!(ext.find_by_file("/lib/liba.so"), Some(&2));
    assert_eq!(ext.find_mapping_offset_for_file("/lib/libb.so"), None);
}

use bugstalker::debugger::debugee::dwarf::unit::Range;
use bugstalker::debugger::debugee::registry::MapRange;
use bugstalker::debugger::error::Error;

fn map(start: usize, size: usize, file: Option<&str>) -> MapRange {
    MapRange { start, size, filename: file.map(|f| f.to_string()) }
}

#[test]
fn registry_update_mappings_from_memory_map() {
    let mut reg = DwarfRegistry::new(100, "/bin/prog".to_string(), 1u32);
    reg.add("/lib/liba.so".to_string(), 2);
    reg.add("/lib/libz.so".to_string(), 3);
    assert_eq!(reg.paths(), vec!["/bin/prog", "/lib/liba.so", "/lib/libz.so"]);
    let maps = vec![
        map(0x5000, 0x1000, Some("/real/prog")),
        map(0x4000, 0x1000, Some("/real/prog")),
        map(0x7000, 0x2000, Some("/real/liba.so")),
        map(0x9000, 0x1000, None),
    ];
    let canonical = vec!["/real/prog".to_string(), "/real/liba.so".to_string(), "/real/libz.so".to_string()];
    let text = vec![Some(Range { begin: 0x100, end: 0x200 }), None, None];
    let errors = reg.update_mappings(&maps, &canonical, &text, false);
    assert_eq!(errors.len(), 1);
    assert!(matches!(&errors[0], Error::MappingNotFound(p) if p == "/lib/libz.so"));
    assert_eq!(reg.find_mapping_offset_for_file("/bin/prog"), Some(0x4000));
    assert_eq!(reg.find_mapping_offset_for_file("/lib/liba.so"), Some(0x7000));
    // program region: its text range moved by the mapping offset
    assert_eq!(reg.find_by_addr(RelocatedAddress(0x4150)), Some(&1));
    assert_eq!(reg.find_by_addr(RelocatedAddress(0x4250)), None);
    // library region without a text range: from the lowest start to the end of the highest region
    assert_eq!(reg.find_by_addr(RelocatedAddress(0x8fff)), Some(&2));
    let range = reg.find_range(RelocatedAddress(0x7001)).unwrap();
    assert_eq!(range.1.from, RelocatedAddress(0x7000));
    assert_eq!(range.1.to, RelocatedAddress(0x9000));
}

#[test]
fn registry_update_only_main() {
    let mut reg = DwarfRegistry::new(100, "/bin/prog".to_string(), 1u32);
    reg.add("/lib/liba.so".to_string(), 2);
    let maps = vec![map(0x4000, 0x1000, Some("/real/prog"))];
    let canonical = vec!["/real/prog".to_string(), "/real/liba.so".to_string()];
    let errors = reg.update_mappings(&maps, &canonical, &[None, None], true);
    assert!(errors.is_empty());
    assert_eq!(reg.find_mapping_offset_for_file("/bin/prog"), Some(0x4000));
    assert_eq!(reg.find_mapping_offset_for_file("/lib/liba.so"), None);
}

#[test]
fn reload_plan_then_registry_holds_target() {
    let mut reg = registry();
    let target = vec!["/lib/libb.so".to_string(), "/lib/libc.so".to_string()];
    let plan = reg.reload_plan(target.clone());
    for p in &plan.to_del {
        reg.remove(p);
    }
    for p in plan.to_add {
        reg.add(p, 9);
    }
    let mut paths = reg.paths();
    paths.sort();
    assert_eq!(paths, vec!["/bin/prog", "/lib/libb.so", "/lib/libc.so"]);
}

#[test]
fn registry_dump_lists_program_first_then_by_path() {
    let mut reg = DwarfRegistry::new(100, "/bin/prog".to_string(), 1u32);
    reg.add("/lib/libz.so".to_string(), 2);
    reg.add("/lib/liba.so".to_string(), 3);
    reg.set_mappings(vec![], vec![("/lib/libz.so".to_string(), range(0x10, 0x20))]);
    let regions = reg.dump(&[true, false, true]);
    let paths: Vec<&str> = regions.iter().map(|r| r.path.as_str()).collect();
    assert_eq!(paths, vec!["/bin/prog", "/lib/liba.so", "/lib/libz.so"]);
    assert!(regions[0].has_debug_info);
    assert!(regions[1].has_debug_info);
    assert!(!regions[2].has_debug_info);
    assert!(regions[0].range.is_none());
    assert_eq!(regions[2].range.map(|r| r.from), Some(RelocatedAddress(0x10)));
}
