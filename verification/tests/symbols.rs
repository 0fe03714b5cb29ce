use bugstalker::debugger::address::GlobalAddress;
use bugstalker::debugger::debugee::dwarf::symbol::{get_symbols, RawSymbol, SymbolKind, SymbolRegex, SymbolTab};
use bugstalker::debugger::error::Error;

fn raw(name: &str, kind: SymbolKind, addr: usize) -> RawSymbol {
    RawSymbol { name: name.to_string(), kind, addr: GlobalAddress(addr) }
}

fn table() -> SymbolTab {
    SymbolTab::new(&vec![
        raw("_ZN4main4test17h1234567890abcdefE", SymbolKind::Text, 0x1000),
        raw("printf", SymbolKind::Text, 0x2000),
        raw("GLOBAL_COUNTER", SymbolKind::Data, 0x3000),
        // a later symbol with the same name replaces the earlier one
        raw("printf", SymbolKind::Text, 0x2100),
    ])
}

#[test]
fn symbols_are_found_by_demangled_name() {
    let t = table();
    let re = SymbolRegex::new("^main::test").unwrap();
    assert!(re.finds("main::test::h1234567890abcdef"));
    let found = t.find(&re);
    assert_eq!(found.len(), 1);
    assert_eq!(found[0].name, "main::test::h1234567890abcdef");
    assert_eq!(found[0].kind, SymbolKind::Text);
    assert_eq!(found[0].addr, GlobalAddress(0x1000));
}

#[test]
fn a_later_symbol_of_the_same_name_wins() {
    let t = table();
    let found = t.find(&SymbolRegex::new("printf").unwrap());
    assert_eq!(found.len(), 1);
    assert_eq!(found[0].addr, GlobalAddress(0x2100));
}

#[test]
fn get_symbols_searches_every_table() {
    let tables = vec![
        table(),
        SymbolTab::new(&vec![raw("GLOBAL_LIMIT", SymbolKind::Data, 0x10), raw("main", SymbolKind::Text, 0x20)]),
    ];
    let mut names: Vec<&str> = get_symbols(&tables, "^GLOBAL_").unwrap().iter().map(|s| s.name).collect();
    names.sort();
    assert_eq!(names, vec!["GLOBAL_COUNTER", "GLOBAL_LIMIT"]);
    assert_eq!(get_symbols(&tables, "nothing_like_this").unwrap().len(), 0);
    assert!(matches!(get_symbols(&tables, "main(").err(), Some(Error::RegEx(_))));
    assert!(matches!(SymbolRegex::new("[").err(), Some(Error::RegEx(_))));
}
