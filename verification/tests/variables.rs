use bugstalker::debugger::debugee::dwarf::types::StructureMember;
use bugstalker::debugger::variable::{as_c_enum_ir, as_discriminator, select_rust_enumerator};

#[test]
fn discriminator_is_read_by_its_unsigned_type() {
    let bytes = [0x34u8, 0x12, 0, 0, 0, 0, 0, 0x80];
    assert_eq!(as_discriminator(Some("u8"), Some(&bytes)), Some(0x34));
    assert_eq!(as_discriminator(Some("u16"), Some(&bytes)), Some(0x1234));
    assert_eq!(as_discriminator(Some("u32"), Some(&bytes)), Some(0x1234));
    // the top bit of a u64 makes a negative i64
    assert_eq!(as_discriminator(Some("u64"), Some(&bytes)), Some(0x8000_0000_0000_1234u64 as i64));
    assert_eq!(as_discriminator(Some("i32"), Some(&bytes)), None);
    assert_eq!(as_discriminator(None, Some(&bytes)), None);
    assert_eq!(as_discriminator(Some("u8"), None), None);
}

#[test]
fn c_enum_value_is_the_selected_enumerator() {
    let enumerators = vec![(0, "Red".to_string()), (1, "Green".to_string())];
    let v = as_c_enum_ir(Some("color"), Some("Color"), Some(1), &enumerators);
    assert_eq!(v.name(), "color");
    assert_eq!(v.typ(), "Color");
    assert_eq!(v.value().map(|s| s.as_str()), Some("Green"));
    let unknown = as_c_enum_ir(None, None, Some(7), &enumerators);
    assert_eq!(unknown.name(), "unknown");
    assert_eq!(unknown.typ(), "unknown");
    assert_eq!(unknown.value(), None);
    assert_eq!(as_c_enum_ir(None, None, None, &enumerators).value(), None);
}

fn member(name: &str) -> StructureMember {
    StructureMember { name: Some(name.to_string()), type_ref: None }
}

#[test]
fn rust_enumerator_falls_back_to_the_default() {
    let enumerators = vec![(Some(0), member("None")), (None, member("Some")), (Some(2), member("Other"))];
    assert_eq!(select_rust_enumerator(&enumerators, Some(0)), Some(0));
    assert_eq!(select_rust_enumerator(&enumerators, Some(2)), Some(2));
    assert_eq!(select_rust_enumerator(&enumerators, Some(5)), Some(1));
    assert_eq!(select_rust_enumerator(&enumerators, None), None);
    let without_default = vec![(Some(0), member("A"))];
    assert_eq!(select_rust_enumerator(&without_default, Some(3)), None);
}
