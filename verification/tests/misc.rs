use bugstalker::debugger::debugee::dwarf::types::CModifier;
use bugstalker::debugger::error::Error;
use bugstalker::debugger::rust::{parse_default_toolchain, Environment, Toolchain};
use bugstalker::debugger::utils::{PopIf, TryGetOrInsert};
use bugstalker::debugger::uw::is_main_frame;
use bugstalker::debugger::variable::{is_u32_literal, prettify_name, CEnumIR};
use bugstalker::text::{contains, words};

#[test]
fn default_toolchain_from_rustup_list() {
    let out = "stable-x86_64-unknown-linux-gnu (default) /home/u/.rustup/toolchains/stable-x86_64-unknown-linux-gnu\nnightly-x86_64-unknown-linux-gnu /home/u/.rustup/toolchains/nightly\n";
    let t = parse_default_toolchain(out).unwrap();
    assert_eq!(t.name(), "stable-x86_64-unknown-linux-gnu");
    assert_eq!(t.path(), "/home/u/.rustup/toolchains/stable-x86_64-unknown-linux-gnu");
    assert_eq!(
        t.std_lib_path(),
        "/home/u/.rustup/toolchains/stable-x86_64-unknown-linux-gnu/lib/rustlib/src/rust"
    );
}

#[test]
fn default_toolchain_errors() {
    assert!(matches!(parse_default_toolchain("a b c\n"), Err(Error::DefaultToolchainNotFound)));
    assert!(matches!(parse_default_toolchain("x (default)\n"), Err(Error::UnrecognizedRustupOut)));
    assert!(matches!(parse_default_toolchain(""), Err(Error::DefaultToolchainNotFound)));
}

#[test]
fn environment_prefers_given_std_lib_path() {
    let t = Toolchain::new("stable".to_string(), "/tc".to_string());
    let env = Environment::init(Some("/my/std".to_string()), Some(t));
    assert_eq!(env.std_lib_path.as_deref(), Some("/my/std"));
    let t = Toolchain::new("stable".to_string(), "/tc".to_string());
    let env = Environment::init(None, Some(t));
    assert_eq!(env.std_lib_path.as_deref(), Some("/tc/lib/rustlib/src/rust"));
    let env = Environment::init(None, None);
    assert!(env.std_lib_path.is_none());
    assert!(env.toolchain.is_none());
}

#[test]
fn main_frames_end_backtrace() {
    assert!(is_main_frame("main"));
    assert!(is_main_frame("app::main"));
    assert!(is_main_frame("std::sys::thread_start"));
    assert!(!is_main_frame("mainly"));
    assert!(!is_main_frame("app::run"));
}

#[test]
fn tuple_positions_are_shown_as_numbers() {
    assert_eq!(prettify_name("__0"), "0");
    assert_eq!(prettify_name("___12"), "12");
    assert_eq!(prettify_name("__x"), "__x");
    assert_eq!(prettify_name("_1"), "_1");
    assert_eq!(prettify_name("name"), "name");
    assert_eq!(prettify_name("__99999999999"), "__99999999999");
    assert!(is_u32_literal("4294967295"));
    assert!(!is_u32_literal("4294967296"));
    assert!(is_u32_literal("+7"));
    assert!(!is_u32_literal("+"));
    assert!(!is_u32_literal(""));
    assert!(!is_u32_literal("-1"));
}

#[test]
fn c_enum_variable() {
    let v = CEnumIR::new("__1".to_string(), "Color".to_string(), Some("Red".to_string()));
    assert_eq!(v.name(), "1");
    assert_eq!(v.typ(), "Color");
    assert_eq!(v.value(), Some(&"Red".to_string()));
}

#[test]
fn modifier_names() {
    assert_eq!(CModifier::TypeDef.name(), "type_def");
    assert_eq!(CModifier::Const.name(), "const");
    assert_eq!(CModifier::Restrict.name(), "restrict");
}

#[test]
fn pop_if_single_element() {
    let mut v = vec![1];
    assert_eq!(v.pop_if_single_el(), Some(1));
    assert!(v.is_empty());
    let mut v = vec![1, 2];
    assert_eq!(v.pop_if_single_el(), None);
    assert_eq!(v, vec![1, 2]);
    assert_eq!(v.pop_if_cond(|v| v.len() == 2), Some(2));
}

#[test]
fn cache_slot_is_filled_once() {
    let mut slot: Option<i32> = None;
    assert_eq!(slot.try_get_or_insert_with(|| Ok::<i32, ()>(5)), Ok(&5));
    assert_eq!(slot.try_get_or_insert_with(|| Err::<i32, ()>(())), Ok(&5));
    let mut empty: Option<i32> = None;
    assert_eq!(empty.try_get_or_insert_with(|| Err::<i32, &str>("no")), Err("no"));
    assert!(empty.is_none());
}

#[test]
fn text_words_and_contains() {
    assert_eq!(words("  a bc\t d\n"), vec!["a", "bc", "d"]);
    assert!(words("   ").is_empty());
    assert!(contains("hello world", "o w"));
    assert!(!contains("hello", "world"));
    assert!(contains("x", ""));
}

#[test]
fn fatal_errors() {
    assert!(!Error::NoSuitablePlace.is_fatal());
    assert!(Error::DwarfParsing("bad".to_string()).is_fatal());
    assert!(Error::Attach(3).is_fatal());
    assert!(!Error::Ptrace(3).is_fatal());
}

use bugstalker::debugger::address::RelocatedAddress;
use bugstalker::debugger::hook::{EventHook, NopHook};

#[test]
fn nop_hook_accepts_every_event() {
    let hook = NopHook {};
    assert!(hook.on_breakpoint(RelocatedAddress(0x1000), 1, None, None).is_ok());
    assert!(hook.on_step(RelocatedAddress(0x1000), None, None).is_ok());
    hook.on_signal(10);
    hook.on_exit(0);
    hook.on_process_install(42, Some("/bin/true"));
}
