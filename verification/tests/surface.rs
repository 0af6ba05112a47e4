//! Scenarios against the runtime model of the emitted surface: construction,
//! accessors, identity, static state, indexed access, callback adapters and
//! missing host imports.
use std::cell::Cell;

use webidl_core::host::HostEnv;
use webidl_core::host::IndexedState;
use webidl_core::host::Instance;
use webidl_core::host::StaticCell;
use webidl_core::host::call_global;
use webidl_core::host::invoke_binary_callback;
use webidl_core::host::invoke_string_callback;
use webidl_core::host::invoke_unit_callback;
use webidl_core::host::map_present;
use webidl_core::CallError;

fn host_with(names: &[&str]) -> HostEnv {
    HostEnv { defined: names.iter().map(|n| n.to_string()).collect() }
}

#[test]
fn method() {
    let env = host_with(&["ctor"]);
    let ctor = String::from("ctor");
    let pi = Instance::construct(&env, &ctor, 314159).unwrap();
    let e = Instance::construct(&env, &ctor, 271828).unwrap();
    assert!(pi.same(&pi));
    assert!(!pi.same(&e));
    assert!(!e.same(&pi));
    assert!(e.same(&e));
}

#[test]
fn property() {
    let env = host_with(&["ctor"]);
    let mut x = Instance::construct(&env, &String::from("ctor"), 314159).unwrap();
    assert_eq!(x.value(), 314159);
    assert_ne!(x.value(), 271828);
    x.set_value(271828);
    assert_ne!(x.value(), 314159);
    assert_eq!(x.value(), 271828);
}

#[test]
fn property_last_write_wins() {
    let env = host_with(&["ctor"]);
    let mut x = Instance::construct(&env, &String::from("ctor"), 0).unwrap();
    x.set_value(5);
    x.set_value(9);
    x.set_value(-3);
    assert_eq!(x.value(), -3);
}

#[test]
fn named_constructor() {
    let env = host_with(&["ctor"]);
    let x = Instance::construct(&env, &String::from("ctor"), 314159).unwrap();
    assert_eq!(x.value(), 314159);
    assert_ne!(x.value(), 0);
}

#[test]
fn construction_fails_recoverably_without_the_import() {
    let env = host_with(&["other"]);
    let r = Instance::construct(&env, &String::from("ctor"), 1);
    assert!(r.is_err());
    assert!(r.err().unwrap().host_threw);
    // The failure corrupted nothing: the same environment still constructs
    // through the import it does provide.
    let ok = Instance::construct(&env, &String::from("other"), 2);
    assert_eq!(ok.unwrap().value(), 2);
}

#[test]
fn static_method() {
    let mut cell = StaticCell::new();
    assert_eq!(cell.swap(314159), 0);
    assert_eq!(cell.swap(271828), 314159);
    assert_ne!(cell.swap(271828), 314159);
    assert_eq!(cell.swap(314159), 271828);
    assert_ne!(cell.swap(314159), 271828);
}

#[test]
fn static_property() {
    let mut cell = StaticCell::new();
    assert_eq!(cell.value(), 0);
    cell.set_value(314159);
    assert_eq!(cell.value(), 314159);
    assert_ne!(cell.value(), 271828);
    cell.set_value(271828);
    assert_eq!(cell.value(), 271828);
    assert_ne!(cell.value(), 314159);
}

#[test]
fn one_method_with_an_undefined_import_doesnt_break_all_other_methods() {
    let env = host_with(&["ctor", "ok_method"]);
    let f = Instance::construct(&env, &String::from("ctor"), 1).unwrap();
    let bad = f.call_method(&env, &String::from("bad_method"));
    match bad {
        Err(CallError::UndefinedImport(n)) => assert_eq!(n, "bad_method"),
        _ => panic!("a missing import must fail with UndefinedImport"),
    }
    // The failed call left the instance and its other bindings untouched.
    assert_eq!(f.call_method(&env, &String::from("ok_method")).unwrap(), 1);
}

#[test]
fn nullable_method() {
    let bump = |x: i64| x + 1;
    assert_eq!(map_present(&bump, Some(15)), Some(16));
    assert_eq!(map_present(&bump, None), None);
}

#[test]
fn global_method() {
    let env = host_with(&["m"]);
    assert_eq!(call_global(&env, &String::from("m"), 123).unwrap(), 123);
    assert!(call_global(&env, &String::from("absent"), 123).is_err());
}

#[test]
fn indexing() {
    let mut f = IndexedState::new();
    assert_eq!(f.get(123), None);
    f.set(123, 456);
    assert_eq!(f.get(123), Some(456));
    f.delete(123);
    assert_eq!(f.get(123), None);
}

#[test]
fn indexing_delete_is_idempotent_and_keys_are_independent() {
    let mut f = IndexedState::new();
    f.set(1, 10);
    f.set(2, 20);
    f.delete(3);
    assert_eq!(f.get(1), Some(10));
    assert_eq!(f.get(2), Some(20));
    f.set(1, 11);
    assert_eq!(f.get(1), Some(11));
    assert_eq!(f.get(2), Some(20));
    f.delete(1);
    f.delete(1);
    assert_eq!(f.get(1), None);
    assert_eq!(f.get(2), Some(20));
}

#[test]
fn mixin() {
    // A mixin's shared static state, mutated through one instance, is
    // observable through any other call site referencing the same type.
    let env = host_with(&["ctor"]);
    let mut f = Instance::construct(&env, &String::from("ctor"), 1).unwrap();
    let g = Instance::construct(&env, &String::from("ctor"), 1).unwrap();
    let mut default_bar = StaticCell::new();
    assert_eq!(f.value(), 1);
    default_bar.set_value(7);
    assert_eq!(default_bar.value(), 7);
    f.add_to_value(default_bar.value());
    assert_eq!(f.value(), 8);
    // The static slot is shared, not per-instance: the other instance reads
    // the same updated value.
    assert_eq!(g.value() + default_bar.value(), 8);
}

#[test]
fn callback() {
    let hit = Cell::new(false);
    let fired = invoke_unit_callback(&|| {
        hit.set(true);
        true
    });
    assert!(fired);
    assert!(hit.get());

    let add = |a: u64, b: u64| a + b;
    assert_eq!(invoke_binary_callback(&add, 1, 2), 3);
    // The adapter tolerates being invoked many times.
    assert_eq!(invoke_binary_callback(&add, 1, 2), 3);
    assert_eq!(invoke_binary_callback(&add, 40, 2), 42);

    let rep = |a: String, b: usize| a.repeat(b);
    assert_eq!(invoke_string_callback(&rep, String::from("ab"), 4), "abababab");
}
