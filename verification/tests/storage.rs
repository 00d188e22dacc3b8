use contract_host::error::ErrorKind;
use contract_host::names::{NamedKeyMap, Target};
use contract_host::registry::{Program, Registry};
use contract_host::rights::AccessRights;
use contract_host::store::Store;
use contract_host::value::{ContractId, Value};

fn all_rights() -> Vec<AccessRights> {
    let mut all = Vec::new();
    for m in 0u8..8 {
        all.push(AccessRights::from_mask(m).unwrap());
    }
    all
}

#[test]
fn mint_gives_every_right_and_a_fresh_slot() {
    let mut store = Store::new();
    let a = store.mint(Value::from_int(1));
    let b = store.mint(Value::from_int(2));
    assert_eq!(a.rights(), AccessRights::full());
    assert_ne!(a, b);
    assert_eq!(store.len(), 2);
    assert_eq!(store.read(&a), Ok(Value::from_int(1)));
    assert_eq!(store.read(&b), Ok(Value::from_int(2)));
}

#[test]
fn attenuate_to_a_subset_gives_exactly_that_subset() {
    let mut store = Store::new();
    let r = store.mint(Value::unit());
    for source in all_rights() {
        let from = r.attenuate(source).unwrap();
        assert_eq!(from.rights(), source);
        for wanted in all_rights() {
            let got = from.attenuate(wanted);
            if wanted.is_subset_of(&source) {
                assert_eq!(got.unwrap().rights(), wanted);
            } else {
                assert_eq!(got, Err(ErrorKind::InvalidRights));
            }
        }
    }
}

#[test]
fn attenuate_never_amplifies() {
    let mut store = Store::new();
    let r = store.mint(Value::unit());
    let read_only = r.attenuate(AccessRights::new(true, false, false)).unwrap();
    assert_eq!(read_only.attenuate(AccessRights::full()), Err(ErrorKind::InvalidRights));
    assert_eq!(
        read_only.attenuate(AccessRights::new(false, true, false)),
        Err(ErrorKind::InvalidRights)
    );
    assert_eq!(read_only.attenuate(AccessRights::none()).unwrap().rights(), AccessRights::none());
}

#[test]
fn read_after_write_returns_what_was_written() {
    let mut store = Store::new();
    let r = store.mint(Value::from_int(0));
    let other = store.mint(Value::from_text("untouched"));
    let rw = r.attenuate(AccessRights::new(true, true, false)).unwrap();
    assert_eq!(store.write(&rw, Value::from_text("now a text")), Ok(()));
    assert_eq!(store.read(&rw), Ok(Value::from_text("now a text")));
    assert_eq!(store.read(&other), Ok(Value::from_text("untouched")));
}

#[test]
fn operations_need_their_right() {
    let mut store = Store::new();
    let r = store.mint(Value::from_int(5));
    let no_read = r.attenuate(AccessRights::new(false, true, true)).unwrap();
    let no_write = r.attenuate(AccessRights::new(true, false, true)).unwrap();
    let no_add = r.attenuate(AccessRights::new(true, true, false)).unwrap();
    assert_eq!(store.read(&no_read), Err(ErrorKind::PermissionDenied));
    assert_eq!(store.write(&no_write, Value::from_int(9)), Err(ErrorKind::PermissionDenied));
    assert_eq!(store.add(&no_add, &Value::from_int(9)), Err(ErrorKind::PermissionDenied));
    assert_eq!(store.read(&r), Ok(Value::from_int(5)));
}

#[test]
fn a_slot_that_was_never_written_is_not_found() {
    let mut donor = Store::new();
    donor.mint(Value::unit());
    let stray = donor.mint(Value::unit());
    let mut store = Store::new();
    store.mint(Value::from_int(1));
    assert_eq!(store.read(&stray), Err(ErrorKind::ValueNotFound));
    assert_eq!(store.write(&stray, Value::unit()), Err(ErrorKind::ValueNotFound));
    assert_eq!(store.add(&stray, &Value::from_int(1)), Err(ErrorKind::ValueNotFound));
    assert_eq!(store.len(), 1);
}

#[test]
fn add_sums_integers() {
    let mut store = Store::new();
    let r = store.mint(Value::from_int(40));
    assert_eq!(store.add(&r, &Value::from_int(2)), Ok(()));
    assert_eq!(store.read(&r), Ok(Value::from_int(42)));
    assert_eq!(store.add(&r, &Value::from_int(-50)), Ok(()));
    assert_eq!(store.read(&r), Ok(Value::from_int(-8)));
}

#[test]
fn add_wraps_round_in_32_bits() {
    let mut store = Store::new();
    let r = store.mint(Value::from_int(i32::MAX));
    assert_eq!(store.add(&r, &Value::from_int(1)), Ok(()));
    assert_eq!(store.read(&r), Ok(Value::from_int(i32::MIN)));
    assert_eq!(store.add(&r, &Value::from_int(-1)), Ok(()));
    assert_eq!(store.read(&r), Ok(Value::from_int(i32::MAX)));
}

#[test]
fn add_on_an_incompatible_type_is_a_mismatch() {
    let mut store = Store::new();
    let text = store.mint(Value::from_text("not a number"));
    assert_eq!(store.add(&text, &Value::from_int(1)), Err(ErrorKind::TypeMismatch));
    assert_eq!(store.read(&text), Ok(Value::from_text("not a number")));
    let int = store.mint(Value::from_int(1));
    assert_eq!(store.add(&int, &Value::from_text("x")), Err(ErrorKind::TypeMismatch));
    assert_eq!(store.read(&int), Ok(Value::from_int(1)));
}

#[test]
fn counter_scenario_three_increments() {
    let mut store = Store::new();
    let minted = store.mint(Value::from_int(0));
    let r = minted.attenuate(AccessRights::new(true, false, true)).unwrap();
    for _ in 0..3 {
        assert_eq!(store.add(&r, &Value::from_int(1)), Ok(()));
    }
    assert_eq!(store.read(&r), Ok(Value::from_int(3)));
    assert_eq!(store.write(&r, Value::from_int(0)), Err(ErrorKind::PermissionDenied));
}

#[test]
fn absent_name_is_unbound() {
    let map = NamedKeyMap::new();
    assert_eq!(map.resolve_name("absent"), Err(ErrorKind::UnboundName));
    assert_eq!(map.len(), 0);
}

#[test]
fn bind_then_resolve_round_trips() {
    let mut store = Store::new();
    let a = store.mint(Value::unit());
    let b = store.mint(Value::unit());
    let mut map = NamedKeyMap::new();
    map.bind_name("first", Target::Reference(a));
    map.bind_name("second", Target::Contract(ContractId { index: 3 }));
    assert_eq!(map.resolve_name("first"), Ok(Target::Reference(a)));
    assert_eq!(map.resolve_name("second"), Ok(Target::Contract(ContractId { index: 3 })));
    assert_eq!(map.resolve_name("third"), Err(ErrorKind::UnboundName));
    map.bind_name("first", Target::Reference(b));
    assert_eq!(map.resolve_name("first"), Ok(Target::Reference(b)));
    assert_eq!(map.resolve_name("second"), Ok(Target::Contract(ContractId { index: 3 })));
    assert_eq!(map.len(), 2);
}

#[test]
fn maps_compare_by_their_bindings() {
    let mut store = Store::new();
    let a = store.mint(Value::unit());
    let mut one = NamedKeyMap::new();
    one.bind_name("x", Target::Reference(a));
    one.bind_name("y", Target::Contract(ContractId { index: 1 }));
    let mut two = NamedKeyMap::new();
    two.bind_name("y", Target::Contract(ContractId { index: 1 }));
    two.bind_name("x", Target::Reference(a));
    assert!(one.same_as(&two));
    assert!(one.same_as(&one.duplicate()));
    two.bind_name("z", Target::Reference(a));
    assert!(!one.same_as(&two));
    assert!(!two.same_as(&one));
    one.bind_name("z", Target::Contract(ContractId { index: 1 }));
    assert!(!one.same_as(&two));
}

#[test]
fn register_twice_gives_one_identity() {
    let mut store = Store::new();
    let a = store.mint(Value::from_int(0));
    let mut names = NamedKeyMap::new();
    names.bind_name("count", Target::Reference(a));
    let mut registry = Registry::new();
    let first = registry.register(Program::CounterExt, names.duplicate());
    let second = registry.register(Program::CounterExt, names.duplicate());
    assert_eq!(first, second);
    assert_eq!(registry.len(), 1);
    let one = registry.lookup(first).unwrap();
    let two = registry.lookup(second).unwrap();
    assert_eq!(one.code, Program::CounterExt);
    assert_eq!(two.code, Program::CounterExt);
    assert!(one.names.same_as(&names));
    assert!(two.names.same_as(&names));
}

#[test]
fn other_code_or_other_names_get_another_identity() {
    let mut store = Store::new();
    let a = store.mint(Value::from_int(0));
    let mut names = NamedKeyMap::new();
    names.bind_name("count", Target::Reference(a));
    let mut registry = Registry::new();
    let first = registry.register(Program::CounterExt, names.duplicate());
    let second = registry.register(Program::MailingList, names.duplicate());
    let third = registry.register(Program::CounterExt, NamedKeyMap::new());
    assert_ne!(first, second);
    assert_ne!(first, third);
    assert_ne!(second, third);
    assert_eq!(registry.len(), 3);
    assert_eq!(registry.register(Program::MailingList, names.duplicate()), second);
    assert_eq!(registry.len(), 3);
}

#[test]
fn lookup_of_an_unregistered_identity_fails() {
    let registry = Registry::new();
    assert_eq!(registry.lookup(ContractId { index: 0 }).err(), Some(ErrorKind::ContractNotFound));
    let mut registry = Registry::new();
    let id = registry.register(Program::CounterExt, NamedKeyMap::new());
    assert!(registry.lookup(id).is_ok());
    assert_eq!(
        registry.lookup(ContractId { index: id.index + 1 }).err(),
        Some(ErrorKind::ContractNotFound)
    );
}

#[test]
fn store_function_registers_by_entry_point_name() {
    let mut registry = Registry::new();
    let by_name = registry.store_function("counter_ext", NamedKeyMap::new());
    let by_code = registry.register(Program::CounterExt, NamedKeyMap::new());
    assert_eq!(by_name, Ok(by_code));
    assert_eq!(Program::from_name("mailing_list_ext"), Some(Program::MailingList));
    assert_eq!(Program::from_name("list_client"), Some(Program::ListClient));
    assert_eq!(Program::from_name("counter"), None);
    assert_eq!(
        registry.store_function("no_such_entry", NamedKeyMap::new()),
        Err(ErrorKind::UnknownEntryPoint)
    );
    assert_eq!(registry.len(), 1);
}
