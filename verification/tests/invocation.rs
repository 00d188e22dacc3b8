use contract_host::counter;
use contract_host::engine::{encode_args, get_arg, invoke};
use contract_host::frame::{FrameEvent, FrameState};
use contract_host::error::{ErrorKind, Trap};
use contract_host::mailing_list;
use contract_host::names::{NamedKeyMap, Target};
use contract_host::registry::{Program, Registry};
use contract_host::rights::AccessRights;
use contract_host::store::Store;
use contract_host::value::{ContractId, TypeTag, Value};

fn texts(items: &[&str]) -> Vec<u8> {
    let values: Vec<Value> = items.iter().map(|s| Value::from_text(s)).collect();
    encode_args(&values)
}

fn list_of(values: &[Value]) -> Value {
    let mut list = Value::empty_list();
    for v in values {
        list.push_value(v).unwrap();
    }
    list
}

fn feed_of(items: &[&str]) -> Value {
    let mut list = Value::empty_list();
    for s in items {
        list.push_text(s).unwrap();
    }
    list
}

fn deployed_list(store: &mut Store, registry: &mut Registry) -> ContractId {
    let slot = store.mint(Value::unit());
    let mut base = NamedKeyMap::new();
    base.bind_name("subscriber", Target::Reference(slot));
    assert_eq!(base.resolve_name("mail_feed"), Err(ErrorKind::UnboundName));
    registry.register(Program::MailingList, base)
}

#[test]
fn arguments_are_read_by_place_and_type() {
    let args = list_of(&[Value::from_text("inc"), Value::from_int(4)]);
    assert_eq!(get_arg(&args, 0, TypeTag::Text), Ok(Value::from_text("inc")));
    assert_eq!(get_arg(&args, 1, TypeTag::Int), Ok(Value::from_int(4)));
    assert_eq!(get_arg(&args, 1, TypeTag::Text), Err(ErrorKind::ArgumentType));
    assert_eq!(get_arg(&args, 0, TypeTag::Int), Err(ErrorKind::ArgumentType));
    assert_eq!(get_arg(&args, 2, TypeTag::Int), Err(ErrorKind::ArgumentMissing));
    assert_eq!(get_arg(&Value::empty_list(), 0, TypeTag::Unit), Err(ErrorKind::ArgumentMissing));
    assert_eq!(get_arg(&Value::from_int(1), 0, TypeTag::Int), Err(ErrorKind::Deserialization));
}

#[test]
fn encoded_arguments_decode_in_order() {
    let mut store = Store::new();
    let r = store.mint(Value::unit());
    let values = vec![
        Value::from_text("sub"),
        Value::from_int(-7),
        Value::from_reference(r),
        Value::unit(),
        list_of(&[Value::from_text("nested")]),
    ];
    let bytes = encode_args(&values);
    let list = Value::decode(&bytes, TypeTag::List).unwrap();
    assert_eq!(list, list_of(&values));
    for (i, v) in values.iter().enumerate() {
        assert_eq!(get_arg(&list, i, v.tag()), Ok(v.duplicate()));
        assert_eq!(list.item_at(i), Some(v.encode()));
    }
    assert_eq!(list.item_at(values.len()), None);
    assert_eq!(get_arg(&list, values.len(), TypeTag::Unit), Err(ErrorKind::ArgumentMissing));
    assert_eq!(
        encode_args(&vec![Value::unit()]),
        vec![5, 17, 0, 0, 0, 0, 0, 0, 0, 9, 0, 0, 0, 0, 0, 0, 0, 0, 0, 0, 0, 0, 0, 0, 0, 0]
    );
}

#[test]
fn arguments_that_do_not_decode_trap_the_callee() {
    let mut store = Store::new();
    let mut registry = Registry::new();
    let mut names = NamedKeyMap::new();
    let id = counter::call(&mut store, &mut registry, &mut names);
    let got = invoke(&mut store, &registry, id, &vec![5, 1, 2], 0, 8);
    assert_eq!(got, Err(Trap { cause: ErrorKind::Deserialization, depth: 1 }));
    let got = invoke(&mut store, &registry, id, &Value::from_text("inc").encode(), 0, 8);
    assert_eq!(got, Err(Trap { cause: ErrorKind::Deserialization, depth: 1 }));
}

#[test]
fn frame_states() {
    let created = FrameState::Created;
    assert_eq!(created.step(FrameEvent::Start), Some(FrameState::Running));
    assert_eq!(created.step(FrameEvent::Return), None);
    assert_eq!(created.step(FrameEvent::Trap), None);
    let running = FrameState::Running;
    assert_eq!(running.step(FrameEvent::Return), Some(FrameState::Returned));
    assert_eq!(running.step(FrameEvent::Trap), Some(FrameState::Trapped));
    assert_eq!(running.step(FrameEvent::Start), None);
    for ended in [FrameState::Returned, FrameState::Trapped] {
        assert!(ended.is_terminal());
        for event in [FrameEvent::Start, FrameEvent::Return, FrameEvent::Trap] {
            assert_eq!(ended.step(event), None);
        }
    }
    assert!(!created.is_terminal());
    assert!(!running.is_terminal());
}

#[test]
fn deployed_counter_counts() {
    let mut store = Store::new();
    let mut registry = Registry::new();
    let mut names = NamedKeyMap::new();
    let id = counter::call(&mut store, &mut registry, &mut names);
    assert_eq!(names.resolve_name("counter"), Ok(Target::Contract(id)));
    assert_eq!(store.len(), 1);
    assert_eq!(registry.len(), 1);
    assert_eq!(invoke(&mut store, &registry, id, &texts(&["get"]), 0, 8), Ok(Value::from_int(0)));
    for _ in 0..3 {
        assert_eq!(invoke(&mut store, &registry, id, &texts(&["inc"]), 0, 8), Ok(Value::unit()));
    }
    assert_eq!(invoke(&mut store, &registry, id, &texts(&["get"]), 0, 8), Ok(Value::from_int(3)));
    let record = registry.lookup(id).unwrap();
    assert_eq!(record.code, Program::CounterExt);
    match record.names.resolve_name("count") {
        Ok(Target::Reference(r)) => {
            assert_eq!(r.rights(), AccessRights::full());
            assert_eq!(store.read(&r), Ok(Value::from_int(3)));
        }
        other => panic!("count is bound to {:?}", other),
    }
}

#[test]
fn callee_names_are_not_the_callers() {
    let mut store = Store::new();
    let mut registry = Registry::new();
    let mut names = NamedKeyMap::new();
    let id = counter::call(&mut store, &mut registry, &mut names);
    assert_eq!(names.resolve_name("count"), Err(ErrorKind::UnboundName));
    let record = registry.lookup(id).unwrap();
    assert_eq!(record.names.resolve_name("counter"), Err(ErrorKind::UnboundName));
}

#[test]
fn unknown_method_traps_and_commits_nothing() {
    let mut store = Store::new();
    let mut registry = Registry::new();
    let mut names = NamedKeyMap::new();
    let id = counter::call(&mut store, &mut registry, &mut names);
    invoke(&mut store, &registry, id, &texts(&["inc"]), 0, 8).unwrap();
    let got = invoke(&mut store, &registry, id, &texts(&["dec"]), 0, 8);
    assert_eq!(got, Err(Trap { cause: ErrorKind::UnknownEntryPoint, depth: 1 }));
    assert_eq!(store.len(), 1);
    assert_eq!(invoke(&mut store, &registry, id, &texts(&["get"]), 0, 8), Ok(Value::from_int(1)));
    let list = deployed_list(&mut store, &mut registry);
    let before = store.len();
    let got = invoke(&mut store, &registry, list, &texts(&["unsub", "X"]), 0, 8);
    assert_eq!(got, Err(Trap { cause: ErrorKind::UnknownEntryPoint, depth: 1 }));
    assert_eq!(store.len(), before);
}

#[test]
fn counter_entry_point_errors() {
    let mut store = Store::new();
    let slot = store.mint(Value::from_int(0));
    let mut names = NamedKeyMap::new();
    let inc = list_of(&[Value::from_text("inc")]);
    assert_eq!(counter::counter_ext(&mut store, &names, &inc), Err(ErrorKind::UnboundName));
    names.bind_name("count", Target::Contract(ContractId { index: 0 }));
    assert_eq!(counter::counter_ext(&mut store, &names, &inc), Err(ErrorKind::TypeMismatch));
    names.bind_name("count", Target::Reference(slot));
    assert_eq!(
        counter::counter_ext(&mut store, &names, &Value::empty_list()),
        Err(ErrorKind::ArgumentMissing)
    );
    assert_eq!(
        counter::counter_ext(&mut store, &names, &list_of(&[Value::from_int(1)])),
        Err(ErrorKind::ArgumentType)
    );
    let read_only = slot.attenuate(AccessRights::new(true, false, false)).unwrap();
    names.bind_name("count", Target::Reference(read_only));
    assert_eq!(counter::counter_ext(&mut store, &names, &inc), Err(ErrorKind::PermissionDenied));
    assert_eq!(
        counter::counter_ext(&mut store, &names, &list_of(&[Value::from_text("get")])),
        Ok(Value::from_int(0))
    );
    store.write(&slot, Value::from_text("text")).unwrap();
    names.bind_name("count", Target::Reference(slot));
    assert_eq!(counter::counter_ext(&mut store, &names, &inc), Err(ErrorKind::TypeMismatch));
}

#[test]
fn invoke_of_an_unregistered_contract_fails_in_the_caller() {
    let mut store = Store::new();
    let registry = Registry::new();
    let got = invoke(&mut store, &registry, ContractId { index: 4 }, &texts(&["get"]), 0, 8);
    assert_eq!(got, Err(Trap { cause: ErrorKind::ContractNotFound, depth: 0 }));
}

#[test]
fn mailing_list_scenario() {
    let mut store = Store::new();
    let mut registry = Registry::new();
    let list = deployed_list(&mut store, &mut registry);
    let mut caller = NamedKeyMap::new();

    let key = invoke(&mut store, &registry, list, &texts(&["sub", "X"]), 0, 8).unwrap();
    let feed = key.as_reference().unwrap();
    assert_eq!(store.read(&feed), Ok(feed_of(&["Welcome!"])));
    caller.bind_name("mail_feed", Target::Reference(feed));
    assert_eq!(caller.resolve_name("mail_feed"), Ok(Target::Reference(feed)));

    assert_eq!(invoke(&mut store, &registry, list, &texts(&["pub", "hi"]), 0, 8), Ok(Value::unit()));
    assert_eq!(store.read(&feed), Ok(feed_of(&["Welcome!", "hi"])));

    let base = registry.lookup(list).unwrap();
    assert_eq!(base.names.resolve_name("mail_feed"), Err(ErrorKind::UnboundName));
}

#[test]
fn mailing_list_deployment_reads_welcome_and_greeting() {
    let mut store = Store::new();
    let mut registry = Registry::new();
    let list = deployed_list(&mut store, &mut registry);
    let mut names = NamedKeyMap::new();
    let messages = mailing_list::call(&mut store, &registry, &mut names, list, 0, 8);
    assert_eq!(messages, Ok(feed_of(&["Welcome!", "Hello, World!"])));
    match names.resolve_name("mail_feed") {
        Ok(Target::Reference(feed)) => {
            assert_eq!(store.read(&feed), Ok(feed_of(&["Welcome!", "Hello, World!"])));
        }
        other => panic!("mail_feed is bound to {:?}", other),
    }
}

#[test]
fn mailing_list_deployment_reports_the_trap() {
    let mut store = Store::new();
    let registry = Registry::new();
    let mut names = NamedKeyMap::new();
    let got = mailing_list::call(&mut store, &registry, &mut names, ContractId { index: 0 }, 0, 8);
    assert_eq!(got, Err(Trap { cause: ErrorKind::ContractNotFound, depth: 0 }));
    assert_eq!(names.resolve_name("mail_feed"), Err(ErrorKind::UnboundName));

    let mut registry = Registry::new();
    let mut deployer = NamedKeyMap::new();
    let counter_id = counter::call(&mut store, &mut registry, &mut deployer);
    let got = mailing_list::call(&mut store, &registry, &mut names, counter_id, 0, 8);
    assert_eq!(got, Err(Trap { cause: ErrorKind::UnknownEntryPoint, depth: 1 }));
    assert_eq!(store.len(), 1);
    assert_eq!(names.resolve_name("mail_feed"), Err(ErrorKind::UnboundName));
}

#[test]
fn a_trap_after_the_subscription_unbinds_the_feed() {
    // a list whose subscriber slot may be written but not read: `sub`
    // succeeds and `pub` traps
    let mut store = Store::new();
    let mut registry = Registry::new();
    let slot = store.mint(Value::unit());
    let write_only = slot.attenuate(AccessRights::new(false, true, false)).unwrap();
    let mut base = NamedKeyMap::new();
    base.bind_name("subscriber", Target::Reference(write_only));
    let list = registry.register(Program::MailingList, base);
    let mut names = NamedKeyMap::new();
    names.bind_name("kept", Target::Contract(list));
    let got = mailing_list::call(&mut store, &registry, &mut names, list, 0, 8);
    assert_eq!(got, Err(Trap { cause: ErrorKind::PermissionDenied, depth: 1 }));
    assert_eq!(names.resolve_name("mail_feed"), Err(ErrorKind::UnboundName));
    assert_eq!(names.resolve_name("kept"), Ok(Target::Contract(list)));
    // what the subscription committed stays committed
    assert_eq!(store.len(), 2);
    assert!(store.read(&slot).unwrap().as_reference().is_ok());
}

#[test]
fn publishing_without_a_subscriber_does_nothing() {
    let mut store = Store::new();
    let mut registry = Registry::new();
    let list = deployed_list(&mut store, &mut registry);
    assert_eq!(invoke(&mut store, &registry, list, &texts(&["pub", "hi"]), 0, 8), Ok(Value::unit()));
    assert_eq!(store.len(), 1);
    assert_eq!(
        invoke(&mut store, &registry, list, &texts(&["pub"]), 0, 8),
        Err(Trap { cause: ErrorKind::ArgumentMissing, depth: 1 })
    );
}

#[test]
fn subscribing_needs_the_write_right() {
    let mut store = Store::new();
    let slot = store.mint(Value::unit());
    let read_only = slot.attenuate(AccessRights::new(true, false, false)).unwrap();
    let mut base = NamedKeyMap::new();
    base.bind_name("subscriber", Target::Reference(read_only));
    let args = list_of(&[Value::from_text("sub"), Value::from_text("X")]);
    let got = mailing_list::list_ext(&mut store, &base, &args);
    assert_eq!(got, Err(ErrorKind::PermissionDenied));
    assert_eq!(store.len(), 1);
}

fn deployed_client(registry: &mut Registry, list: ContractId) -> ContractId {
    let mut base = NamedKeyMap::new();
    base.bind_name("list", Target::Contract(list));
    registry.register(Program::ListClient, base)
}

#[test]
fn a_contract_invokes_another() {
    let mut store = Store::new();
    let mut registry = Registry::new();
    let list = deployed_list(&mut store, &mut registry);
    let client = deployed_client(&mut registry, list);
    let got = invoke(&mut store, &registry, client, &texts(&[]), 0, 8);
    assert_eq!(got, Ok(feed_of(&["Welcome!", "Hello, World!"])));
    // the binding that the client made ended with its frame
    let record = registry.lookup(client).unwrap();
    assert_eq!(record.names.resolve_name("mail_feed"), Err(ErrorKind::UnboundName));
    assert_eq!(record.names.resolve_name("list"), Ok(Target::Contract(list)));
}

#[test]
fn a_trap_reports_the_depth_of_its_frame() {
    let mut store = Store::new();
    let mut registry = Registry::new();
    let mut deployer = NamedKeyMap::new();
    let counter_id = counter::call(&mut store, &mut registry, &mut deployer);
    // the counter knows no `sub`: it traps two levels below the deployment
    let client = deployed_client(&mut registry, counter_id);
    let got = invoke(&mut store, &registry, client, &texts(&[]), 0, 8);
    assert_eq!(got, Err(Trap { cause: ErrorKind::UnknownEntryPoint, depth: 2 }));
    // a client without its list traps in its own frame
    let lost = registry.register(Program::ListClient, NamedKeyMap::new());
    let got = invoke(&mut store, &registry, lost, &texts(&[]), 0, 8);
    assert_eq!(got, Err(Trap { cause: ErrorKind::UnboundName, depth: 1 }));
    let got = invoke(&mut store, &registry, lost, &texts(&[]), 3, 8);
    assert_eq!(got, Err(Trap { cause: ErrorKind::UnboundName, depth: 4 }));
    // a client of a client gets a feed where it awaits a reference
    let list = deployed_list(&mut store, &mut registry);
    let inner = deployed_client(&mut registry, list);
    let outer = deployed_client(&mut registry, inner);
    let got = invoke(&mut store, &registry, outer, &texts(&[]), 0, 8);
    assert_eq!(got, Err(Trap { cause: ErrorKind::TypeMismatch, depth: 1 }));
}

#[test]
fn calls_stop_at_the_limit() {
    let mut store = Store::new();
    let mut registry = Registry::new();
    let list = deployed_list(&mut store, &mut registry);
    let client = deployed_client(&mut registry, list);
    let got = invoke(&mut store, &registry, client, &texts(&[]), 0, 0);
    assert_eq!(got, Err(Trap { cause: ErrorKind::ResourceLimit, depth: 0 }));
    let got = invoke(&mut store, &registry, client, &texts(&[]), 0, 1);
    assert_eq!(got, Err(Trap { cause: ErrorKind::ResourceLimit, depth: 1 }));
    assert_eq!(store.len(), 1);
    let got = invoke(&mut store, &registry, client, &texts(&[]), 0, 2);
    assert_eq!(got, Ok(feed_of(&["Welcome!", "Hello, World!"])));
    // a contract that calls itself goes down to the limit and no further
    let own = ContractId { index: registry.len() as u64 };
    let itself = deployed_client(&mut registry, own);
    assert_eq!(itself, own);
    let before = store.len();
    let got = invoke(&mut store, &registry, itself, &texts(&[]), 0, 50);
    assert_eq!(got, Err(Trap { cause: ErrorKind::ResourceLimit, depth: 50 }));
    assert_eq!(store.len(), before);
}
