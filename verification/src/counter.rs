//! The counter contract: an integer behind the name `count`.

use vstd::prelude::*;
use crate::engine::{agrees, arg_outcome, get_arg};
use crate::error::ErrorKind;
use crate::names::{NamedKeyMap, Target};
use crate::reference::Reference;
use crate::registry::{register_outcome, Program, RecordView, Registry};
use crate::rights::AccessRights;
use crate::store::{add_outcome, lemma_read_after_add, read_outcome, wrapping_sum, Store};
use crate::value::{ContractId, TypeTag, Value, ValueView};
use vstd::string::StringExecFns;

verus! {

/// What the counter's entry point does. The name `count` must be bound
/// to a reference and the first argument be a text: `inc` adds one to
/// the slot and returns unit, `get` returns what the slot holds, and
/// any other text traps without touching the store.
pub open spec fn counter_ext_outcome(
    slots: Seq<ValueView>,
    names: Map<Seq<char>, Target>,
    args: ValueView,
) -> (Seq<ValueView>, Result<ValueView, ErrorKind>) {
    if !names.contains_key("count"@) {
        (slots, Err(ErrorKind::UnboundName))
    } else {
        match names["count"@] {
            Target::Contract(_) => (slots, Err(ErrorKind::TypeMismatch)),
            Target::Reference(r) => match arg_outcome(args, 0, TypeTag::Text) {
                Err(e) => (slots, Err(e)),
                Ok(method) => if method.text_value() == "inc"@ {
                    match add_outcome(slots, r.address(), r.granted(), ValueView::of_int(1)) {
                        Ok(after) => (after, Ok(ValueView::unit())),
                        Err(e) => (slots, Err(e)),
                    }
                } else if method.text_value() == "get"@ {
                    (slots, read_outcome(slots, r.address(), r.granted()))
                } else {
                    (slots, Err(ErrorKind::UnknownEntryPoint))
                },
            },
        }
    }
}

/// The counter's entry point, run in a frame with `names` and `args`.
pub fn counter_ext(store: &mut Store, names: &NamedKeyMap, args: &Value) -> (res: Result<
    Value,
    ErrorKind,
>)
    requires
        names.well_formed(),
    ensures
        final(store)@ == counter_ext_outcome(old(store)@, names@, args@).0,
        agrees(res, counter_ext_outcome(old(store)@, names@, args@).1),
{
    let count = match names.resolve_name("count") {
        Ok(Target::Reference(r)) => r,
        Ok(Target::Contract(_)) => {
            return Err(ErrorKind::TypeMismatch);
        },
        Err(e) => {
            return Err(e);
        },
    };
    let method = match get_arg(args, 0, TypeTag::Text) {
        Ok(v) => v,
        Err(e) => {
            return Err(e);
        },
    };
    let text = match method.as_text() {
        Ok(t) => t,
        Err(e) => {
            return Err(e);
        },
    };
    if text == String::from_str("inc") {
        match store.add(&count, &Value::from_int(1)) {
            Ok(()) => Ok(Value::unit()),
            Err(e) => Err(e),
        }
    } else if text == String::from_str("get") {
        store.read(&count)
    } else {
        Err(ErrorKind::UnknownEntryPoint)
    }
}

/// The record that deploying the counter registers, where the store
/// had `slots` slots before: the counter's code, with `count` bound to
/// the reference minted for it.
pub open spec fn counter_record(slots: nat) -> RecordView {
    RecordView {
        code: Program::CounterExt,
        names: Map::<Seq<char>, Target>::empty().insert(
            "count"@,
            Target::Reference(
                Reference::of(slots as u64, (AccessRights { read: true, write: true, add: true })),
            ),
        ),
    }
}

/// Deploys the counter: mints a slot that holds 0, registers the
/// counter's code with that slot under the name `count`, and binds the
/// contract's identity to `counter` in the deployer's `names`.
pub fn call(store: &mut Store, registry: &mut Registry, names: &mut NamedKeyMap) -> (id: ContractId)
    requires
        old(registry).well_formed(),
        old(names).well_formed(),
    ensures
        final(registry).well_formed(),
        final(names).well_formed(),
        final(store)@ == old(store)@.push(ValueView::of_int(0)),
        (final(registry)@, id.index as int) == register_outcome(
            old(registry)@,
            counter_record(old(store)@.len()),
        ),
        final(names)@ == old(names)@.insert("counter"@, Target::Contract(id)),
{
    let counter_local_key = store.mint(Value::from_int(0));
    let mut counter_urefs = NamedKeyMap::new();
    counter_urefs.bind_name("count", Target::Reference(counter_local_key));
    let stored = registry.store_function("counter_ext", counter_urefs);
    let pointer = stored.unwrap();
    names.bind_name("counter", Target::Contract(pointer));
    pointer
}

/// An unknown method traps the counter and leaves the store as it was.
pub proof fn lemma_unknown_method_traps(
    slots: Seq<ValueView>,
    names: Map<Seq<char>, Target>,
    args: ValueView,
)
    requires
        names.contains_key("count"@),
        names["count"@] is Reference,
        arg_outcome(args, 0, TypeTag::Text) matches Ok(method) && method.text_value() != "inc"@
            && method.text_value() != "get"@,
    ensures
        counter_ext_outcome(slots, names, args) == (
            slots,
            Err::<ValueView, ErrorKind>(ErrorKind::UnknownEntryPoint),
        ),
{
}

/// `inc` adds one: where the counter holds `n` and its reference may
/// read and add, `inc` returns unit, and a `get` after it returns the
/// sum of `n` and one.
pub proof fn lemma_inc_then_get(
    slots: Seq<ValueView>,
    names: Map<Seq<char>, Target>,
    inc: ValueView,
    get: ValueView,
    n: i32,
)
    requires
        names.contains_key("count"@),
        names["count"@] matches Target::Reference(r) && r.granted().read && r.granted().add
            && r.address() < slots.len() && slots[r.address() as int] == ValueView::of_int(n),
        arg_outcome(inc, 0, TypeTag::Text) matches Ok(method) && method.text_value() == "inc"@,
        arg_outcome(get, 0, TypeTag::Text) matches Ok(method) && method.text_value() == "get"@,
    ensures
        counter_ext_outcome(slots, names, inc).1 == Ok::<ValueView, ErrorKind>(ValueView::unit()),
        counter_ext_outcome(counter_ext_outcome(slots, names, inc).0, names, get) == (
            counter_ext_outcome(slots, names, inc).0,
            Ok::<ValueView, ErrorKind>(ValueView::of_int(wrapping_sum(n, 1))),
        ),
{
    reveal_strlit("inc");
    reveal_strlit("get");
    assert("inc"@[0] != "get"@[0]);
    match names["count"@] {
        Target::Reference(r) => {
            lemma_read_after_add(slots, r.address(), r.granted(), n, 1);
        },
        Target::Contract(_) => {},
    }
}

} // verus!
