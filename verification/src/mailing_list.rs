//! The mailing-list contract and a deployment that calls it.

use vstd::prelude::*;
use vstd::utf8::{encode_utf8, is_ascii_chars, is_ascii_chars_encode_utf8};
use crate::bytes::lemma_u64_round_trip;
use crate::engine::{
    agrees, arg_outcome, args_encoding, encode_args, get_arg, invoke, invoke_outcome,
    lemma_args_round_trip, packed, trapped, views,
};
use crate::error::{ErrorKind, Trap};
use crate::names::{NamedKeyMap, Target};
use crate::reference::Reference;
use crate::registry::{lookup_outcome, Program, RecordView, Registry};
use crate::rights::AccessRights;
use crate::store::{read_outcome, write_outcome, Store};
use crate::value::{decoding, lemma_reference_value, ContractId, TypeTag, Value, ValueView};
use vstd::string::StringExecFns;

verus! {

/// The feed that a new subscriber gets: one message of welcome.
pub open spec fn welcome_feed() -> ValueView {
    ValueView::empty_list().with_item(encode_utf8("Welcome!"@))
}

/// What `sub` does through the reference `r` to the subscriber slot: it
/// mints a feed that holds the welcome, puts the reference to the feed
/// into the subscriber slot, and returns that reference.
pub open spec fn subscribe_outcome(slots: Seq<ValueView>, r: Reference) -> (
    Seq<ValueView>,
    Result<ValueView, ErrorKind>,
) {
    let feed = ValueView::of_reference(
        slots.len() as u64,
        (AccessRights { read: true, write: true, add: true }),
    );
    match write_outcome(slots, r.address(), r.granted(), feed) {
        Err(e) => (slots, Err(e)),
        Ok(_) => (slots.push(welcome_feed()).update(r.address() as int, feed), Ok(feed)),
    }
}

/// What `pub` does through the reference `r` to the subscriber slot: it
/// puts `message` at the end of the feed that the slot refers to, and
/// does nothing while the slot holds unit.
pub open spec fn publish_outcome(slots: Seq<ValueView>, r: Reference, message: Seq<char>) -> (
    Seq<ValueView>,
    Result<ValueView, ErrorKind>,
) {
    match read_outcome(slots, r.address(), r.granted()) {
        Err(e) => (slots, Err(e)),
        Ok(held) => if held.tag == TypeTag::Unit {
            (slots, Ok(ValueView::unit()))
        } else if held.tag != TypeTag::Reference || !held.shaped() {
            (slots, Err(ErrorKind::TypeMismatch))
        } else {
            match read_outcome(slots, held.address_value(), held.rights_value()) {
                Err(e) => (slots, Err(e)),
                Ok(feed) => if feed.tag != TypeTag::List {
                    (slots, Err(ErrorKind::TypeMismatch))
                } else {
                    match write_outcome(
                        slots,
                        held.address_value(),
                        held.rights_value(),
                        feed.with_item(encode_utf8(message)),
                    ) {
                        Err(e) => (slots, Err(e)),
                        Ok(after) => (after, Ok(ValueView::unit())),
                    }
                },
            }
        },
    }
}

/// What the mailing list's entry point does. The name `subscriber` must
/// be bound to a reference, and the first two arguments be texts: the
/// method, `sub` or `pub`, and the subscriber's name or the message.
pub open spec fn list_ext_outcome(
    slots: Seq<ValueView>,
    names: Map<Seq<char>, Target>,
    args: ValueView,
) -> (Seq<ValueView>, Result<ValueView, ErrorKind>) {
    if !names.contains_key("subscriber"@) {
        (slots, Err(ErrorKind::UnboundName))
    } else {
        match names["subscriber"@] {
            Target::Contract(_) => (slots, Err(ErrorKind::TypeMismatch)),
            Target::Reference(r) => match arg_outcome(args, 0, TypeTag::Text) {
                Err(e) => (slots, Err(e)),
                Ok(method) => if method.text_value() == "sub"@ {
                    match arg_outcome(args, 1, TypeTag::Text) {
                        Err(e) => (slots, Err(e)),
                        Ok(_) => subscribe_outcome(slots, r),
                    }
                } else if method.text_value() == "pub"@ {
                    match arg_outcome(args, 1, TypeTag::Text) {
                        Err(e) => (slots, Err(e)),
                        Ok(message) => publish_outcome(slots, r, message.text_value()),
                    }
                } else {
                    (slots, Err(ErrorKind::UnknownEntryPoint))
                },
            },
        }
    }
}

/// The method `sub`, through the reference `slot` to the subscriber slot.
fn subscribe(store: &mut Store, slot: &Reference) -> (res: Result<Value, ErrorKind>)
    ensures
        final(store)@ == subscribe_outcome(old(store)@, *slot).0,
        agrees(res, subscribe_outcome(old(store)@, *slot).1),
{
    if !slot.rights().write {
        return Err(ErrorKind::PermissionDenied);
    }
    if slot.slot() >= store.len() as u64 {
        return Err(ErrorKind::ValueNotFound);
    }
    let mut welcome = Value::empty_list();
    let _pushed = welcome.push_text("Welcome!");
    let feed = store.mint(welcome);
    let _stored = store.write(slot, Value::from_reference(feed));
    Ok(Value::from_reference(feed))
}

/// The method `pub`, through the reference `slot` to the subscriber slot.
fn publish(store: &mut Store, slot: &Reference, message: &String) -> (res: Result<
    Value,
    ErrorKind,
>)
    ensures
        final(store)@ == publish_outcome(old(store)@, *slot, message@).0,
        agrees(res, publish_outcome(old(store)@, *slot, message@).1),
{
    let held = match store.read(slot) {
        Ok(v) => v,
        Err(e) => {
            return Err(e);
        },
    };
    if held.tag() == TypeTag::Unit {
        return Ok(Value::unit());
    }
    let feed_key = match held.as_reference() {
        Ok(r) => r,
        Err(e) => {
            return Err(e);
        },
    };
    let mut feed = match store.read(&feed_key) {
        Ok(v) => v,
        Err(e) => {
            return Err(e);
        },
    };
    match feed.push_text(message.as_str()) {
        Ok(()) => {},
        Err(e) => {
            return Err(e);
        },
    }
    match store.write(&feed_key, feed) {
        Ok(()) => Ok(Value::unit()),
        Err(e) => Err(e),
    }
}

/// The mailing list's entry point, run in a frame with `names` and `args`.
pub fn list_ext(store: &mut Store, names: &NamedKeyMap, args: &Value) -> (res: Result<
    Value,
    ErrorKind,
>)
    requires
        names.well_formed(),
    ensures
        final(store)@ == list_ext_outcome(old(store)@, names@, args@).0,
        agrees(res, list_ext_outcome(old(store)@, names@, args@).1),
{
    let slot = match names.resolve_name("subscriber") {
        Ok(Target::Reference(r)) => r,
        Ok(Target::Contract(_)) => {
            return Err(ErrorKind::TypeMismatch);
        },
        Err(e) => {
            return Err(e);
        },
    };
    let method = match get_arg(args, 0, TypeTag::Text) {
        Ok(v) => v,
        Err(e) => {
            return Err(e);
        },
    };
    let text = match method.as_text() {
        Ok(t) => t,
        Err(e) => {
            return Err(e);
        },
    };
    if text == String::from_str("sub") {
        match get_arg(args, 1, TypeTag::Text) {
            Ok(_) => subscribe(store, &slot),
            Err(e) => Err(e),
        }
    } else if text == String::from_str("pub") {
        let message = match get_arg(args, 1, TypeTag::Text) {
            Ok(v) => v,
            Err(e) => {
                return Err(e);
            },
        };
        match message.as_text() {
            Ok(m) => publish(store, &slot, &m),
            Err(e) => Err(e),
        }
    } else {
        Err(ErrorKind::UnknownEntryPoint)
    }
}

/// The encoded arguments of a call of `method` with one text.
pub open spec fn method_args(method: Seq<char>, text: Seq<char>) -> Seq<u8> {
    args_encoding(seq![ValueView::of_text(method), ValueView::of_text(text)])
}

/// What a frame at `depth` does that subscribes to the list under
/// `list` and publishes to it: the store and the frame's names that it
/// leaves, and the feed it read at the end or the trap that ended it.
/// Where it traps, the names are what they were; what the list
/// committed to the store before a later step failed stays committed.
pub open spec fn call_outcome(
    slots: Seq<ValueView>,
    records: Seq<RecordView>,
    names: Map<Seq<char>, Target>,
    list: ContractId,
    depth: u32,
    limit: u32,
) -> (Seq<ValueView>, Map<Seq<char>, Target>, Result<ValueView, Trap>)
    decreases limit - depth, 1nat,
{
    let (subscribed, sub_key) = invoke_outcome(
        slots,
        records,
        list,
        method_args("sub"@, "CasperLabs"@),
        depth,
        limit,
    );
    match sub_key {
        Err(t) => (subscribed, names, Err(t)),
        Ok(key) => if key.tag != TypeTag::Reference || !key.shaped() {
            (subscribed, names, Err(Trap { cause: ErrorKind::TypeMismatch, depth }))
        } else {
            let feed = Reference::of(key.address_value(), key.rights_value());
            let bound = names.insert("mail_feed"@, Target::Reference(feed));
            let (published, done) = invoke_outcome(
                subscribed,
                records,
                list,
                method_args("pub"@, "Hello, World!"@),
                depth,
                limit,
            );
            match done {
                Err(t) => (published, names, Err(t)),
                Ok(_) => match read_outcome(published, feed.address(), feed.granted()) {
                    Err(e) => (published, names, Err(Trap { cause: e, depth })),
                    Ok(messages) => (published, bound, Ok(messages)),
                },
            }
        },
    }
}

/// What the list's client does as a contract, in a frame at `depth`
/// with `names`: it does what the deployment does with the list that
/// `list` stands for, and its names end with its frame.
pub open spec fn client_outcome(
    slots: Seq<ValueView>,
    records: Seq<RecordView>,
    names: Map<Seq<char>, Target>,
    depth: u32,
    limit: u32,
) -> (Seq<ValueView>, Result<ValueView, Trap>)
    decreases limit - depth, 2nat,
{
    if !names.contains_key("list"@) {
        (slots, Err(Trap { cause: ErrorKind::UnboundName, depth }))
    } else {
        match names["list"@] {
            Target::Reference(_) => (slots, Err(Trap { cause: ErrorKind::TypeMismatch, depth })),
            Target::Contract(list) => {
                let out = call_outcome(slots, records, names, list, depth, limit);
                (out.0, out.2)
            },
        }
    }
}

/// The list's client as a contract, run in a frame at `depth` that owns `names`.
pub fn client(store: &mut Store, registry: &Registry, names: NamedKeyMap, depth: u32, limit: u32) -> (res:
    Result<Value, Trap>)
    requires
        registry.well_formed(),
        names.well_formed(),
    ensures
        final(store)@ == client_outcome(old(store)@, registry@, names@, depth, limit).0,
        agrees(res, client_outcome(old(store)@, registry@, names@, depth, limit).1),
    decreases limit - depth, 2nat,
{
    let mut names = names;
    match names.resolve_name("list") {
        Ok(Target::Contract(list)) => call(store, registry, &mut names, list, depth, limit),
        Ok(Target::Reference(_)) => Err(Trap { cause: ErrorKind::TypeMismatch, depth }),
        Err(e) => Err(Trap { cause: e, depth }),
    }
}

/// The encoded arguments of a call of `method` with one text.
fn two_texts(method: &str, text: &str) -> (bytes: Vec<u8>)
    ensures
        bytes@ == method_args(method@, text@),
{
    let mut args: Vec<Value> = Vec::new();
    args.push(Value::from_text(method));
    args.push(Value::from_text(text));
    assert(views(args@) =~= seq![ValueView::of_text(method@), ValueView::of_text(text@)]);
    encode_args(&args)
}

/// Subscribes to the mailing list under `list`, binds the feed it gets
/// to `mail_feed` in the frame's `names`, publishes a greeting, and
/// returns the feed's messages. The frame is at `depth`: 0 for a
/// deployment. A trap leaves `names` as they were.
pub fn call(
    store: &mut Store,
    registry: &Registry,
    names: &mut NamedKeyMap,
    list: ContractId,
    depth: u32,
    limit: u32,
) -> (res: Result<Value, Trap>)
    requires
        registry.well_formed(),
        old(names).well_formed(),
    ensures
        final(names).well_formed(),
        final(store)@ == call_outcome(old(store)@, registry@, old(names)@, list, depth, limit).0,
        final(names)@ == call_outcome(old(store)@, registry@, old(names)@, list, depth, limit).1,
        agrees(res, call_outcome(old(store)@, registry@, old(names)@, list, depth, limit).2),
    decreases limit - depth, 1nat,
{
    let args = two_texts("sub", "CasperLabs");
    let sub_key = match invoke(store, registry, list, &args, depth, limit) {
        Ok(v) => v,
        Err(t) => {
            return Err(t);
        },
    };
    let feed = match sub_key.as_reference() {
        Ok(r) => r,
        Err(e) => {
            return Err(Trap { cause: e, depth });
        },
    };
    proof {
        Reference::lemma_of(sub_key@.address_value(), sub_key@.rights_value());
        feed.lemma_same(Reference::of(sub_key@.address_value(), sub_key@.rights_value()));
    }
    let saved = names.duplicate();
    names.bind_name("mail_feed", Target::Reference(feed));
    let args = two_texts("pub", "Hello, World!");
    match invoke(store, registry, list, &args, depth, limit) {
        Ok(_) => {},
        Err(t) => {
            *names = saved;
            return Err(t);
        },
    }
    match store.read(&feed) {
        Ok(messages) => Ok(messages),
        Err(e) => {
            *names = saved;
            Err(Trap { cause: e, depth })
        },
    }
}

/// A message published after a subscription reaches the subscriber:
/// `sub` returns the reference to a fresh feed, and after `pub` that
/// feed holds the welcome and then the message.
pub proof fn lemma_subscribe_then_publish(slots: Seq<ValueView>, r: Reference, message: Seq<char>)
    requires
        r.granted().read,
        r.granted().write,
        r.address() < slots.len(),
        slots.len() < u64::MAX,
    ensures
        ({
            let (subscribed, key) = subscribe_outcome(slots, r);
            let (published, done) = publish_outcome(subscribed, r, message);
            &&& key.is_ok()
            &&& key.unwrap().tag == TypeTag::Reference
            &&& key.unwrap().address_value() == slots.len()
            &&& done == Ok::<ValueView, ErrorKind>(ValueView::unit())
            &&& read_outcome(
                published,
                key.unwrap().address_value(),
                key.unwrap().rights_value(),
            ) == Ok::<ValueView, ErrorKind>(welcome_feed().with_item(encode_utf8(message)))
        }),
{
    lemma_reference_value(
        slots.len() as u64,
        (AccessRights { read: true, write: true, add: true }),
    );
}

/// A deployment that traps binds nothing: its names are what they were.
pub proof fn lemma_failed_call_keeps_names(
    slots: Seq<ValueView>,
    records: Seq<RecordView>,
    names: Map<Seq<char>, Target>,
    list: ContractId,
    depth: u32,
    limit: u32,
)
    ensures
        call_outcome(slots, records, names, list, depth, limit).2.is_err() ==> call_outcome(
            slots,
            records,
            names,
            list,
            depth,
            limit,
        ).1 == names,
{
}

/// Two short texts in plain characters, encoded as arguments, are what
/// the callee reads at the first two places.
#[verifier::rlimit(40)]
proof fn lemma_two_texts(method: Seq<char>, text: Seq<char>)
    requires
        is_ascii_chars(method),
        is_ascii_chars(text),
        method.len() < 64,
        text.len() < 64,
    ensures
        decoding(method_args(method, text), TypeTag::List) matches Some(list) && arg_outcome(
            list,
            0,
            TypeTag::Text,
        ) == Ok::<ValueView, ErrorKind>(ValueView::of_text(method)) && arg_outcome(
            list,
            1,
            TypeTag::Text,
        ) == Ok::<ValueView, ErrorKind>(ValueView::of_text(text)),
        ValueView::of_text(method).text_value() == method,
        ValueView::of_text(text).text_value() == text,
{
    broadcast use vstd::utf8::encode_utf8_valid_utf8, vstd::utf8::encode_utf8_decode_utf8;

    is_ascii_chars_encode_utf8(method);
    is_ascii_chars_encode_utf8(text);
    let first = ValueView::of_text(method);
    let second = ValueView::of_text(text);
    let args = seq![first, second];
    lemma_u64_round_trip(first.payload.len() as u64);
    lemma_u64_round_trip(second.payload.len() as u64);
    lemma_u64_round_trip(first.encoding().len() as u64);
    lemma_u64_round_trip(second.encoding().len() as u64);
    assert(args.drop_last() =~= seq![first]);
    assert(args.drop_last().drop_last() =~= Seq::<ValueView>::empty());
    assert(packed(args.drop_last().drop_last()).len() == 0);
    assert(packed(args.drop_last()).len() == 8 + first.encoding().len());
    assert(packed(args).len() == packed(args.drop_last()).len() + 8 + second.encoding().len());
    lemma_args_round_trip(args, 0);
    lemma_args_round_trip(args, 1);
}

/// The record under `list` is a mailing list whose subscriber slot is
/// behind `r`.
pub open spec fn lists_behind(records: Seq<RecordView>, list: ContractId, r: Reference) -> bool {
    lookup_outcome(records, list) matches Ok(record) && record.code == Program::MailingList
        && record.names.contains_key("subscriber"@) && record.names["subscriber"@]
        == Target::Reference(r)
}

/// The texts that the deployment sends are short and plain, and the
/// two method names differ.
proof fn lemma_plain_texts()
    ensures
        is_ascii_chars("sub"@) && "sub"@.len() < 64,
        is_ascii_chars("pub"@) && "pub"@.len() < 64,
        is_ascii_chars("CasperLabs"@) && "CasperLabs"@.len() < 64,
        is_ascii_chars("Hello, World!"@) && "Hello, World!"@.len() < 64,
        "sub"@ != "pub"@,
{
    reveal_strlit("sub");
    reveal_strlit("pub");
    reveal_strlit("CasperLabs");
    reveal_strlit("Hello, World!");
    assert("sub"@[0] != "pub"@[0]);
}

/// The deployment's `sub` call reaches the list's subscription.
#[verifier::rlimit(40)]
proof fn lemma_sub_call(
    slots: Seq<ValueView>,
    records: Seq<RecordView>,
    list: ContractId,
    r: Reference,
    limit: u32,
)
    requires
        limit >= 1,
        lists_behind(records, list, r),
    ensures
        invoke_outcome(slots, records, list, method_args("sub"@, "CasperLabs"@), 0, limit)
            == trapped(subscribe_outcome(slots, r), 1),
{
    lemma_plain_texts();
    lemma_two_texts("sub"@, "CasperLabs"@);
    let record = lookup_outcome(records, list).unwrap();
    let args = decoding(method_args("sub"@, "CasperLabs"@), TypeTag::List).unwrap();
    assert(list_ext_outcome(slots, record.names, args) == subscribe_outcome(slots, r));
}

/// The deployment's `pub` call reaches the list's publication.
#[verifier::rlimit(40)]
proof fn lemma_pub_call(
    slots: Seq<ValueView>,
    records: Seq<RecordView>,
    list: ContractId,
    r: Reference,
    limit: u32,
)
    requires
        limit >= 1,
        lists_behind(records, list, r),
    ensures
        invoke_outcome(slots, records, list, method_args("pub"@, "Hello, World!"@), 0, limit)
            == trapped(publish_outcome(slots, r, "Hello, World!"@), 1),
{
    lemma_plain_texts();
    lemma_two_texts("pub"@, "Hello, World!"@);
    let record = lookup_outcome(records, list).unwrap();
    let args = decoding(method_args("pub"@, "Hello, World!"@), TypeTag::List).unwrap();
    assert(list_ext_outcome(slots, record.names, args) == publish_outcome(
        slots,
        r,
        "Hello, World!"@,
    ));
}

/// A deployment against a mailing list whose subscriber slot the list
/// may read and write ends well: it returns the welcome followed by the
/// greeting, and `mail_feed` is bound to the fresh feed.
pub proof fn lemma_call_reads_greeting(
    slots: Seq<ValueView>,
    records: Seq<RecordView>,
    names: Map<Seq<char>, Target>,
    list: ContractId,
    r: Reference,
    limit: u32,
)
    requires
        limit >= 1,
        slots.len() < u64::MAX,
        lists_behind(records, list, r),
        r.granted().read,
        r.granted().write,
        r.address() < slots.len(),
    ensures
        call_outcome(slots, records, names, list, 0, limit).2 == Ok::<ValueView, Trap>(
            welcome_feed().with_item(encode_utf8("Hello, World!"@)),
        ),
        call_outcome(slots, records, names, list, 0, limit).1 == names.insert(
            "mail_feed"@,
            Target::Reference(
                Reference::of(
                    slots.len() as u64,
                    (AccessRights { read: true, write: true, add: true }),
                ),
            ),
        ),
{
    let full = AccessRights { read: true, write: true, add: true };
    lemma_reference_value(slots.len() as u64, full);
    Reference::lemma_of(slots.len() as u64, full);
    lemma_subscribe_then_publish(slots, r, "Hello, World!"@);
    lemma_sub_call(slots, records, list, r, limit);
    lemma_pub_call(subscribe_outcome(slots, r).0, records, list, r, limit);
}

} // verus!
