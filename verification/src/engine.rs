//! The invocation engine: arguments, frames, and calls between contracts.

use vstd::prelude::*;
use crate::counter::{counter_ext, counter_ext_outcome};
use crate::error::{ErrorKind, Trap};
use crate::mailing_list::{client, client_outcome, list_ext, list_ext_outcome, method_args};
use crate::names::Target;
use crate::registry::{lookup_outcome, Program, RecordView, Registry};
use crate::store::Store;
use crate::value::{
    chunked, decoding, frame, items, lemma_decode_encode, lemma_push_item, ContractId, TypeTag,
    Value, ValueView,
};

verus! {

/// What each value of a list is.
pub open spec fn views(values: Seq<Value>) -> Seq<ValueView> {
    values.map_values(|v: Value| v@)
}

/// The result `res` is what `out` says: the value with that view, or that error.
pub open spec fn agrees<E>(res: Result<Value, E>, out: Result<ValueView, E>) -> bool {
    match out {
        Ok(v) => res matches Ok(got) && got@ == v,
        Err(e) => res == Err::<Value, E>(e),
    }
}

/// The payload of the sequence that holds the encodings of `args`.
pub open spec fn packed(args: Seq<ValueView>) -> Seq<u8>
    decreases args.len(),
{
    if args.len() == 0 {
        seq![]
    } else {
        packed(args.drop_last()) + frame(args.last().encoding())
    }
}

/// An argument list as it crosses a call: the encoding of the sequence
/// whose items are the encodings of the arguments, in order.
pub open spec fn args_encoding(args: Seq<ValueView>) -> Seq<u8> {
    (ValueView { tag: TypeTag::List, payload: packed(args) }).encoding()
}

/// The argument at `index` of the list `args`, awaited with type
/// `expected`.
pub open spec fn arg_outcome(args: ValueView, index: int, expected: TypeTag) -> Result<
    ValueView,
    ErrorKind,
> {
    if args.tag != TypeTag::List || !args.shaped() {
        Err(ErrorKind::Deserialization)
    } else if index >= args.item_values().len() {
        Err(ErrorKind::ArgumentMissing)
    } else {
        match decoding(args.item_values()[index], expected) {
            None => Err(ErrorKind::ArgumentType),
            Some(v) => Ok(v),
        }
    }
}

/// Encodes an argument list for a call.
pub fn encode_args(args: &Vec<Value>) -> (bytes: Vec<u8>)
    ensures
        bytes@ == args_encoding(views(args@)),
{
    let mut list = Value::empty_list();
    let mut i: usize = 0;
    assert(views(args@).take(0) =~= Seq::<ValueView>::empty());
    while i < args.len()
        invariant
            i <= args.len(),
            list@ == (ValueView { tag: TypeTag::List, payload: packed(views(args@).take(i as int)) }),
        decreases args.len() - i,
    {
        let _pushed = list.push_value(&args[i]);
        proof {
            let next = views(args@).take(i + 1);
            assert(next.drop_last() =~= views(args@).take(i as int));
            assert(next.last() == args@[i as int]@);
        }
        i += 1;
    }
    assert(views(args@).take(args.len() as int) =~= views(args@));
    list.encode()
}

/// The argument at `index` of the decoded list `args`. A value that is
/// no well-shaped sequence fails with `Deserialization`, an index past
/// the end with `ArgumentMissing`, and an item that does not decode
/// under `expected` with `ArgumentType`.
pub fn get_arg(args: &Value, index: usize, expected: TypeTag) -> (res: Result<Value, ErrorKind>)
    ensures
        agrees(res, arg_outcome(args@, index as int, expected)),
{
    if args.tag() != TypeTag::List {
        return Err(ErrorKind::Deserialization);
    }
    let item = match args.item_at(index) {
        Some(item) => item,
        None => {
            return Err(ErrorKind::ArgumentMissing);
        },
    };
    match Value::decode(&item, expected) {
        Ok(v) => Ok(v),
        Err(_) => Err(ErrorKind::ArgumentType),
    }
}

/// The items of a packed argument list are the arguments' encodings.
pub proof fn lemma_packed_items(args: Seq<ValueView>)
    requires
        forall|i: int| 0 <= i < args.len() ==> (#[trigger] args[i]).payload.len() + 9 <= u64::MAX,
    ensures
        chunked(packed(args)),
        items(packed(args)).len() == args.len(),
        forall|i: int| 0 <= i < args.len() ==> #[trigger] items(packed(args))[i] == args[i].encoding(),
    decreases args.len(),
{
    if args.len() > 0 {
        let front = args.drop_last();
        lemma_packed_items(front);
        crate::bytes::lemma_u64_round_trip(args.last().payload.len() as u64);
        lemma_push_item(packed(front), args.last().encoding());
    }
}

/// Each argument that was encoded is what the callee gets at its place:
/// decoding the encoded list and asking for the argument at `index`
/// under its own type returns that argument.
pub proof fn lemma_args_round_trip(args: Seq<ValueView>, index: int)
    requires
        forall|i: int|
            0 <= i < args.len() ==> (#[trigger] args[i]).shaped() && args[i].payload.len() + 9
                <= u64::MAX,
        packed(args).len() <= u64::MAX,
        0 <= index < args.len(),
    ensures
        decoding(args_encoding(args), TypeTag::List) matches Some(list) && arg_outcome(
            list,
            index,
            args[index].tag,
        ) == Ok::<ValueView, ErrorKind>(args[index]),
{
    lemma_packed_items(args);
    let list = ValueView { tag: TypeTag::List, payload: packed(args) };
    lemma_decode_encode(list);
    lemma_decode_encode(args[index]);
}

/// The outcome of a frame at `depth`, with its error as a trap.
pub open spec fn trapped(
    out: (Seq<ValueView>, Result<ValueView, ErrorKind>),
    depth: u32,
) -> (Seq<ValueView>, Result<ValueView, Trap>) {
    match out.1 {
        Ok(v) => (out.0, Ok(v)),
        Err(e) => (out.0, Err(Trap { cause: e, depth })),
    }
}

/// What running `code` does in a frame at `depth` with `names` and
/// `args`: the store it leaves, and its return value or the trap that
/// ended it, which is its own or that of a frame below it.
pub open spec fn run_outcome(
    code: Program,
    slots: Seq<ValueView>,
    records: Seq<RecordView>,
    names: Map<Seq<char>, Target>,
    args: ValueView,
    depth: u32,
    limit: u32,
) -> (Seq<ValueView>, Result<ValueView, Trap>)
    decreases limit - depth, 3nat,
{
    match code {
        Program::CounterExt => trapped(counter_ext_outcome(slots, names, args), depth),
        Program::MailingList => trapped(list_ext_outcome(slots, names, args), depth),
        Program::ListClient => client_outcome(slots, records, names, depth, limit),
    }
}

/// What invoking the contract under `id` with the encoded argument
/// list `args` does, from a frame at `depth`, where no frame may be
/// deeper than `limit`. An identity that is not registered, and a call
/// at the limit, fail in the caller's frame; arguments that do not
/// decode trap the contract's frame, one level down, and so does an
/// error of the contract.
pub open spec fn invoke_outcome(
    slots: Seq<ValueView>,
    records: Seq<RecordView>,
    id: ContractId,
    args: Seq<u8>,
    depth: u32,
    limit: u32,
) -> (Seq<ValueView>, Result<ValueView, Trap>)
    decreases limit - depth, 0nat,
{
    match lookup_outcome(records, id) {
        Err(e) => (slots, Err(Trap { cause: e, depth })),
        Ok(record) => if depth >= limit {
            (slots, Err(Trap { cause: ErrorKind::ResourceLimit, depth }))
        } else {
            match decoding(args, TypeTag::List) {
                None => (
                    slots,
                    Err(Trap { cause: ErrorKind::Deserialization, depth: (depth + 1) as u32 }),
                ),
                Some(list) => run_outcome(
                    record.code,
                    slots,
                    records,
                    record.names,
                    list,
                    (depth + 1) as u32,
                    limit,
                ),
            }
        },
    }
}

/// Invokes the contract under `id` with the encoded argument list
/// `args`, the first of which selects the method, from a frame at
/// `depth`. The contract runs in a frame of its own, one level down,
/// whose names are a copy of those it was registered with; what it does
/// to them ends with the frame. It may invoke contracts in turn, down
/// to the depth `limit` that the environment sets. The result is the
/// contract's value, or the trap that ended it.
pub fn invoke(
    store: &mut Store,
    registry: &Registry,
    id: ContractId,
    args: &Vec<u8>,
    depth: u32,
    limit: u32,
) -> (res: Result<Value, Trap>)
    requires
        registry.well_formed(),
    ensures
        final(store)@ == invoke_outcome(old(store)@, registry@, id, args@, depth, limit).0,
        agrees(res, invoke_outcome(old(store)@, registry@, id, args@, depth, limit).1),
    decreases limit - depth, 0nat,
{
    let record = match registry.lookup(id) {
        Ok(record) => record,
        Err(e) => {
            return Err(Trap { cause: e, depth });
        },
    };
    if depth >= limit {
        return Err(Trap { cause: ErrorKind::ResourceLimit, depth });
    }
    let below = depth + 1;
    let list = match Value::decode(args, TypeTag::List) {
        Ok(list) => list,
        Err(e) => {
            return Err(Trap { cause: e, depth: below });
        },
    };
    match record.code {
        Program::CounterExt => match counter_ext(store, &record.names, &list) {
            Ok(v) => Ok(v),
            Err(e) => Err(Trap { cause: e, depth: below }),
        },
        Program::MailingList => match list_ext(store, &record.names, &list) {
            Ok(v) => Ok(v),
            Err(e) => Err(Trap { cause: e, depth: below }),
        },
        Program::ListClient => client(store, registry, record.names, below, limit),
    }
}

/// A frame that traps commits nothing of its own: where a contract
/// that calls no other fails, the store is what it was before the call.
pub proof fn lemma_trap_commits_nothing(
    slots: Seq<ValueView>,
    records: Seq<RecordView>,
    id: ContractId,
    args: Seq<u8>,
    depth: u32,
    limit: u32,
)
    requires
        lookup_outcome(records, id) matches Ok(record) ==> record.code != Program::ListClient,
    ensures
        invoke_outcome(slots, records, id, args, depth, limit).1.is_err() ==> invoke_outcome(
            slots,
            records,
            id,
            args,
            depth,
            limit,
        ).0 == slots,
{
}

/// A trap names a frame between the caller and the limit: no trap
/// comes from above the frame that made the call, nor from below the
/// deepest frame that the environment allows.
pub proof fn lemma_trap_depth(
    slots: Seq<ValueView>,
    records: Seq<RecordView>,
    id: ContractId,
    args: Seq<u8>,
    depth: u32,
    limit: u32,
)
    requires
        depth <= limit,
    ensures
        invoke_outcome(slots, records, id, args, depth, limit).1 matches Err(t) ==> depth
            <= t.depth <= limit,
    decreases limit - depth,
{
    match lookup_outcome(records, id) {
        Err(_) => {},
        Ok(record) => {
            if depth < limit {
                match decoding(args, TypeTag::List) {
                    None => {},
                    Some(list) => {
                        let below = (depth + 1) as u32;
                        if record.code == Program::ListClient && record.names.contains_key("list"@) {
                            match record.names["list"@] {
                                Target::Contract(target) => {
                                    lemma_trap_depth(
                                        slots,
                                        records,
                                        target,
                                        method_args("sub"@, "CasperLabs"@),
                                        below,
                                        limit,
                                    );
                                    let subscribed = invoke_outcome(
                                        slots,
                                        records,
                                        target,
                                        method_args("sub"@, "CasperLabs"@),
                                        below,
                                        limit,
                                    ).0;
                                    lemma_trap_depth(
                                        subscribed,
                                        records,
                                        target,
                                        method_args("pub"@, "Hello, World!"@),
                                        below,
                                        limit,
                                    );
                                },
                                Target::Reference(_) => {},
                            }
                        }
                    },
                }
            }
        },
    }
}

} // verus!
