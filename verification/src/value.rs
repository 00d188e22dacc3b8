//! Values: a byte payload tagged with a type, and their codec.
//!
//! An encoded value is one byte for the type, eight bytes for the length
//! of the payload, and the payload. A sequence's payload is its items one
//! after another, each behind the eight bytes of its own length.

use vstd::prelude::*;
use vstd::slice::slice_to_vec;
use vstd::utf8::{decode_utf8, encode_utf8, valid_utf8};
use crate::bytes::{
    get_u32, get_u64, int_of_word, lemma_u32_round_trip, lemma_u64_bytes,
    lemma_u64_round_trip, lemma_word_round_trip, put_range, put_u32, put_u64, u32_le, u32_of_le,
    u64_le, u64_of_le, word_of_int,
};
use crate::error::ErrorKind;
use crate::reference::Reference;
use crate::rights::AccessRights;

verus! {

/// The identity under which a contract is registered.
#[derive(Clone, Copy, Debug, PartialEq, Eq, Structural)]
pub struct ContractId {
    pub index: u64,
}

/// The semantic type of a value.
#[derive(Clone, Copy, Debug, PartialEq, Eq, Structural)]
pub enum TypeTag {
    Unit,
    Int,
    Text,
    Reference,
    Contract,
    List,
}

impl TypeTag {
    /// The byte that stands for the type in an encoded value.
    pub open spec fn code(self) -> u8 {
        match self {
            TypeTag::Unit => 0,
            TypeTag::Int => 1,
            TypeTag::Text => 2,
            TypeTag::Reference => 3,
            TypeTag::Contract => 4,
            TypeTag::List => 5,
        }
    }

    pub fn to_code(&self) -> (c: u8)
        ensures
            c == self.code(),
    {
        match self {
            TypeTag::Unit => 0,
            TypeTag::Int => 1,
            TypeTag::Text => 2,
            TypeTag::Reference => 3,
            TypeTag::Contract => 4,
            TypeTag::List => 5,
        }
    }
}

/// One item of a sequence as it lies in the payload: its length, then its bytes.
pub open spec fn frame(item: Seq<u8>) -> Seq<u8> {
    u64_le(item.len() as u64) + item
}

/// The bytes split exactly into framed items.
pub open spec fn chunked(b: Seq<u8>) -> bool
    decreases b.len(),
{
    b.len() == 0 || (b.len() >= 8 && u64_of_le(b) + 8 <= b.len() && chunked(
        b.skip(8 + u64_of_le(b)),
    ))
}

/// The items that the bytes hold, in order.
pub open spec fn items(b: Seq<u8>) -> Seq<Seq<u8>>
    decreases b.len(),
{
    if b.len() < 8 || u64_of_le(b) + 8 > b.len() {
        seq![]
    } else {
        seq![b.subrange(8, 8 + u64_of_le(b))] + items(b.skip(8 + u64_of_le(b)))
    }
}

/// What a value is: its type and its payload.
pub struct ValueView {
    pub tag: TypeTag,
    pub payload: Seq<u8>,
}

impl ValueView {
    /// The payload has the shape that the type asks for.
    pub open spec fn shaped(self) -> bool {
        match self.tag {
            TypeTag::Unit => self.payload.len() == 0,
            TypeTag::Int => self.payload.len() == 4,
            TypeTag::Text => valid_utf8(self.payload),
            TypeTag::Reference => self.payload.len() == 9 && self.payload[8] < 8,
            TypeTag::Contract => self.payload.len() == 8,
            TypeTag::List => chunked(self.payload),
        }
    }

    /// The bytes that the value is encoded to.
    pub open spec fn encoding(self) -> Seq<u8> {
        seq![self.tag.code()] + u64_le(self.payload.len() as u64) + self.payload
    }

    pub open spec fn unit() -> ValueView {
        ValueView { tag: TypeTag::Unit, payload: seq![] }
    }

    pub open spec fn of_int(i: i32) -> ValueView {
        ValueView { tag: TypeTag::Int, payload: u32_le(word_of_int(i)) }
    }

    pub open spec fn of_text(s: Seq<char>) -> ValueView {
        ValueView { tag: TypeTag::Text, payload: encode_utf8(s) }
    }

    pub open spec fn of_reference(address: u64, rights: AccessRights) -> ValueView {
        ValueView { tag: TypeTag::Reference, payload: u64_le(address) + seq![rights.mask() as u8] }
    }

    pub open spec fn of_contract(id: ContractId) -> ValueView {
        ValueView { tag: TypeTag::Contract, payload: u64_le(id.index) }
    }

    pub open spec fn empty_list() -> ValueView {
        ValueView { tag: TypeTag::List, payload: seq![] }
    }

    /// The sequence with one more item at its end.
    pub open spec fn with_item(self, item: Seq<u8>) -> ValueView {
        ValueView { tag: TypeTag::List, payload: self.payload + frame(item) }
    }

    /// The integer that an integer value holds.
    pub open spec fn int_value(self) -> i32 {
        int_of_word(u32_of_le(self.payload) as u32)
    }

    /// The text that a text value holds.
    pub open spec fn text_value(self) -> Seq<char> {
        decode_utf8(self.payload)
    }

    /// The address in a reference value.
    pub open spec fn address_value(self) -> u64 {
        u64_of_le(self.payload) as u64
    }

    /// The rights in a reference value.
    pub open spec fn rights_value(self) -> AccessRights {
        AccessRights::of_mask(self.payload[8] as int)
    }

    /// The identity in a contract value.
    pub open spec fn contract_value(self) -> ContractId {
        ContractId { index: u64_of_le(self.payload) as u64 }
    }

    /// The items of a sequence value.
    pub open spec fn item_values(self) -> Seq<Seq<u8>> {
        items(self.payload)
    }
}

/// What `bytes` decode to when a value of type `expected` is awaited:
/// the value whose encoding they are, if it has that type and its
/// payload the shape of the type.
pub open spec fn decoding(bytes: Seq<u8>, expected: TypeTag) -> Option<ValueView> {
    let v = ValueView { tag: expected, payload: bytes.skip(9) };
    if bytes.len() >= 9 && bytes[0] == expected.code() && u64_of_le(bytes.skip(1)) == bytes.len()
        - 9 && v.shaped() {
        Some(v)
    } else {
        None
    }
}

/// The first eight bytes alone decide the number that a sequence starts with.
pub proof fn lemma_number_of_prefix(a: Seq<u8>, b: Seq<u8>)
    requires
        a.len() >= 8,
    ensures
        u64_of_le(a + b) == u64_of_le(a),
{
    let c = a + b;
    assert(c[0] == a[0] && c[1] == a[1] && c[2] == a[2] && c[3] == a[3]);
    assert(c.skip(4)[0] == a.skip(4)[0] && c.skip(4)[1] == a.skip(4)[1] && c.skip(4)[2]
        == a.skip(4)[2] && c.skip(4)[3] == a.skip(4)[3]);
}

/// Decoding undoes encoding: a value whose payload has the shape of its
/// type is what its encoding decodes to under that type.
pub proof fn lemma_decode_encode(v: ValueView)
    requires
        v.shaped(),
        v.payload.len() <= u64::MAX,
    ensures
        decoding(v.encoding(), v.tag) == Some(v),
{
    let e = v.encoding();
    let n = v.payload.len() as u64;
    lemma_u64_round_trip(n);
    assert(e.skip(9) =~= v.payload);
    assert(e.skip(1) =~= u64_le(n) + v.payload);
    lemma_number_of_prefix(u64_le(n), v.payload);
}

/// Encoding undoes decoding: bytes that decode to a value are the
/// encoding of that value, and no other type decodes them.
pub proof fn lemma_encode_decode(bytes: Seq<u8>, expected: TypeTag, other: TypeTag)
    requires
        decoding(bytes, expected).is_some(),
    ensures
        decoding(bytes, expected).unwrap().encoding() == bytes,
        decoding(bytes, expected).unwrap().tag == expected,
        decoding(bytes, expected).unwrap().shaped(),
        other != expected ==> decoding(bytes, other).is_none(),
{
    let v = decoding(bytes, expected).unwrap();
    let head = bytes.subrange(1, 9);
    lemma_u64_bytes(head);
    assert(bytes.skip(1) =~= head + bytes.skip(9));
    lemma_number_of_prefix(head, bytes.skip(9));
    assert(v.encoding() =~= bytes);
}

/// A reference value holds the address and the rights it was made of.
pub proof fn lemma_reference_value(address: u64, rights: AccessRights)
    ensures
        ValueView::of_reference(address, rights).shaped(),
        ValueView::of_reference(address, rights).address_value() == address,
        ValueView::of_reference(address, rights).rights_value() == rights,
{
    lemma_u64_round_trip(address);
    lemma_number_of_prefix(u64_le(address), seq![rights.mask() as u8]);
}

/// Framed bytes that are not empty start with an item, and the items
/// behind it are those of the bytes behind it.
pub proof fn lemma_first_item(b: Seq<u8>)
    requires
        chunked(b),
        b.len() > 0,
    ensures
        b.len() >= 8,
        u64_of_le(b) + 8 <= b.len(),
        chunked(b.skip(8 + u64_of_le(b))),
        items(b).len() == 1 + items(b.skip(8 + u64_of_le(b))).len(),
        items(b)[0] == b.subrange(8, 8 + u64_of_le(b)),
        forall|j: int|
            1 <= j < items(b).len() ==> items(b)[j] == #[trigger] items(b.skip(8 + u64_of_le(b)))[j
                - 1],
{
    let tail = items(b.skip(8 + u64_of_le(b)));
    assert(items(b) == seq![b.subrange(8, 8 + u64_of_le(b))] + tail);
}

/// Appending a framed item to a sequence's payload gives a sequence
/// with that item at its end.
pub proof fn lemma_push_item(b: Seq<u8>, item: Seq<u8>)
    requires
        chunked(b),
        item.len() <= u64::MAX,
    ensures
        chunked(b + frame(item)),
        items(b + frame(item)) == items(b).push(item),
    decreases b.len(),
{
    let f = frame(item);
    let n = item.len() as u64;
    lemma_u64_round_trip(n);
    if b.len() == 0 {
        assert(b + f =~= f);
        lemma_number_of_prefix(u64_le(n), item);
        assert(f.skip(8 + n) =~= Seq::<u8>::empty());
        assert(f.subrange(8, 8 + n) =~= item);
        assert(chunked(f.skip(8 + n)));
        assert(items(f.skip(8 + n)) =~= Seq::<Seq<u8>>::empty());
        assert(items(b) =~= Seq::<Seq<u8>>::empty());
        assert(items(f) =~= seq![item]);
    } else {
        let k = u64_of_le(b);
        lemma_number_of_prefix(b, f);
        assert((b + f).skip(8 + k) =~= b.skip(8 + k) + f);
        assert((b + f).subrange(8, 8 + k) =~= b.subrange(8, 8 + k));
        lemma_push_item(b.skip(8 + k), item);
        assert(items(b + f) =~= items(b).push(item));
    }
}

/// Whether the bytes are UTF-8, by `core::str::from_utf8`: it accepts
/// exactly the byte strings that are valid UTF-8.
#[verifier::external_body]
fn is_utf8(bytes: &[u8]) -> (ok: bool)
    ensures
        ok == valid_utf8(bytes@),
{
    match core::str::from_utf8(bytes) {
        Ok(_) => true,
        Err(_) => false,
    }
}

/// The string that the bytes spell, by `String::from_utf8`: it succeeds
/// exactly on valid UTF-8, and the string then holds those very bytes.
#[verifier::external_body]
fn string_of_utf8(bytes: Vec<u8>) -> (s: Option<String>)
    ensures
        s.is_some() == valid_utf8(bytes@),
        s.is_some() ==> s.unwrap()@ == decode_utf8(bytes@),
{
    match String::from_utf8(bytes) {
        Ok(text) => Some(text),
        Err(_) => None,
    }
}

/// Whether the bytes split exactly into framed items.
fn is_chunked(b: &Vec<u8>) -> (ok: bool)
    ensures
        ok == chunked(b@),
{
    let mut pos: usize = 0;
    assert(b@.skip(0) =~= b@);
    loop
        invariant
            pos <= b.len(),
            chunked(b@) == chunked(b@.skip(pos as int)),
        decreases b.len() - pos,
    {
        let ghost rest = b@.skip(pos as int);
        let left: usize = b.len() - pos;
        if left == 0 {
            return true;
        }
        if left < 8 {
            return false;
        }
        let n: u64 = get_u64(b, pos);
        proof {
            let head = b@.subrange(pos as int, pos + 8);
            assert(rest =~= head + rest.skip(8));
            lemma_number_of_prefix(head, rest.skip(8));
        }
        if n > (left - 8) as u64 {
            return false;
        }
        proof {
            assert(rest.skip(8 + n) =~= b@.skip(pos + 8 + n));
        }
        pos = pos + 8 + n as usize;
    }
}

/// A value: a byte payload tagged with its type.
#[derive(Debug, PartialEq, Eq)]
pub struct Value {
    tag: TypeTag,
    payload: Vec<u8>,
}

impl View for Value {
    type V = ValueView;

    closed spec fn view(&self) -> ValueView {
        ValueView { tag: self.tag, payload: self.payload@ }
    }
}

/// Whether `payload` has the shape that `tag` asks for.
fn payload_shaped(tag: TypeTag, payload: &Vec<u8>) -> (ok: bool)
    ensures
        ok == (ValueView { tag, payload: payload@ }).shaped(),
{
    match tag {
        TypeTag::Unit => payload.len() == 0,
        TypeTag::Int => payload.len() == 4,
        TypeTag::Text => is_utf8(payload.as_slice()),
        TypeTag::Reference => payload.len() == 9 && payload[8] < 8,
        TypeTag::Contract => payload.len() == 8,
        TypeTag::List => is_chunked(payload),
    }
}

impl Value {
    /// Every value's payload has the shape of its type.
    #[verifier::type_invariant]
    spec fn payload_has_shape(self) -> bool {
        self@.shaped()
    }

    /// The unit value.
    pub fn unit() -> (v: Value)
        ensures
            v@ == ValueView::unit(),
            v@.shaped(),
    {
        let payload: Vec<u8> = Vec::new();
        assert(payload@ =~= Seq::<u8>::empty());
        Value { tag: TypeTag::Unit, payload }
    }

    /// The integer `i` as a value.
    pub fn from_int(i: i32) -> (v: Value)
        ensures
            v@ == ValueView::of_int(i),
            v@.shaped(),
            v@.int_value() == i,
    {
        let w: u32 = if i >= 0 {
            i as u32
        } else {
            ((i as i64) + 4294967296) as u32
        };
        let mut payload: Vec<u8> = Vec::new();
        put_u32(&mut payload, w);
        proof {
            lemma_u32_round_trip(w);
            lemma_word_round_trip(i, w);
            assert(payload@ =~= u32_le(w));
        }
        Value { tag: TypeTag::Int, payload }
    }

    /// The text `s` as a value.
    pub fn from_text(s: &str) -> (v: Value)
        ensures
            v@ == ValueView::of_text(s@),
            v@.shaped(),
            v@.text_value() == s@,
    {
        broadcast use vstd::utf8::encode_utf8_valid_utf8, vstd::utf8::encode_utf8_decode_utf8;

        let payload = slice_to_vec(s.as_bytes());
        Value { tag: TypeTag::Text, payload }
    }

    /// The reference `r` as a value.
    pub fn from_reference(r: Reference) -> (v: Value)
        ensures
            v@ == ValueView::of_reference(r.address(), r.granted()),
            v@.shaped(),
            v@.address_value() == r.address(),
            v@.rights_value() == r.granted(),
    {
        let mut payload: Vec<u8> = Vec::new();
        put_u64(&mut payload, r.slot());
        let m = r.rights().to_mask();
        payload.push(m);
        proof {
            lemma_u64_round_trip(r.address());
            assert(payload@ =~= u64_le(r.address()) + seq![r.granted().mask() as u8]);
            lemma_number_of_prefix(u64_le(r.address()), seq![m]);
        }
        Value { tag: TypeTag::Reference, payload }
    }

    /// The contract identity `id` as a value.
    pub fn from_contract(id: ContractId) -> (v: Value)
        ensures
            v@ == ValueView::of_contract(id),
            v@.shaped(),
            v@.contract_value() == id,
    {
        let mut payload: Vec<u8> = Vec::new();
        put_u64(&mut payload, id.index);
        proof {
            lemma_u64_round_trip(id.index);
            assert(payload@ =~= u64_le(id.index));
        }
        Value { tag: TypeTag::Contract, payload }
    }

    /// The sequence without items.
    pub fn empty_list() -> (v: Value)
        ensures
            v@ == ValueView::empty_list(),
            v@.shaped(),
            v@.item_values() == Seq::<Seq<u8>>::empty(),
    {
        let payload: Vec<u8> = Vec::new();
        assert(payload@ =~= Seq::<u8>::empty());
        Value { tag: TypeTag::List, payload }
    }

    /// Puts `item` at the end of a sequence. A value of another type
    /// stays as it is, with `TypeMismatch`.
    pub fn push_item(&mut self, item: &Vec<u8>) -> (res: Result<(), ErrorKind>)
        ensures
            old(self)@.tag == TypeTag::List ==> res.is_ok() && final(self)@ == old(self)@.with_item(
                item@,
            ) && final(self)@.item_values() == old(self)@.item_values().push(item@),
            old(self)@.tag != TypeTag::List ==> res == Err::<(), ErrorKind>(ErrorKind::TypeMismatch)
                && final(self)@ == old(self)@,
            final(self)@.shaped(),
    {
        proof {
            use_type_invariant(&*self);
        }
        match self.tag {
            TypeTag::List => {},
            _ => {
                return Err(ErrorKind::TypeMismatch);
            },
        }
        let mut payload: Vec<u8> = Vec::new();
        put_range(&mut payload, &self.payload, 0, self.payload.len());
        put_u64(&mut payload, item.len() as u64);
        put_range(&mut payload, item, 0, item.len());
        proof {
            assert(self.payload@.subrange(0, self.payload@.len() as int) =~= self.payload@);
            assert(item@.subrange(0, item@.len() as int) =~= item@);
            assert(payload@ =~= self.payload@ + frame(item@));
            lemma_push_item(self.payload@, item@);
        }
        self.payload = payload;
        Ok(())
    }

    /// Puts the text `s` at the end of a sequence, as the item that is
    /// its UTF-8. A value of another type stays as it is, with `TypeMismatch`.
    pub fn push_text(&mut self, s: &str) -> (res: Result<(), ErrorKind>)
        ensures
            old(self)@.tag == TypeTag::List ==> res.is_ok() && final(self)@ == old(self)@.with_item(
                encode_utf8(s@),
            ) && final(self)@.item_values() == old(self)@.item_values().push(encode_utf8(s@)),
            old(self)@.tag != TypeTag::List ==> res == Err::<(), ErrorKind>(ErrorKind::TypeMismatch)
                && final(self)@ == old(self)@,
            final(self)@.shaped(),
    {
        let item = slice_to_vec(s.as_bytes());
        self.push_item(&item)
    }

    /// Puts the encoding of `v` at the end of a sequence. A value of
    /// another type stays as it is, with `TypeMismatch`.
    pub fn push_value(&mut self, v: &Value) -> (res: Result<(), ErrorKind>)
        ensures
            old(self)@.tag == TypeTag::List ==> res.is_ok() && final(self)@ == old(self)@.with_item(
                v@.encoding(),
            ) && final(self)@.item_values() == old(self)@.item_values().push(v@.encoding()),
            old(self)@.tag != TypeTag::List ==> res == Err::<(), ErrorKind>(ErrorKind::TypeMismatch)
                && final(self)@ == old(self)@,
            final(self)@.shaped(),
    {
        let item = v.encode();
        self.push_item(&item)
    }

    /// A copy of the item at `index` of a sequence; `None` for a value
    /// that is no well-shaped sequence, and for an index past its end.
    pub fn item_at(&self, index: usize) -> (res: Option<Vec<u8>>)
        ensures
            self@.tag == TypeTag::List && self@.shaped() && index < self@.item_values().len()
                ==> res.is_some() && res.unwrap()@ == self@.item_values()[index as int],
            !(self@.tag == TypeTag::List && self@.shaped() && index < self@.item_values().len())
                ==> res.is_none(),
    {
        match self.tag {
            TypeTag::List => {},
            _ => {
                return None;
            },
        }
        if !is_chunked(&self.payload) {
            return None;
        }
        let b = &self.payload;
        let mut pos: usize = 0;
        let mut k: usize = 0;
        assert(b@.skip(0) =~= b@);
        loop
            invariant
                b@ == self.payload@,
                self@.tag == TypeTag::List,
                chunked(b@),
                pos <= b.len(),
                k <= index,
                chunked(b@.skip(pos as int)),
                items(b@).len() == k + items(b@.skip(pos as int)).len(),
                index < items(b@).len() ==> items(b@)[index as int] == items(b@.skip(pos as int))[index
                    - k],
            decreases b.len() - pos,
        {
            let ghost rest = b@.skip(pos as int);
            let left: usize = b.len() - pos;
            if left == 0 {
                assert(items(rest).len() == 0);
                return None;
            }
            proof {
                lemma_first_item(rest);
            }
            let n: u64 = get_u64(b, pos);
            proof {
                let head = b@.subrange(pos as int, pos + 8);
                assert(rest =~= head + rest.skip(8));
                lemma_number_of_prefix(head, rest.skip(8));
                assert(rest.skip(8 + n) =~= b@.skip(pos + 8 + n));
                assert(rest.subrange(8, 8 + n) =~= b@.subrange(pos + 8, pos + 8 + n));
            }
            if k == index {
                let mut item: Vec<u8> = Vec::new();
                put_range(&mut item, b, pos + 8, pos + 8 + n as usize);
                assert(item@ =~= b@.subrange(pos + 8, pos + 8 + n));
                return Some(item);
            }
            pos = pos + 8 + n as usize;
            k = k + 1;
        }
    }

    /// The type of the value.
    pub fn tag(&self) -> (t: TypeTag)
        ensures
            t == self@.tag,
            self@.shaped(),
    {
        proof {
            use_type_invariant(self);
        }
        self.tag
    }

    /// A copy of the value.
    pub fn duplicate(&self) -> (v: Value)
        ensures
            v@ == self@,
    {
        proof {
            use_type_invariant(self);
        }
        let mut payload: Vec<u8> = Vec::new();
        put_range(&mut payload, &self.payload, 0, self.payload.len());
        assert(payload@ =~= self.payload@);
        Value { tag: self.tag, payload }
    }

    /// The integer in the value; `TypeMismatch` unless it is an integer
    /// of four bytes.
    pub fn as_int(&self) -> (res: Result<i32, ErrorKind>)
        ensures
            self@.tag == TypeTag::Int && self@.payload.len() == 4 ==> res == Ok::<i32, ErrorKind>(
                self@.int_value(),
            ),
            !(self@.tag == TypeTag::Int && self@.payload.len() == 4) ==> res == Err::<
                i32,
                ErrorKind,
            >(ErrorKind::TypeMismatch),
    {
        match self.tag {
            TypeTag::Int => {},
            _ => {
                return Err(ErrorKind::TypeMismatch);
            },
        }
        if self.payload.len() != 4 {
            return Err(ErrorKind::TypeMismatch);
        }
        let w = get_u32(&self.payload, 0);
        assert(self.payload@.subrange(0, 4) =~= self.payload@);
        if w < 2147483648 {
            Ok(w as i32)
        } else {
            Ok(((w as i64) - 4294967296) as i32)
        }
    }

    /// The text in the value; `TypeMismatch` unless it is a text in UTF-8.
    pub fn as_text(&self) -> (res: Result<String, ErrorKind>)
        ensures
            self@.tag == TypeTag::Text && self@.shaped() ==> res.is_ok() && res.unwrap()@
                == self@.text_value(),
            !(self@.tag == TypeTag::Text && self@.shaped()) ==> res == Err::<String, ErrorKind>(
                ErrorKind::TypeMismatch,
            ),
    {
        match self.tag {
            TypeTag::Text => {},
            _ => {
                return Err(ErrorKind::TypeMismatch);
            },
        }
        let copy = self.duplicate();
        match string_of_utf8(copy.payload) {
            Some(s) => Ok(s),
            None => Err(ErrorKind::TypeMismatch),
        }
    }

    /// The reference in the value; `TypeMismatch` unless it is a
    /// reference of nine bytes with a rights mask.
    pub fn as_reference(&self) -> (res: Result<Reference, ErrorKind>)
        ensures
            self@.tag == TypeTag::Reference && self@.shaped() ==> res.is_ok()
                && res.unwrap().address() == self@.address_value() && res.unwrap().granted()
                == self@.rights_value(),
            !(self@.tag == TypeTag::Reference && self@.shaped()) ==> res == Err::<
                Reference,
                ErrorKind,
            >(ErrorKind::TypeMismatch),
    {
        match self.tag {
            TypeTag::Reference => {},
            _ => {
                return Err(ErrorKind::TypeMismatch);
            },
        }
        if self.payload.len() != 9 {
            return Err(ErrorKind::TypeMismatch);
        }
        let addr = get_u64(&self.payload, 0);
        proof {
            let head = self.payload@.subrange(0, 8);
            assert(self.payload@ =~= head + self.payload@.skip(8));
            lemma_number_of_prefix(head, self.payload@.skip(8));
        }
        match AccessRights::from_mask(self.payload[8]) {
            Some(rights) => Ok(Reference::assemble(addr, rights)),
            None => Err(ErrorKind::TypeMismatch),
        }
    }

    /// The contract identity in the value; `TypeMismatch` unless it is
    /// an identity of eight bytes.
    pub fn as_contract(&self) -> (res: Result<ContractId, ErrorKind>)
        ensures
            self@.tag == TypeTag::Contract && self@.shaped() ==> res == Ok::<
                ContractId,
                ErrorKind,
            >(self@.contract_value()),
            !(self@.tag == TypeTag::Contract && self@.shaped()) ==> res == Err::<
                ContractId,
                ErrorKind,
            >(ErrorKind::TypeMismatch),
    {
        match self.tag {
            TypeTag::Contract => {},
            _ => {
                return Err(ErrorKind::TypeMismatch);
            },
        }
        if self.payload.len() != 8 {
            return Err(ErrorKind::TypeMismatch);
        }
        let index = get_u64(&self.payload, 0);
        assert(self.payload@.subrange(0, 8) =~= self.payload@);
        Ok(ContractId { index })
    }

    fn frame_bytes(&self) -> (bytes: Vec<u8>)
        ensures
            bytes@ == self@.encoding(),
    {
        let mut bytes: Vec<u8> = Vec::new();
        bytes.push(self.tag.to_code());
        put_u64(&mut bytes, self.payload.len() as u64);
        put_range(&mut bytes, &self.payload, 0, self.payload.len());
        assert(self.payload@.subrange(0, self.payload.len() as int) =~= self.payload@);
        assert(bytes@ =~= self@.encoding());
        bytes
    }

    /// The bytes of the value: its type, the length of its payload, its
    /// payload. They decode to the value again.
    pub fn encode(&self) -> (bytes: Vec<u8>)
        ensures
            bytes@ == self@.encoding(),
            decoding(bytes@, self@.tag) == Some(self@),
    {
        let bytes = self.frame_bytes();
        let n = self.payload.len();
        proof {
            use_type_invariant(self);
            assert(self@.payload.len() == n);
            lemma_decode_encode(self@);
        }
        bytes
    }

    /// The value of type `expected` that `bytes` encode. Bytes that are
    /// cut short, that carry another type or length, or whose payload has
    /// not the shape of the type fail with `Deserialization`.
    pub fn decode(bytes: &Vec<u8>, expected: TypeTag) -> (res: Result<Value, ErrorKind>)
        ensures
            decoding(bytes@, expected).is_some() ==> res.is_ok() && res.unwrap()@ == decoding(
                bytes@,
                expected,
            ).unwrap(),
            decoding(bytes@, expected).is_none() ==> res == Err::<Value, ErrorKind>(
                ErrorKind::Deserialization,
            ),
    {
        if bytes.len() < 9 {
            return Err(ErrorKind::Deserialization);
        }
        if bytes[0] != expected.to_code() {
            return Err(ErrorKind::Deserialization);
        }
        let n = get_u64(bytes, 1);
        proof {
            let head = bytes@.subrange(1, 9);
            assert(bytes@.skip(1) =~= head + bytes@.skip(9));
            lemma_number_of_prefix(head, bytes@.skip(9));
        }
        if n != (bytes.len() - 9) as u64 {
            return Err(ErrorKind::Deserialization);
        }
        let mut payload: Vec<u8> = Vec::new();
        put_range(&mut payload, bytes, 9, bytes.len());
        assert(payload@ =~= bytes@.skip(9));
        if payload_shaped(expected, &payload) {
            Ok(Value { tag: expected, payload })
        } else {
            Err(ErrorKind::Deserialization)
        }
    }
}

} // verus!
