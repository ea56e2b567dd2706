//! The record model: structured values, and ordered field mappings.
//!
//! A record is an ordered mapping from field names to values, where field
//! order is insertion order and is part of what gets signed. The mathematical
//! model of a value is `ValueV`; the model of a record is a sequence of
//! (name, value) pairs with distinct names.

use vstd::prelude::*;
use crate::SigError;

verus! {

/// The mathematical model of a structured value.
pub enum ValueV {
    Null,
    Bool(bool),
    Int(int),
    Str(Seq<char>),
    Arr(Seq<ValueV>),
    Obj(Seq<(Seq<char>, ValueV)>),
}

/// A structured value: the shape of a record field's content.
///
/// Numbers are integers: the canonical encoding pins a single decimal
/// formatting for them, which keeps the byte encoding deterministic across
/// implementations.
#[derive(Debug)]
pub enum Value {
    Null,
    Bool(bool),
    Int(i64),
    Str(String),
    Arr(Vec<Value>),
    Obj(Vec<(String, Value)>),
}

impl View for Value {
    type V = ValueV;

    open spec fn view(&self) -> ValueV
        decreases self,
    {
        match self {
            Value::Null => ValueV::Null,
            Value::Bool(b) => ValueV::Bool(*b),
            Value::Int(i) => ValueV::Int(*i as int),
            Value::Str(s) => ValueV::Str(s@),
            Value::Arr(items) => ValueV::Arr(view_values(items@)),
            Value::Obj(fields) => ValueV::Obj(view_fields(fields@)),
        }
    }
}

/// The models of a sequence of values, in order.
pub open spec fn view_values(items: Seq<Value>) -> Seq<ValueV>
    decreases items,
{
    if items.len() == 0 {
        Seq::empty()
    } else {
        seq![items[0]@] + view_values(items.subrange(1, items.len() as int))
    }
}

/// The models of a sequence of (name, value) pairs, in order.
pub open spec fn view_fields(fields: Seq<(String, Value)>) -> Seq<(Seq<char>, ValueV)>
    decreases fields,
{
    if fields.len() == 0 {
        Seq::empty()
    } else {
        seq![(fields[0].0@, fields[0].1@)] + view_fields(
            fields.subrange(1, fields.len() as int),
        )
    }
}

pub proof fn lemma_view_values(items: Seq<Value>)
    ensures
        view_values(items).len() == items.len(),
        forall|i: int| 0 <= i < items.len() ==> view_values(items)[i] == items[i]@,
    decreases items,
{
    if items.len() > 0 {
        let rest = items.subrange(1, items.len() as int);
        lemma_view_values(rest);
        assert(view_values(items) == seq![items[0]@] + view_values(rest));
        assert forall|i: int| 0 <= i < items.len() implies view_values(items)[i] == items[i]@ by {
            if i >= 1 {
                assert(view_values(items)[i] == view_values(rest)[i - 1]);
                assert(rest[i - 1] == items[i]);
            }
        }
    }
}

pub proof fn lemma_view_fields(fields: Seq<(String, Value)>)
    ensures
        view_fields(fields).len() == fields.len(),
        forall|i: int|
            0 <= i < fields.len() ==> view_fields(fields)[i] == (fields[i].0@, fields[i].1@),
    decreases fields,
{
    if fields.len() > 0 {
        let rest = fields.subrange(1, fields.len() as int);
        lemma_view_fields(rest);
        assert(view_fields(fields) == seq![(fields[0].0@, fields[0].1@)] + view_fields(rest));
        assert forall|i: int|
            0 <= i < fields.len() implies view_fields(fields)[i] == (
            fields[i].0@,
            fields[i].1@,
        ) by {
            if i >= 1 {
                assert(view_fields(fields)[i] == view_fields(rest)[i - 1]);
                assert(rest[i - 1] == fields[i]);
            }
        }
    }
}

/// The model of a record: its fields in insertion order.
pub type FieldsV = Seq<(Seq<char>, ValueV)>;

/// No two fields share a name.
pub open spec fn keys_unique(fields: FieldsV) -> bool {
    forall|i: int, j: int|
        0 <= i < j < fields.len() ==> fields[i].0 != fields[j].0
}

/// Whether a field with the given name is present.
pub open spec fn has_key(fields: FieldsV, name: Seq<char>) -> bool {
    exists|i: int| 0 <= i < fields.len() && fields[i].0 == name
}

/// The position of the first field with the given name (the length when absent).
pub open spec fn key_index(fields: FieldsV, name: Seq<char>) -> int
    decreases fields,
{
    if fields.len() == 0 {
        0
    } else if fields[0].0 == name {
        0
    } else {
        1 + key_index(fields.subrange(1, fields.len() as int), name)
    }
}

/// The fields without those named `name`, order preserved.
pub open spec fn strip_key(fields: FieldsV, name: Seq<char>) -> FieldsV
    decreases fields,
{
    if fields.len() == 0 {
        Seq::empty()
    } else if fields[0].0 == name {
        strip_key(fields.subrange(1, fields.len() as int), name)
    } else {
        seq![fields[0]] + strip_key(fields.subrange(1, fields.len() as int), name)
    }
}

/// Setting a field: replaced in place when present, appended when absent.
pub open spec fn set_key(fields: FieldsV, name: Seq<char>, v: ValueV) -> FieldsV {
    if has_key(fields, name) {
        fields.update(key_index(fields, name), (name, v))
    } else {
        fields.push((name, v))
    }
}

pub proof fn lemma_key_index(fields: FieldsV, name: Seq<char>)
    ensures
        has_key(fields, name) ==> {
            &&& 0 <= key_index(fields, name) < fields.len()
            &&& fields[key_index(fields, name)].0 == name
            &&& forall|i: int| 0 <= i < key_index(fields, name) ==> fields[i].0 != name
        },
        !has_key(fields, name) ==> key_index(fields, name) == fields.len(),
    decreases fields,
{
    if fields.len() > 0 && fields[0].0 != name {
        let rest = fields.subrange(1, fields.len() as int);
        lemma_key_index(rest, name);
        assert(has_key(fields, name) ==> has_key(rest, name)) by {
            if has_key(fields, name) {
                let i = choose|i: int| 0 <= i < fields.len() && fields[i].0 == name;
                assert(rest[i - 1] == fields[i]);
            }
        }
        assert(has_key(rest, name) ==> has_key(fields, name)) by {
            if has_key(rest, name) {
                let i = choose|i: int| 0 <= i < rest.len() && rest[i].0 == name;
                assert(fields[i + 1] == rest[i]);
            }
        }
        assert(key_index(fields, name) == 1 + key_index(rest, name));
        if has_key(fields, name) {
            assert forall|i: int| 0 <= i < key_index(fields, name) implies fields[i].0 != name by {
                if i >= 1 {
                    assert(rest[i - 1] == fields[i]);
                }
            }
        }
    }
}

/// A record: an ordered mapping from field names to values, with
/// distinct names, as produced and consumed by the sign and verify
/// operations.
#[derive(Debug)]
pub struct Record {
    fields: Vec<(String, Value)>,
}

impl View for Record {
    type V = FieldsV;

    closed spec fn view(&self) -> FieldsV {
        view_fields(self.fields@)
    }
}

impl Record {
    /// Well-formed: no two fields share a name.
    pub open spec fn wf(&self) -> bool {
        keys_unique(self@)
    }

    /// The empty record.
    pub fn new() -> (r: Record)
        ensures
            r@ == Seq::<(Seq<char>, ValueV)>::empty(),
            r.wf(),
    {
        let fields: Vec<(String, Value)> = Vec::new();
        proof {
            lemma_view_fields(fields@);
            assert(view_fields(fields@) =~= Seq::<(Seq<char>, ValueV)>::empty());
        }
        Record { fields }
    }

    /// How many fields the record has.
    pub fn len(&self) -> (n: usize)
        ensures
            n == self@.len(),
    {
        proof {
            lemma_view_fields(self.fields@);
        }
        self.fields.len()
    }

    /// The field at a position, in insertion order.
    pub fn field_at(&self, i: usize) -> (f: &(String, Value))
        requires
            i < self@.len(),
        ensures
            self@[i as int] == (f.0@, f.1@),
    {
        proof {
            lemma_view_fields(self.fields@);
        }
        &self.fields[i]
    }

    /// The position of the first field with the given name, if present.
    fn find(&self, name: &str) -> (r: Option<usize>)
        ensures
            match r {
                Some(i) => {
                    &&& has_key(self@, name@)
                    &&& i == key_index(self@, name@)
                    &&& i < self@.len()
                    &&& self@[i as int].0 == name@
                },
                None => !has_key(self@, name@),
            },
    {
        proof {
            lemma_view_fields(self.fields@);
            lemma_key_index(self@, name@);
        }
        let n = self.fields.len();
        for i in 0..n
            invariant
                n == self.fields.len(),
                forall|j: int| 0 <= j < i ==> self@[j].0 != name@,
                self@.len() == n,
                forall|j: int|
                    0 <= j < n ==> self@[j] == (self.fields@[j].0@, self.fields@[j].1@),
        {
            if str_eq(self.fields[i].0.as_str(), name) {
                proof {
                    assert(self@[i as int].0 == name@);
                    assert(has_key(self@, name@));
                    lemma_key_index(self@, name@);
                }
                return Some(i);
            }
        }
        proof {
            assert(!has_key(self@, name@));
        }
        None
    }

    /// Whether a field with the given name is present.
    pub fn has(&self, name: &str) -> (r: bool)
        ensures
            r == has_key(self@, name@),
    {
        self.find(name).is_some()
    }

    /// The value of the field with the given name, if present.
    pub fn get(&self, name: &str) -> (r: Option<&Value>)
        ensures
            match r {
                Some(v) => {
                    &&& has_key(self@, name@)
                    &&& self@[key_index(self@, name@)].1 == v@
                },
                None => !has_key(self@, name@),
            },
    {
        proof {
            lemma_view_fields(self.fields@);
        }
        match self.find(name) {
            Some(i) => Some(&self.fields[i].1),
            None => None,
        }
    }

    /// Set a field: replaced in place when present, appended when absent.
    pub fn set(&mut self, name: String, v: Value)
        requires
            old(self).wf(),
        ensures
            final(self)@ == set_key(old(self)@, name@, v@),
            final(self).wf(),
    {
        proof {
            lemma_view_fields(self.fields@);
        }
        match self.find(name.as_str()) {
            Some(i) => {
                self.fields.set(i, (name, v));
                proof {
                    lemma_view_fields(self.fields@);
                    lemma_view_fields(old(self).fields@);
                    assert(self@ =~= set_key(old(self)@, name@, v@));
                }
            },
            None => {
                self.fields.push((name, v));
                proof {
                    lemma_view_fields(self.fields@);
                    lemma_view_fields(old(self).fields@);
                    assert(self.fields@.subrange(0, old(self).fields@.len() as int) =~= old(
                        self,
                    ).fields@);
                    assert(self@ =~= set_key(old(self)@, name@, v@));
                }
            },
        }
    }

    /// Remove every field with the given name (at most one, when well-formed).
    pub fn remove(&mut self, name: &str)
        requires
            old(self).wf(),
        ensures
            final(self)@ == strip_key(old(self)@, name@),
            final(self).wf(),
    {
        proof {
            lemma_view_fields(self.fields@);
            lemma_key_index(old(self)@, name@);
        }
        match self.find(name) {
            Some(i) => {
                self.fields.remove(i);
                proof {
                    lemma_view_fields(self.fields@);
                    lemma_view_fields(old(self).fields@);
                    lemma_strip_at_key_index(old(self)@, name@);
                    assert(self@ =~= old(self)@.remove(key_index(old(self)@, name@)));
                }
            },
            None => {
                proof {
                    lemma_strip_absent(old(self)@, name@);
                }
            },
        }
    }
}

/// When no field has the name, stripping changes nothing.
pub proof fn lemma_strip_absent(fields: FieldsV, name: Seq<char>)
    requires
        !has_key(fields, name),
    ensures
        strip_key(fields, name) == fields,
    decreases fields,
{
    if fields.len() > 0 {
        let rest = fields.subrange(1, fields.len() as int);
        assert(fields[0].0 != name);
        assert(!has_key(rest, name)) by {
            if has_key(rest, name) {
                let i = choose|i: int| 0 <= i < rest.len() && rest[i].0 == name;
                assert(fields[i + 1] == rest[i]);
            }
        }
        lemma_strip_absent(rest, name);
        assert(strip_key(fields, name) =~= fields);
    }
}

/// With distinct names, stripping a present name removes exactly its field.
pub proof fn lemma_strip_at_key_index(fields: FieldsV, name: Seq<char>)
    requires
        keys_unique(fields),
        has_key(fields, name),
    ensures
        strip_key(fields, name) == fields.remove(key_index(fields, name)),
    decreases fields,
{
    lemma_key_index(fields, name);
    let k = key_index(fields, name);
    let rest = fields.subrange(1, fields.len() as int);
    if fields[0].0 == name {
        assert(!has_key(rest, name)) by {
            if has_key(rest, name) {
                let i = choose|i: int| 0 <= i < rest.len() && rest[i].0 == name;
                assert(fields[i + 1] == rest[i]);
            }
        }
        lemma_strip_absent(rest, name);
        assert(strip_key(fields, name) =~= fields.remove(0));
    } else {
        assert(keys_unique(rest) && has_key(rest, name)) by {
            assert(forall|i: int, j: int|
                0 <= i < j < rest.len() ==> rest[i] == fields[i + 1] && rest[j] == fields[j + 1]);
            let i = choose|i: int| 0 <= i < fields.len() && fields[i].0 == name;
            assert(rest[i - 1] == fields[i]);
        }
        lemma_strip_at_key_index(rest, name);
        assert(strip_key(fields, name) =~= fields.remove(k));
    }
}

/// Folding a sequence of fields into a record, setting each in turn: a
/// later value for a repeated name wins, at the position of the first.
pub open spec fn set_all(acc: FieldsV, rest: FieldsV) -> FieldsV
    decreases rest,
{
    if rest.len() == 0 {
        acc
    } else {
        set_all(set_key(acc, rest[0].0, rest[0].1), rest.subrange(1, rest.len() as int))
    }
}

impl Record {
    /// Build a record from a structured value. Anything but an object is
    /// refused; an object's fields are set in order.
    pub fn from_value(v: Value) -> (r: Result<Record, SigError>)
        ensures
            match r {
                Ok(rec) => {
                    &&& v@ matches ValueV::Obj(fs) && rec@ == set_all(
                        Seq::<(Seq<char>, ValueV)>::empty(),
                        fs,
                    )
                    &&& rec.wf()
                },
                Err(e) => e == SigError::ExpectedObject && !(v@ is Obj),
            },
    {
        match v {
            Value::Obj(mut fields) => {
                let ghost orig = view_fields(fields@);
                let mut rec = Record::new();
                proof {
                    lemma_view_fields(fields@);
                }
                while fields.len() > 0
                    invariant
                        rec.wf(),
                        set_all(Seq::<(Seq<char>, ValueV)>::empty(), orig) == set_all(
                            rec@,
                            view_fields(fields@),
                        ),
                    decreases fields.len(),
                {
                    let ghost acc = rec@;
                    let ghost pre = fields@;
                    let ghost rest = view_fields(fields@);
                    proof {
                        lemma_view_fields(fields@);
                    }
                    let f = fields.remove(0);
                    proof {
                        assert(fields@ =~= pre.subrange(1, pre.len() as int));
                    }
                    rec.set(f.0, f.1);
                    proof {
                        assert(rest[0] == (f.0@, f.1@));
                        assert(rec@ == set_key(acc, rest[0].0, rest[0].1));
                        assert(view_fields(fields@) =~= rest.subrange(1, rest.len() as int));
                        assert(set_all(acc, rest) == set_all(rec@, view_fields(fields@)));
                    }
                }
                proof {
                    lemma_view_fields(fields@);
                    assert(view_fields(fields@) =~= Seq::<(Seq<char>, ValueV)>::empty());
                }
                Ok(rec)
            },
            other => {
                proof {
                    assert(!(other@ is Obj));
                }
                Err(SigError::ExpectedObject)
            },
        }
    }
}

/// After setting a field, it is present, it holds the new value, and the
/// names stay distinct.
pub proof fn lemma_set_key_lookup(fields: FieldsV, name: Seq<char>, v: ValueV)
    requires
        keys_unique(fields),
    ensures
        has_key(set_key(fields, name, v), name),
        set_key(fields, name, v)[key_index(set_key(fields, name, v), name)] == (name, v),
        keys_unique(set_key(fields, name, v)),
    decreases fields,
{
    lemma_key_index(fields, name);
    let sk = set_key(fields, name, v);
    if has_key(fields, name) {
        let k = key_index(fields, name);
        assert(sk == fields.update(k, (name, v)));
        assert(sk[k] == (name, v));
        assert(has_key(sk, name));
        lemma_key_index(sk, name);
        assert(forall|j: int| 0 <= j < sk.len() ==> sk[j].0 == fields[j].0);
        let k2 = key_index(sk, name);
        assert(k2 <= k);
        assert(k2 == k);
    } else {
        assert(sk == fields.push((name, v)));
        assert(sk[fields.len() as int] == (name, v));
        assert(has_key(sk, name));
        lemma_key_index(sk, name);
        let k2 = key_index(sk, name);
        assert(forall|j: int| 0 <= j < fields.len() ==> sk[j] == fields[j]);
        assert(k2 == fields.len());
    }
}

/// Byte-for-byte equality of two vectors.
fn bytes_eq(a: &Vec<u8>, b: &Vec<u8>) -> (r: bool)
    ensures
        r == (a@ == b@),
{
    if a.len() != b.len() {
        return false;
    }
    let n = a.len();
    for i in 0..n
        invariant
            n == a.len() == b.len(),
            forall|j: int| 0 <= j < i ==> a@[j] == b@[j],
    {
        if a[i] != b[i] {
            return false;
        }
    }
    proof {
        assert(a@ =~= b@);
    }
    true
}

/// Content equality of two strings.
pub fn str_eq(a: &str, b: &str) -> (r: bool)
    ensures
        r == (a@ == b@),
{
    let av = a.as_bytes_vec();
    let bv = b.as_bytes_vec();
    let r = bytes_eq(&av, &bv);
    proof {
        vstd::utf8::encode_utf8_decode_utf8(a@);
        vstd::utf8::encode_utf8_decode_utf8(b@);
        assert(av@ == vstd::utf8::encode_utf8(a@));
        assert(bv@ == vstd::utf8::encode_utf8(b@));
    }
    r
}

} // verus!
