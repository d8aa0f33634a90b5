//! An in-memory model of PDF objects: the values a PDF file is made of, as
//! the PDF reader loads them, and the dictionary operations on them.

use vstd::prelude::*;

verus! {

/// Object number and generation number of an indirect object.
pub type ObjectId = (u32, u16);

/// How a string object is written in the file.
#[derive(Clone, Copy, PartialEq, Eq, Structural, Debug)]
pub enum StringFormat {
    Literal,
    Hexadecimal,
}

/// A PDF object. Real numbers are held as the bits of their `f32` value.
pub enum PdfObject {
    Null,
    Boolean(bool),
    Integer(i64),
    Real(u32),
    Name(Vec<u8>),
    String(Vec<u8>, StringFormat),
    Array(Vec<PdfObject>),
    Dictionary(PdfDictionary),
    Stream(PdfStream),
    Reference(ObjectId),
}

/// One key of a dictionary with its value.
pub struct DictEntry {
    pub key: Vec<u8>,
    pub value: PdfObject,
}

/// A dictionary, its entries in insertion order.
pub struct PdfDictionary {
    pub entries: Vec<DictEntry>,
}

/// A stream object: its dictionary and its (possibly encoded) content.
pub struct PdfStream {
    pub dict: PdfDictionary,
    pub content: Vec<u8>,
    /// Whether the writer may compress the stream.
    pub allows_compression: bool,
    /// Position of the stream data in the file it was read from.
    pub start_position: Option<usize>,
}

/// Mathematical value of a PDF object.
pub enum ObjectValue {
    Null,
    Boolean(bool),
    Integer(i64),
    Real(u32),
    Name(Seq<u8>),
    String(Seq<u8>, StringFormat),
    Array(Seq<ObjectValue>),
    Dictionary(Seq<(Seq<u8>, ObjectValue)>),
    Stream(Seq<(Seq<u8>, ObjectValue)>, Seq<u8>, bool, Option<usize>),
    Reference(ObjectId),
}

impl PdfObject {
    /// The value of this object.
    pub open spec fn value(&self) -> ObjectValue
        decreases self,
    {
        match self {
            PdfObject::Null => ObjectValue::Null,
            PdfObject::Boolean(b) => ObjectValue::Boolean(*b),
            PdfObject::Integer(n) => ObjectValue::Integer(*n),
            PdfObject::Real(r) => ObjectValue::Real(*r),
            PdfObject::Name(n) => ObjectValue::Name(n@),
            PdfObject::String(s, f) => ObjectValue::String(s@, *f),
            PdfObject::Array(items) => ObjectValue::Array(
                Seq::new(
                    items@.len(),
                    |i: int|
                        if 0 <= i < items@.len() {
                            items@[i].value()
                        } else {
                            ObjectValue::Null
                        },
                ),
            ),
            PdfObject::Dictionary(d) => ObjectValue::Dictionary(
                Seq::new(
                    d.entries@.len(),
                    |i: int|
                        if 0 <= i < d.entries@.len() {
                            (d.entries@[i].key@, d.entries@[i].value.value())
                        } else {
                            (Seq::empty(), ObjectValue::Null)
                        },
                ),
            ),
            PdfObject::Stream(s) => ObjectValue::Stream(
                Seq::new(
                    s.dict.entries@.len(),
                    |i: int|
                        if 0 <= i < s.dict.entries@.len() {
                            (s.dict.entries@[i].key@, s.dict.entries@[i].value.value())
                        } else {
                            (Seq::empty(), ObjectValue::Null)
                        },
                ),
                s.content@,
                s.allows_compression,
                s.start_position,
            ),
            PdfObject::Reference(id) => ObjectValue::Reference(*id),
        }
    }
}

/// Values of a sequence of objects.
pub open spec fn values_of(items: Seq<PdfObject>) -> Seq<ObjectValue> {
    Seq::new(items.len(), |i: int| items[i].value())
}

/// Values of a sequence of dictionary entries.
pub open spec fn entries_of(entries: Seq<DictEntry>) -> Seq<(Seq<u8>, ObjectValue)> {
    Seq::new(entries.len(), |i: int| (entries[i].key@, entries[i].value.value()))
}

impl View for PdfDictionary {
    type V = Seq<(Seq<u8>, ObjectValue)>;

    open spec fn view(&self) -> Seq<(Seq<u8>, ObjectValue)> {
        entries_of(self.entries@)
    }
}

/// A dictionary object has the value of its entries.
pub proof fn lemma_dictionary_value(d: PdfDictionary)
    ensures
        PdfObject::Dictionary(d).value() == ObjectValue::Dictionary(d@),
{
    assert(PdfObject::Dictionary(d).value() matches ObjectValue::Dictionary(x) && x =~= d@);
}

/// An array object has the values of its items.
pub proof fn lemma_array_value(items: Vec<PdfObject>)
    ensures
        PdfObject::Array(items).value() == ObjectValue::Array(values_of(items@)),
{
    assert(PdfObject::Array(items).value() matches ObjectValue::Array(x) && x =~= values_of(items@));
}

/// A stream object has the value of its dictionary and content.
pub proof fn lemma_stream_value(s: PdfStream)
    ensures
        PdfObject::Stream(s).value() == ObjectValue::Stream(
            s.dict@,
            s.content@,
            s.allows_compression,
            s.start_position,
        ),
{
    assert(PdfObject::Stream(s).value() matches ObjectValue::Stream(x, _, _, _) && x =~= s.dict@);
}

/// Value stored under `key`: the first entry with that key.
pub open spec fn dict_lookup(entries: Seq<(Seq<u8>, ObjectValue)>, key: Seq<u8>) -> Option<ObjectValue>
    decreases entries.len(),
{
    if entries.len() == 0 {
        None
    } else if entries[0].0 == key {
        Some(entries[0].1)
    } else {
        dict_lookup(entries.drop_first(), key)
    }
}

/// The entries whose key is not `key`, in order.
pub open spec fn dict_without(entries: Seq<(Seq<u8>, ObjectValue)>, key: Seq<u8>) -> Seq<(Seq<u8>, ObjectValue)>
    decreases entries.len(),
{
    if entries.len() == 0 {
        Seq::empty()
    } else if entries.last().0 == key {
        dict_without(entries.drop_last(), key)
    } else {
        dict_without(entries.drop_last(), key).push(entries.last())
    }
}

/// Setting a key: any entry with that key is removed and the new entry
/// goes last (the order an insertion-ordered map keeps after an update).
pub open spec fn dict_set(entries: Seq<(Seq<u8>, ObjectValue)>, key: Seq<u8>, value: ObjectValue) -> Seq<(Seq<u8>, ObjectValue)> {
    dict_without(entries, key).push((key, value))
}

/// Whether two byte strings are equal.
pub fn bytes_eq(a: &[u8], b: &[u8]) -> (eq: bool)
    ensures
        eq == (a@ == b@),
{
    if a.len() != b.len() {
        return false;
    }
    for i in 0..a.len()
        invariant
            a.len() == b.len(),
            forall|j: int| 0 <= j < i ==> a@[j] == b@[j],
    {
        if a[i] != b[i] {
            return false;
        }
    }
    assert(a@ =~= b@);
    true
}

/// A copy of a byte string.
pub fn copy_bytes(v: &Vec<u8>) -> (copy: Vec<u8>)
    ensures
        copy@ == v@,
{
    let mut copy: Vec<u8> = Vec::with_capacity(v.len());
    for i in 0..v.len()
        invariant
            copy@ == v@.subrange(0, i as int),
    {
        copy.push(v[i]);
    }
    copy
}

/// A deep copy of an object.
pub fn clone_object(o: &PdfObject) -> (copy: PdfObject)
    ensures
        copy.value() == o.value(),
    decreases o, 1nat,
{
    match o {
        PdfObject::Null => PdfObject::Null,
        PdfObject::Boolean(b) => PdfObject::Boolean(*b),
        PdfObject::Integer(n) => PdfObject::Integer(*n),
        PdfObject::Real(x) => PdfObject::Real(*x),
        PdfObject::Name(n) => PdfObject::Name(copy_bytes(n)),
        PdfObject::String(s, f) => PdfObject::String(copy_bytes(s), *f),
        PdfObject::Array(items) => {
            let mut out: Vec<PdfObject> = Vec::with_capacity(items.len());
            #[verifier::loop_isolation(false)]
            for i in 0..items.len()
                invariant
                    out@.len() == i,
                    forall|j: int| 0 <= j < i ==> #[trigger] out@[j].value() == items@[j].value(),
            {
                out.push(clone_object(&items[i]));
            }
            proof {
                assert(values_of(out@) =~= values_of(items@));
                lemma_array_value(out);
                lemma_array_value(*items);
            }
            PdfObject::Array(out)
        },
        PdfObject::Dictionary(d) => {
            let copy = clone_entries_of(o, d);
            proof {
                lemma_dictionary_value(copy);
                lemma_dictionary_value(*d);
            }
            PdfObject::Dictionary(copy)
        },
        PdfObject::Stream(s) => {
            let dict = clone_entries_of(o, &s.dict);
            let copy = PdfStream {
                dict,
                content: copy_bytes(&s.content),
                allows_compression: s.allows_compression,
                start_position: s.start_position,
            };
            proof {
                lemma_stream_value(copy);
                lemma_stream_value(*s);
            }
            PdfObject::Stream(copy)
        },
        PdfObject::Reference(id) => PdfObject::Reference(*id),
    }
}

/// Copy of a dictionary held (directly or as a stream dictionary) by `owner`.
fn clone_entries_of(owner: &PdfObject, d: &PdfDictionary) -> (copy: PdfDictionary)
    requires
        (owner matches PdfObject::Dictionary(x) && x == *d) || (owner matches PdfObject::Stream(s) && s.dict == *d),
    ensures
        copy@ == d@,
    decreases owner, 0nat,
{
    let mut out: Vec<DictEntry> = Vec::with_capacity(d.entries.len());
    #[verifier::loop_isolation(false)]
    for i in 0..d.entries.len()
        invariant
            out@.len() == i,
            forall|j: int|
                0 <= j < i ==> #[trigger] out@[j].key@ == d.entries@[j].key@ && out@[j].value.value()
                    == d.entries@[j].value.value(),
    {
        proof {
            assert(decreases_to!(owner => d.entries@[i as int].value));
        }
        out.push(DictEntry { key: copy_bytes(&d.entries[i].key), value: clone_object(&d.entries[i].value) });
    }
    let copy = PdfDictionary { entries: out };
    assert(copy@ =~= d@);
    copy
}

} // verus!

verus! {

/// A deep copy of a dictionary.
pub fn clone_dictionary(d: &PdfDictionary) -> (copy: PdfDictionary)
    ensures
        copy@ == d@,
{
    let mut out: Vec<DictEntry> = Vec::with_capacity(d.entries.len());
    #[verifier::loop_isolation(false)]
    for i in 0..d.entries.len()
        invariant
            out@.len() == i,
            forall|j: int|
                0 <= j < i ==> #[trigger] out@[j].key@ == d.entries@[j].key@ && out@[j].value.value()
                    == d.entries@[j].value.value(),
    {
        out.push(DictEntry { key: copy_bytes(&d.entries[i].key), value: clone_object(&d.entries[i].value) });
    }
    let copy = PdfDictionary { entries: out };
    assert(copy@ =~= d@);
    copy
}

/// Lookup skips entries with other keys.
proof fn lemma_lookup_skip(entries: Seq<(Seq<u8>, ObjectValue)>, key: Seq<u8>, i: int)
    requires
        0 <= i <= entries.len(),
        forall|j: int| 0 <= j < i ==> (#[trigger] entries[j]).0 != key,
    ensures
        dict_lookup(entries, key) == dict_lookup(entries.skip(i), key),
    decreases i,
{
    if i > 0 {
        assert(entries.drop_first().skip(i - 1) =~= entries.skip(i));
        assert forall|j: int| 0 <= j < i - 1 implies (#[trigger] entries.drop_first()[j]).0 != key by {
            assert(entries.drop_first()[j] == entries[j + 1]);
        }
        lemma_lookup_skip(entries.drop_first(), key, i - 1);
    } else {
        assert(entries.skip(0) =~= entries);
    }
}

impl PdfDictionary {
    /// An empty dictionary.
    pub fn new() -> (d: Self)
        ensures
            d@ == Seq::<(Seq<u8>, ObjectValue)>::empty(),
    {
        let d = PdfDictionary { entries: Vec::new() };
        assert(d@ =~= Seq::<(Seq<u8>, ObjectValue)>::empty());
        d
    }

    /// The value stored under `key`.
    pub fn get(&self, key: &[u8]) -> (found: Option<&PdfObject>)
        ensures
            match dict_lookup(self@, key@) {
                None => found is None,
                Some(v) => found matches Some(o) && o.value() == v,
            },
    {
        let n = self.entries.len();
        for i in 0..n
            invariant
                n == self.entries@.len(),
                forall|j: int| 0 <= j < i ==> (#[trigger] self@[j]).0 != key@,
        {
            if bytes_eq(self.entries[i].key.as_slice(), key) {
                proof {
                    lemma_lookup_skip(self@, key@, i as int);
                    assert(self@.skip(i as int)[0] == self@[i as int]);
                }
                return Some(&self.entries[i].value);
            }
            assert(self@[i as int].0 == self.entries@[i as int].key@);
        }
        proof {
            lemma_lookup_skip(self@, key@, n as int);
            assert(self@.skip(n as int).len() == 0);
        }
        None
    }

    /// Store `value` under `key`, replacing any earlier entry for it; the
    /// entry becomes the last one.
    pub fn set(&mut self, key: Vec<u8>, value: PdfObject)
        ensures
            final(self)@ == dict_set(old(self)@, key@, value.value()),
    {
        let mut old_entries: Vec<DictEntry> = Vec::new();
        std::mem::swap(&mut old_entries, &mut self.entries);
        let ghost old_view = entries_of(old_entries@);
        proof {
            assert(self.entries@ =~= Seq::<DictEntry>::empty());
            assert(old_view.take(0) =~= Seq::<(Seq<u8>, ObjectValue)>::empty());
            assert(entries_of(self.entries@) =~= Seq::<(Seq<u8>, ObjectValue)>::empty());
        }
        for e in it: old_entries
            invariant
                it.seq() == old_entries@,
                old_view == entries_of(old_entries@),
                entries_of(self.entries@) == dict_without(old_view.take(it.index() as int), key@),
        {
            let ghost prev = self.entries@;
            proof {
                assert(old_view.take(it.index() + 1).drop_last() =~= old_view.take(it.index() as int));
                assert(old_view[it.index() as int] == (e.key@, e.value.value()));
            }
            if !bytes_eq(e.key.as_slice(), key.as_slice()) {
                self.entries.push(e);
                proof {
                    assert(entries_of(self.entries@) =~= entries_of(prev).push((e.key@, e.value.value())));
                }
            }
        }
        proof {
            assert(old_view.take(old_view.len() as int) =~= old_view);
        }
        let ghost prev = self.entries@;
        let ghost kv = key@;
        let ghost vv = value.value();
        self.entries.push(DictEntry { key, value });
        proof {
            assert(entries_of(self.entries@) =~= entries_of(prev).push((kv, vv)));
        }
    }
}

} // verus!

verus! {

/// Looking a key up finds nothing in a dictionary without that key, and
/// removing one key leaves the lookup of every other key unchanged.
pub proof fn lemma_lookup_without(entries: Seq<(Seq<u8>, ObjectValue)>, key: Seq<u8>, other: Seq<u8>)
    ensures
        dict_lookup(dict_without(entries, key), key) is None,
        other != key ==> dict_lookup(dict_without(entries, key), other) == dict_lookup(entries, other),
    decreases entries.len(),
{
    if entries.len() > 0 {
        lemma_lookup_without(entries.drop_last(), key, other);
        lemma_lookup_push(dict_without(entries.drop_last(), key), entries.last(), key);
        lemma_lookup_push(dict_without(entries.drop_last(), key), entries.last(), other);
        lemma_lookup_push(entries.drop_last(), entries.last(), other);
        assert(entries.drop_last().push(entries.last()) =~= entries);
    }
}

/// Appending an entry changes a lookup only when the key was absent.
pub proof fn lemma_lookup_push(entries: Seq<(Seq<u8>, ObjectValue)>, e: (Seq<u8>, ObjectValue), key: Seq<u8>)
    ensures
        dict_lookup(entries.push(e), key) == match dict_lookup(entries, key) {
            Some(v) => Some(v),
            None => if e.0 == key { Some(e.1) } else { None },
        },
    decreases entries.len(),
{
    if entries.len() > 0 {
        assert(entries.push(e).drop_first() =~= entries.drop_first().push(e));
        assert(entries.push(e)[0] == entries[0]);
        lemma_lookup_push(entries.drop_first(), e, key);
    } else {
        assert(entries.push(e).drop_first() =~= Seq::<(Seq<u8>, ObjectValue)>::empty());
        assert(entries.push(e)[0] == e);
        assert(dict_lookup(Seq::<(Seq<u8>, ObjectValue)>::empty(), key) is None);
    }
}

/// Read after write on dictionaries: after setting `key` to `value`, the
/// key holds `value`, every other key holds what it held before, and the
/// key occurs in exactly one entry, the last.
pub proof fn lemma_dict_set_read(entries: Seq<(Seq<u8>, ObjectValue)>, key: Seq<u8>, value: ObjectValue, other: Seq<u8>)
    ensures
        dict_lookup(dict_set(entries, key, value), key) == Some(value),
        other != key ==> dict_lookup(dict_set(entries, key, value), other) == dict_lookup(entries, other),
        dict_set(entries, key, value).last() == (key, value),
        forall|i: int|
            0 <= i < dict_set(entries, key, value).len() - 1 ==> (#[trigger] dict_set(entries, key, value)[i]).0
                != key,
{
    lemma_lookup_without(entries, key, other);
    lemma_lookup_push(dict_without(entries, key), (key, value), key);
    lemma_lookup_push(dict_without(entries, key), (key, value), other);
    lemma_without_has_no_key(entries, key);
}

/// No entry of `dict_without(entries, key)` has the key.
pub proof fn lemma_without_has_no_key(entries: Seq<(Seq<u8>, ObjectValue)>, key: Seq<u8>)
    ensures
        forall|i: int| 0 <= i < dict_without(entries, key).len() ==> (#[trigger] dict_without(entries, key)[i]).0 != key,
    decreases entries.len(),
{
    if entries.len() > 0 {
        lemma_without_has_no_key(entries.drop_last(), key);
        let rest = dict_without(entries.drop_last(), key);
        if entries.last().0 != key {
            assert forall|i: int| 0 <= i < rest.push(entries.last()).len() implies (#[trigger] rest.push(entries.last())[i]).0 != key by {
                if i < rest.len() {
                    assert(rest.push(entries.last())[i] == rest[i]);
                }
            }
        }
    }
}

} // verus!
