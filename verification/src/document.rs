//! The indirect objects of a PDF document, looked up the way the PDF reader
//! does: by object id, following chains of references.

use vstd::prelude::*;
use vstd::pervasive::VecAdditionalExecFns;
use crate::object::{ObjectId, ObjectValue, PdfObject};

verus! {

/// An indirect object with its id.
pub struct IndirectObject {
    pub id: ObjectId,
    pub object: PdfObject,
}

/// The objects of a document and the largest object number in use.
pub struct PdfDocument {
    /// The objects; when an id occurs twice the first entry counts.
    pub objects: Vec<IndirectObject>,
    pub max_id: u32,
}

/// Errors of an object lookup.
#[derive(Clone, Copy, PartialEq, Eq, Structural, Debug)]
pub enum PdfError {
    /// No object has the id.
    ObjectNotFound,
    /// More than 128 references were followed.
    ReferenceLimit,
}

/// Most references followed by one lookup.
pub open spec fn deref_limit() -> int {
    128
}

/// Map from id to value of a sequence of objects (the first entry for an
/// id counts).
pub open spec fn objects_map(s: Seq<IndirectObject>) -> Map<ObjectId, ObjectValue>
    decreases s.len(),
{
    if s.len() == 0 {
        Map::empty()
    } else {
        objects_map(s.drop_first()).insert(s[0].id, s[0].object.value())
    }
}

impl PdfDocument {
    /// The objects of the document by id.
    pub open spec fn objects_view(&self) -> Map<ObjectId, ObjectValue> {
        objects_map(self.objects@)
    }

    /// No id occurs twice among the objects.
    pub open spec fn ids_unique(&self) -> bool {
        forall|i: int, j: int|
            0 <= i < j < self.objects@.len() ==> (#[trigger] self.objects@[i]).id != (#[trigger] self.objects@[j]).id
    }
}

/// Follow references from `v`, `derefs` of them having been followed.
pub open spec fn resolve(objects: Map<ObjectId, ObjectValue>, v: ObjectValue, derefs: int) -> Result<ObjectValue, PdfError>
    decreases deref_limit() - derefs,
{
    match v {
        ObjectValue::Reference(r) => {
            if !objects.contains_key(r) {
                Err(PdfError::ObjectNotFound)
            } else if derefs + 1 > deref_limit() {
                Err(PdfError::ReferenceLimit)
            } else {
                resolve(objects, objects[r], derefs + 1)
            }
        },
        _ => Ok(v),
    }
}

/// The object with id `id`, references followed.
pub open spec fn lookup_object(objects: Map<ObjectId, ObjectValue>, id: ObjectId) -> Result<ObjectValue, PdfError> {
    if objects.contains_key(id) {
        resolve(objects, objects[id], 0)
    } else {
        Err(PdfError::ObjectNotFound)
    }
}

proof fn lemma_objects_map_absent(s: Seq<IndirectObject>, id: ObjectId)
    requires
        forall|j: int| 0 <= j < s.len() ==> (#[trigger] s[j]).id != id,
    ensures
        !objects_map(s).contains_key(id),
    decreases s.len(),
{
    if s.len() > 0 {
        assert forall|j: int| 0 <= j < s.drop_first().len() implies (#[trigger] s.drop_first()[j]).id != id by {
            assert(s.drop_first()[j] == s[j + 1]);
        }
        lemma_objects_map_absent(s.drop_first(), id);
        assert(s[0].id != id);
    }
}

proof fn lemma_objects_map_first(s: Seq<IndirectObject>, id: ObjectId, i: int)
    requires
        0 <= i < s.len(),
        s[i].id == id,
        forall|j: int| 0 <= j < i ==> (#[trigger] s[j]).id != id,
    ensures
        objects_map(s).contains_key(id),
        objects_map(s)[id] == s[i].object.value(),
    decreases i,
{
    if i > 0 {
        assert forall|j: int| 0 <= j < i - 1 implies (#[trigger] s.drop_first()[j]).id != id by {
            assert(s.drop_first()[j] == s[j + 1]);
        }
        assert(s.drop_first()[i - 1] == s[i]);
        lemma_objects_map_first(s.drop_first(), id, i - 1);
        assert(s[0].id != id);
    }
}

proof fn lemma_objects_map_update(s: Seq<IndirectObject>, i: int, e: IndirectObject)
    requires
        0 <= i < s.len(),
        s[i].id == e.id,
        forall|j: int| 0 <= j < i ==> (#[trigger] s[j]).id != e.id,
    ensures
        objects_map(s.update(i, e)) == objects_map(s).insert(e.id, e.object.value()),
    decreases i,
{
    if i == 0 {
        assert(s.update(0, e).drop_first() =~= s.drop_first());
        assert(objects_map(s.update(i, e)) =~= objects_map(s).insert(e.id, e.object.value()));
    } else {
        assert forall|j: int| 0 <= j < i - 1 implies (#[trigger] s.drop_first()[j]).id != e.id by {
            assert(s.drop_first()[j] == s[j + 1]);
        }
        assert(s.update(i, e).drop_first() =~= s.drop_first().update(i - 1, e));
        lemma_objects_map_update(s.drop_first(), i - 1, e);
        assert(s[0].id != e.id);
        assert(objects_map(s.update(i, e)) =~= objects_map(s).insert(e.id, e.object.value()));
    }
}

proof fn lemma_objects_map_push(s: Seq<IndirectObject>, e: IndirectObject)
    requires
        forall|j: int| 0 <= j < s.len() ==> (#[trigger] s[j]).id != e.id,
    ensures
        objects_map(s.push(e)) == objects_map(s).insert(e.id, e.object.value()),
    decreases s.len(),
{
    if s.len() == 0 {
        assert(s.push(e).drop_first() =~= Seq::<IndirectObject>::empty());
        assert(s.push(e)[0] == e);
        assert(objects_map(s.push(e).drop_first()) == objects_map(Seq::<IndirectObject>::empty()));
        assert(objects_map(s) =~= Map::<ObjectId, ObjectValue>::empty());
        assert(objects_map(s.push(e)) =~= objects_map(s).insert(e.id, e.object.value()));
    } else {
        assert forall|j: int| 0 <= j < s.drop_first().len() implies (#[trigger] s.drop_first()[j]).id != e.id by {
            assert(s.drop_first()[j] == s[j + 1]);
        }
        assert(s.push(e).drop_first() =~= s.drop_first().push(e));
        assert(s.push(e)[0] == s[0]);
        lemma_objects_map_push(s.drop_first(), e);
        assert(s[0].id != e.id);
        assert(objects_map(s.push(e)) =~= objects_map(s).insert(e.id, e.object.value()));
    }
}

fn same_id(a: ObjectId, b: ObjectId) -> (eq: bool)
    ensures
        eq == (a == b),
{
    a.0 == b.0 && a.1 == b.1
}

impl PdfDocument {
    /// Position of the entry that counts for `id`.
    pub fn find(&self, id: ObjectId) -> (pos: Option<usize>)
        ensures
            match pos {
                Some(i) => {
                    &&& i < self.objects@.len()
                    &&& self.objects@[i as int].id == id
                    &&& forall|j: int| 0 <= j < i ==> (#[trigger] self.objects@[j]).id != id
                    &&& self.objects_view().contains_key(id)
                    &&& self.objects_view()[id] == self.objects@[i as int].object.value()
                },
                None => !self.objects_view().contains_key(id),
            },
    {
        let n = self.objects.len();
        for i in 0..n
            invariant
                n == self.objects@.len(),
                forall|j: int| 0 <= j < i ==> (#[trigger] self.objects@[j]).id != id,
        {
            if same_id(self.objects[i].id, id) {
                proof {
                    lemma_objects_map_first(self.objects@, id, i as int);
                }
                return Some(i);
            }
        }
        proof {
            lemma_objects_map_absent(self.objects@, id);
        }
        None
    }

    /// The object with id `id`, following references as the reader does: a
    /// missing object is `ObjectNotFound`, a chain of more than 128
    /// references is `ReferenceLimit`.
    pub fn get_object(&self, id: ObjectId) -> (r: Result<&PdfObject, PdfError>)
        ensures
            match lookup_object(self.objects_view(), id) {
                Ok(v) => r matches Ok(o) && o.value() == v,
                Err(e) => r == Err::<&PdfObject, PdfError>(e),
            },
    {
        let ghost objects = self.objects_view();
        let mut pos = match self.find(id) {
            Some(i) => i,
            None => {
                return Err(PdfError::ObjectNotFound);
            },
        };
        let mut derefs: usize = 0;
        loop
            invariant
                objects == self.objects_view(),
                pos < self.objects@.len(),
                derefs <= deref_limit(),
                objects.contains_key(self.objects@[pos as int].id),
                lookup_object(objects, id) == resolve(objects, self.objects@[pos as int].object.value(), derefs as int),
                objects[self.objects@[pos as int].id] == self.objects@[pos as int].object.value(),
            decreases deref_limit() - derefs,
        {
            let object = &self.objects[pos].object;
            match object {
                PdfObject::Reference(r) => {
                    let next = match self.find(*r) {
                        Some(i) => i,
                        None => {
                            return Err(PdfError::ObjectNotFound);
                        },
                    };
                    if derefs + 1 > 128 {
                        return Err(PdfError::ReferenceLimit);
                    }
                    pos = next;
                    derefs = derefs + 1;
                },
                _ => {
                    return Ok(object);
                },
            }
        }
    }

    /// Add `object` under the next free object number and return its id.
    pub fn add_object(&mut self, object: PdfObject) -> (id: ObjectId)
        requires
            old(self).max_id < u32::MAX,
        ensures
            id == ((old(self).max_id + 1) as u32, 0u16),
            final(self).max_id == old(self).max_id + 1,
            final(self).objects_view() == old(self).objects_view().insert(id, object.value()),
            old(self).ids_unique() ==> final(self).ids_unique(),
    {
        self.max_id = self.max_id + 1;
        let id: ObjectId = (self.max_id, 0);
        self.insert_object(id, object);
        id
    }

    /// Store `object` under `id`, replacing the object there if any.
    pub fn insert_object(&mut self, id: ObjectId, object: PdfObject)
        ensures
            final(self).max_id == old(self).max_id,
            final(self).objects_view() == old(self).objects_view().insert(id, object.value()),
            old(self).ids_unique() ==> final(self).ids_unique(),
    {
        let ghost v = object.value();
        match self.find(id) {
            Some(i) => {
                let ghost s = self.objects@;
                self.objects.set(i, IndirectObject { id, object });
                proof {
                    lemma_objects_map_update(s, i as int, IndirectObject { id, object });
                }
            },
            None => {
                let ghost s = self.objects@;
                proof {
                    assert forall|j: int| 0 <= j < s.len() implies (#[trigger] s[j]).id != id by {
                        if s[j].id == id {
                            lemma_objects_map_presence(s, j);
                        }
                    }
                }
                self.objects.push(IndirectObject { id, object });
                proof {
                    lemma_objects_map_push(s, IndirectObject { id, object });
                }
            },
        }
    }

    /// Replace the object under `id` when there is one; `false` when there
    /// is none (nothing changes then).
    pub fn replace_object(&mut self, id: ObjectId, object: PdfObject) -> (replaced: bool)
        ensures
            replaced == old(self).objects_view().contains_key(id),
            final(self).max_id == old(self).max_id,
            replaced ==> final(self).objects_view() == old(self).objects_view().insert(id, object.value()),
            !replaced ==> final(self).objects_view() == old(self).objects_view(),
            old(self).ids_unique() ==> final(self).ids_unique(),
    {
        match self.find(id) {
            Some(i) => {
                let ghost s = self.objects@;
                self.objects.set(i, IndirectObject { id, object });
                proof {
                    lemma_objects_map_update(s, i as int, IndirectObject { id, object });
                }
                true
            },
            None => false,
        }
    }
}

/// Every id of an entry is in the map.
proof fn lemma_objects_map_presence(s: Seq<IndirectObject>, j: int)
    requires
        0 <= j < s.len(),
    ensures
        objects_map(s).contains_key(s[j].id),
    decreases j,
{
    if j > 0 {
        assert(s.drop_first()[j - 1] == s[j]);
        lemma_objects_map_presence(s.drop_first(), j - 1);
    }
}

} // verus!

verus! {

/// Read after write on documents: an object stored under an id is what a
/// lookup of that id returns, unless it is itself a reference (then the
/// lookup follows it).
pub proof fn lemma_lookup_after_insert(objects: Map<ObjectId, ObjectValue>, id: ObjectId, v: ObjectValue)
    requires
        !(v is Reference),
    ensures
        lookup_object(objects.insert(id, v), id) == Ok::<ObjectValue, PdfError>(v),
{
}

} // verus!
