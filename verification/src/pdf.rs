//! The page tree: where a page finds its MediaBox and the other entries it
//! inherits from its ancestors.

use vstd::prelude::*;
use crate::document::{lookup_object, PdfDocument, PdfError};
use crate::walk::{
    is_walk, lemma_path_bound, lemma_walk_extends, lemma_walk_revisits, lemma_walk_stops, path_node,
    lemma_walk_unique, visited_position, walk, walk_ends, walk_result, Step,
};
use crate::names::{media_box_name, name_media_box, name_parent, parent_name};
use crate::object::{
    clone_object, dict_lookup, lemma_array_value, lemma_dictionary_value, values_of, ObjectId, ObjectValue, PdfDictionary,
    PdfObject,
};

verus! {

/// A number of a MediaBox array.
#[derive(Clone, Copy, PartialEq, Eq, Structural, Debug)]
pub enum PdfNumber {
    Integer(i64),
    /// Bits of an `f32` value.
    Real(u32),
}

/// Why a page's MediaBox could not be read.
#[derive(Clone, Copy, Debug)]
pub enum DimensionError {
    /// The object could not be looked up.
    Lookup(ObjectId, PdfError),
    /// The object is not a dictionary.
    NotADictionary(ObjectId),
    /// The MediaBox entry is not an array.
    MediaBoxNotArray,
    /// The MediaBox array has fewer than four elements (it has this many).
    MediaBoxTooShort(usize),
    /// A MediaBox element is not a number.
    NotNumeric,
    /// A node has neither a MediaBox nor a Parent.
    NoParent,
    /// The Parent entry is not a reference.
    ParentNotReference,
}

/// The number a MediaBox element stands for.
pub open spec fn number_of(v: ObjectValue) -> Option<PdfNumber> {
    match v {
        ObjectValue::Integer(n) => Some(PdfNumber::Integer(n)),
        ObjectValue::Real(r) => Some(PdfNumber::Real(r)),
        _ => None,
    }
}

/// What the node `id` says about the MediaBox: the node's own MediaBox if
/// it has one (all its elements, which must be numbers, at least four), else
/// its Parent, which the walk visits next.
pub open spec fn media_box_step(objects: Map<ObjectId, ObjectValue>, id: ObjectId) -> Step<Result<Seq<PdfNumber>, DimensionError>> {
    match lookup_object(objects, id) {
        Err(e) => Step::Done(Err(DimensionError::Lookup(id, e))),
        Ok(ObjectValue::Dictionary(entries)) => match dict_lookup(entries, name_media_box()) {
            Some(ObjectValue::Array(items)) => {
                if items.len() < 4 {
                    Step::Done(Err(DimensionError::MediaBoxTooShort(items.len() as usize)))
                } else if forall|i: int| 0 <= i < items.len() ==> number_of(#[trigger] items[i]) is Some {
                    Step::Done(Ok(Seq::new(items.len(), |i: int| number_of(items[i])->0)))
                } else {
                    Step::Done(Err(DimensionError::NotNumeric))
                }
            },
            Some(_) => Step::Done(Err(DimensionError::MediaBoxNotArray)),
            None => match dict_lookup(entries, name_parent()) {
                None => Step::Done(Err(DimensionError::NoParent)),
                Some(ObjectValue::Reference(p)) => Step::Next(p),
                Some(_) => Step::Done(Err(DimensionError::ParentNotReference)),
            },
        },
        Ok(_) => Step::Done(Err(DimensionError::NotADictionary(id))),
    }
}

/// The steps of the MediaBox walk over `objects`.
pub open spec fn media_box_steps(objects: Map<ObjectId, ObjectValue>) -> spec_fn(ObjectId) -> Step<Result<Seq<PdfNumber>, DimensionError>> {
    |id: ObjectId| media_box_step(objects, id)
}

/// The MediaBox of page `id`: the outcome of the walk up the page tree
/// (meaningful where that walk ends).
pub open spec fn page_media_box_spec(objects: Map<ObjectId, ObjectValue>, id: ObjectId) -> Result<Seq<PdfNumber>, DimensionError> {
    walk_result(media_box_steps(objects), id)->0
}

/// Outcome of one walk step, computed.
enum StepOutcome {
    Done(Result<Vec<PdfNumber>, DimensionError>),
    Next(ObjectId),
}

fn media_box_numbers(items: &Vec<PdfObject>) -> (r: Result<Vec<PdfNumber>, DimensionError>)
    requires
        items@.len() >= 4,
    ensures
        ({
            let vs = values_of(items@);
            if forall|i: int| 0 <= i < vs.len() ==> number_of(#[trigger] vs[i]) is Some {
                r matches Ok(ns) && ns@ == Seq::new(vs.len(), |i: int| number_of(vs[i])->0)
            } else {
                r == Err::<Vec<PdfNumber>, DimensionError>(DimensionError::NotNumeric)
            }
        }),
{
    let ghost vs = values_of(items@);
    let mut ns: Vec<PdfNumber> = Vec::with_capacity(items.len());
    for i in 0..items.len()
        invariant
            vs == values_of(items@),
            ns@.len() == i,
            forall|j: int| 0 <= j < i ==> number_of(#[trigger] vs[j]) == Some(ns@[j]),
    {
        let n = match &items[i] {
            PdfObject::Integer(n) => PdfNumber::Integer(*n),
            PdfObject::Real(r) => PdfNumber::Real(*r),
            _ => {
                assert(number_of(vs[i as int]) is None);
                return Err(DimensionError::NotNumeric);
            },
        };
        ns.push(n);
    }
    assert(ns@ =~= Seq::new(vs.len(), |i: int| number_of(vs[i])->0));
    Ok(ns)
}

fn media_box_step_exec(doc: &PdfDocument, id: ObjectId) -> (r: StepOutcome)
    ensures
        match media_box_step(doc.objects_view(), id) {
            Step::Done(Ok(ns)) => r matches StepOutcome::Done(Ok(v)) && v@ == ns,
            Step::Done(Err(e)) => r matches StepOutcome::Done(Err(x)) && x == e,
            Step::Next(p) => r matches StepOutcome::Next(q) && q == p,
        },
{
    let object = match doc.get_object(id) {
        Ok(o) => o,
        Err(e) => {
            return StepOutcome::Done(Err(DimensionError::Lookup(id, e)));
        },
    };
    let dict = match object {
        PdfObject::Dictionary(d) => d,
        _ => {
            return StepOutcome::Done(Err(DimensionError::NotADictionary(id)));
        },
    };
    proof {
        lemma_dictionary_value(*dict);
    }
    let mb_key = media_box_name();
    match dict.get(mb_key.as_slice()) {
        Some(mb) => {
            match mb {
                PdfObject::Array(items) => {
                    proof {
                        lemma_array_value(*items);
                    }
                    if items.len() < 4 {
                        StepOutcome::Done(Err(DimensionError::MediaBoxTooShort(items.len())))
                    } else {
                        StepOutcome::Done(media_box_numbers(items))
                    }
                },
                _ => StepOutcome::Done(Err(DimensionError::MediaBoxNotArray)),
            }
        },
        None => {
            let parent_key = parent_name();
            match dict.get(parent_key.as_slice()) {
                None => StepOutcome::Done(Err(DimensionError::NoParent)),
                Some(PdfObject::Reference(p)) => StepOutcome::Next(*p),
                Some(_) => StepOutcome::Done(Err(DimensionError::ParentNotReference)),
            }
        },
    }
}

/// A node that has its own MediaBox array of at least four numbers ends the
/// walk with those numbers, in order, whatever its Parent entry says.
pub proof fn lemma_own_media_box_wins(
    objects: Map<ObjectId, ObjectValue>,
    id: ObjectId,
    entries: Seq<(Seq<u8>, ObjectValue)>,
    items: Seq<ObjectValue>,
)
    requires
        lookup_object(objects, id) == Ok::<ObjectValue, PdfError>(ObjectValue::Dictionary(entries)),
        dict_lookup(entries, name_media_box()) == Some(ObjectValue::Array(items)),
        items.len() >= 4,
        forall|i: int| 0 <= i < items.len() ==> (#[trigger] items[i] is Integer || items[i] is Real),
    ensures
        walk_ends(media_box_steps(objects), id),
        page_media_box_spec(objects, id) matches Ok(ns) && ns.len() == items.len() && forall|i: int|
            0 <= i < items.len() ==> match #[trigger] items[i] {
                ObjectValue::Integer(n) => ns[i] == PdfNumber::Integer(n),
                ObjectValue::Real(r) => ns[i] == PdfNumber::Real(r),
                _ => false,
            },
{
    let steps = media_box_steps(objects);
    assert forall|i: int| 0 <= i < items.len() implies number_of(#[trigger] items[i]) is Some by {
        assert(items[i] is Integer || items[i] is Real);
    }
    assert(steps(id) == media_box_step(objects, id));
    let r = media_box_step(objects, id)->Done_0;
    lemma_walk_stops(steps, Seq::empty(), id, r);
    assert(walk(steps, id, 1) is Some);
}

/// A node without a MediaBox whose Parent is a reference hands the walk on
/// to its Parent: it ends where the Parent's walk ends, with the same
/// outcome. A node with neither gives `NoParent`.
pub proof fn lemma_walk_goes_to_parent(objects: Map<ObjectId, ObjectValue>, id: ObjectId, entries: Seq<(Seq<u8>, ObjectValue)>)
    requires
        lookup_object(objects, id) == Ok::<ObjectValue, PdfError>(ObjectValue::Dictionary(entries)),
        dict_lookup(entries, name_media_box()) is None,
    ensures
        dict_lookup(entries, name_parent()) matches Some(ObjectValue::Reference(p)) ==> {
            &&& walk_ends(media_box_steps(objects), id) == walk_ends(media_box_steps(objects), p)
            &&& walk_ends(media_box_steps(objects), p) ==> page_media_box_spec(objects, id) == page_media_box_spec(
                objects,
                p,
            )
        },
        dict_lookup(entries, name_parent()) is None ==> page_media_box_spec(objects, id) == Err::<
            Seq<PdfNumber>,
            DimensionError,
        >(DimensionError::NoParent),
{
    let steps = media_box_steps(objects);
    assert(steps(id) == media_box_step(objects, id));
    match dict_lookup(entries, name_parent()) {
        Some(ObjectValue::Reference(p)) => {
            assert(steps(id) == Step::<Result<Seq<PdfNumber>, DimensionError>>::Next(p));
            if walk_ends(steps, p) {
                let f = choose|f: nat| #[trigger] walk(steps, p, f) is Some;
                assert(walk(steps, id, f + 1) == walk(steps, p, f));
                let g = choose|g: nat| #[trigger] walk(steps, id, g) is Some;
                lemma_walk_unique(steps, id, g, f + 1);
            }
            if walk_ends(steps, id) {
                let g = choose|g: nat| #[trigger] walk(steps, id, g) is Some;
                assert(g > 0);
                assert(walk(steps, id, g) == walk(steps, p, (g - 1) as nat));
            }
        },
        None => {
            lemma_walk_stops(steps, Seq::empty(), id, Err(DimensionError::NoParent));
        },
        _ => {},
    }
}

/// Whether the walk for the MediaBox of page `page_id` up its Parent chain
/// ends: `false` exactly when the chain runs in a circle before it reaches
/// a node with a MediaBox or one that ends the walk otherwise.
pub fn media_box_walk_ends(doc: &PdfDocument, page_id: ObjectId) -> (ends: bool)
    ensures
        ends == walk_ends(media_box_steps(doc.objects_view()), page_id),
{
    let ghost objects = doc.objects_view();
    let ghost steps = media_box_steps(objects);
    let mut visited: Vec<ObjectId> = Vec::new();
    let mut current = page_id;
    loop
        invariant
            objects == doc.objects_view(),
            steps == media_box_steps(objects),
            visited@.no_duplicates(),
            forall|k: int| 0 <= k < visited@.len() ==> objects.contains_key(#[trigger] visited@[k]),
            is_walk(steps, visited@, current),
            path_node(visited@, current, 0) == page_id,
            visited@.len() <= doc.objects@.len(),
        decreases doc.objects@.len() - visited@.len(),
    {
        if let Some(j) = visited_position(&visited, current) {
            proof {
                lemma_walk_revisits(steps, visited@, current, j as int);
            }
            return false;
        }
        match media_box_step_exec(doc, current) {
            StepOutcome::Done(_) => {
                proof {
                    assert(steps(current) == media_box_step(objects, current));
                    lemma_walk_stops(steps, visited@, current, media_box_step(objects, current)->Done_0);
                }
                return true;
            },
            StepOutcome::Next(p) => {
                proof {
                    assert(steps(current) == media_box_step(objects, current));
                    assert(objects.contains_key(current)) by {
                        if !objects.contains_key(current) {
                            assert(lookup_object(objects, current) is Err);
                        }
                    }
                    lemma_path_bound(doc.objects@, visited@.push(current));
                    lemma_walk_extends(steps, visited@, current, p);
                }
                visited.push(current);
                current = p;
            },
        }
    }
}

/// The MediaBox of page `page_id`: walk from the page up its Parent chain
/// to the first node that has a MediaBox, and return all its numbers (the
/// page is `values[2] - values[0]` wide and `values[3] - values[1]` high).
/// The walk must end: on a Parent chain that runs in a circle it would go
/// round for ever (`media_box_walk_ends` tells beforehand).
pub fn page_media_box(doc: &PdfDocument, page_id: ObjectId) -> (r: Result<Vec<PdfNumber>, DimensionError>)
    requires
        walk_ends(media_box_steps(doc.objects_view()), page_id),
    ensures
        match page_media_box_spec(doc.objects_view(), page_id) {
            Ok(ns) => r matches Ok(v) && v@ == ns,
            Err(e) => r == Err::<Vec<PdfNumber>, DimensionError>(e),
        },
{
    let ghost objects = doc.objects_view();
    let ghost steps = media_box_steps(objects);
    let ghost fuel: nat = choose|f: nat| #[trigger] walk(steps, page_id, f) is Some;
    let ghost outcome = walk_result(steps, page_id);
    let mut current = page_id;
    proof {
        assert(walk(steps, page_id, fuel) is Some);
    }
    loop
        invariant
            objects == doc.objects_view(),
            steps == media_box_steps(objects),
            walk(steps, current, fuel) is Some,
            walk(steps, current, fuel) == outcome,
            outcome == walk_result(steps, page_id),
        decreases fuel,
    {
        proof {
            assert(steps(current) == media_box_step(objects, current));
        }
        match media_box_step_exec(doc, current) {
            StepOutcome::Done(r) => {
                proof {
                    assert(fuel > 0);
                    assert(walk(steps, current, fuel) == Some(media_box_step(objects, current)->Done_0));
                    assert(outcome == Some(media_box_step(objects, current)->Done_0));
                }
                return r;
            },
            StepOutcome::Next(p) => {
                proof {
                    assert(fuel > 0);
                    assert(walk(steps, current, fuel) == walk(steps, p, (fuel - 1) as nat));
                    fuel = (fuel - 1) as nat;
                }
                current = p;
            },
        }
    }
}

} // verus!

verus! {

/// What node `id` says about an entry `key` that pages inherit: the node's
/// own entry if it has one, else its Parent, which the walk visits next;
/// a node that is no dictionary or has neither gives nothing.
pub open spec fn inherit_step(objects: Map<ObjectId, ObjectValue>, key: Seq<u8>, id: ObjectId) -> Step<Option<ObjectValue>> {
    match lookup_object(objects, id) {
        Ok(ObjectValue::Dictionary(entries)) => match dict_lookup(entries, key) {
            Some(v) => Step::Done(Some(v)),
            None => match dict_lookup(entries, name_parent()) {
                Some(ObjectValue::Reference(p)) => Step::Next(p),
                _ => Step::Done(None),
            },
        },
        _ => Step::Done(None),
    }
}

/// The steps of the walk for an inherited entry `key` over `objects`.
pub open spec fn inherit_steps(objects: Map<ObjectId, ObjectValue>, key: Seq<u8>) -> spec_fn(ObjectId) -> Step<Option<ObjectValue>> {
    |id: ObjectId| inherit_step(objects, key, id)
}

/// The value of `key` that a node with entries `node` inherits: the entry
/// of its nearest ancestor (along Parent references) that has one; nothing
/// when no ancestor has one or the chain runs in a circle.
pub open spec fn inherited_value(objects: Map<ObjectId, ObjectValue>, node: Seq<(Seq<u8>, ObjectValue)>, key: Seq<u8>) -> Option<ObjectValue> {
    match dict_lookup(node, name_parent()) {
        Some(ObjectValue::Reference(p)) => match walk_result(inherit_steps(objects, key), p) {
            Some(r) => r,
            None => None,
        },
        _ => None,
    }
}

enum InheritOutcome {
    Found(PdfObject),
    Missing,
    Next(ObjectId),
}

fn inherit_step_exec(doc: &PdfDocument, key: &[u8], id: ObjectId) -> (r: InheritOutcome)
    ensures
        match inherit_step(doc.objects_view(), key@, id) {
            Step::Done(Some(v)) => r matches InheritOutcome::Found(o) && o.value() == v,
            Step::Done(None) => r is Missing,
            Step::Next(p) => r matches InheritOutcome::Next(q) && q == p,
        },
{
    let object = match doc.get_object(id) {
        Ok(o) => o,
        Err(_) => {
            return InheritOutcome::Missing;
        },
    };
    let dict = match object {
        PdfObject::Dictionary(d) => d,
        _ => {
            return InheritOutcome::Missing;
        },
    };
    proof {
        lemma_dictionary_value(*dict);
    }
    match dict.get(key) {
        Some(v) => InheritOutcome::Found(clone_object(v)),
        None => {
            let parent_key = parent_name();
            match dict.get(parent_key.as_slice()) {
                Some(PdfObject::Reference(p)) => InheritOutcome::Next(*p),
                _ => InheritOutcome::Missing,
            }
        },
    }
}

/// A copy of the value of `key` that the node `node` inherits from its
/// ancestors along Parent references.
pub fn inherited_entry(doc: &PdfDocument, node: &PdfDictionary, key: &[u8]) -> (r: Option<PdfObject>)
    ensures
        match inherited_value(doc.objects_view(), node@, key@) {
            Some(v) => r matches Some(o) && o.value() == v,
            None => r is None,
        },
{
    let ghost objects = doc.objects_view();
    let ghost steps = inherit_steps(objects, key@);
    let parent_key = parent_name();
    let start = match node.get(parent_key.as_slice()) {
        Some(PdfObject::Reference(p)) => *p,
        _ => {
            return None;
        },
    };
    let mut visited: Vec<ObjectId> = Vec::new();
    let mut current = start;
    loop
        invariant
            objects == doc.objects_view(),
            steps == inherit_steps(objects, key@),
            dict_lookup(node@, name_parent()) == Some(ObjectValue::Reference(start)),
            visited@.no_duplicates(),
            forall|k: int| 0 <= k < visited@.len() ==> objects.contains_key(#[trigger] visited@[k]),
            is_walk(steps, visited@, current),
            path_node(visited@, current, 0) == start,
            visited@.len() <= doc.objects@.len(),
        decreases doc.objects@.len() - visited@.len(),
    {
        if let Some(j) = visited_position(&visited, current) {
            proof {
                lemma_walk_revisits(steps, visited@, current, j as int);
            }
            return None;
        }
        match inherit_step_exec(doc, key, current) {
            InheritOutcome::Found(o) => {
                proof {
                    assert(steps(current) == inherit_step(objects, key@, current));
                    lemma_walk_stops(steps, visited@, current, Some(o.value()));
                }
                return Some(o);
            },
            InheritOutcome::Missing => {
                proof {
                    assert(steps(current) == inherit_step(objects, key@, current));
                    lemma_walk_stops(steps, visited@, current, None);
                }
                return None;
            },
            InheritOutcome::Next(p) => {
                proof {
                    assert(steps(current) == inherit_step(objects, key@, current));
                    assert(objects.contains_key(current)) by {
                        if !objects.contains_key(current) {
                            assert(lookup_object(objects, current) is Err);
                        }
                    }
                    lemma_path_bound(doc.objects@, visited@.push(current));
                    lemma_walk_extends(steps, visited@, current, p);
                }
                visited.push(current);
                current = p;
            },
        }
    }
}

} // verus!
