//! Attaching an invisible text layer to a page: a new content stream
//! appended to the page's `/Contents`, and the Helvetica font registered as
//! `/OCR_F1` in the page's `/Resources/Font`.

use vstd::prelude::*;
use crate::document::{lookup_object, PdfDocument, PdfError};
use crate::pdf::{inherited_entry, inherited_value};
use crate::names::{
    base_font_name, contents_name, encoding_name, font_name, helvetica_name, length_name, name_base_font,
    name_contents, name_encoding, name_font, name_helvetica, name_length, name_ocr_f1, name_parent, name_resources,
    name_subtype, name_type1, name_type_key, name_win_ansi_encoding, ocr_f1_name, resources_name,
    subtype_name, type1_name, type_key_name, win_ansi_encoding_name,
};
use crate::object::{
    clone_dictionary, clone_object, dict_lookup, dict_set, dict_without, lemma_array_value, lemma_dict_set_read, lemma_dictionary_value,
    lemma_stream_value, values_of, ObjectId, ObjectValue, PdfDictionary, PdfObject, PdfStream,
};

verus! {

/// Why the overlay could not be attached.
#[derive(Clone, Copy, Debug)]
pub enum OverlayError {
    /// The page object could not be looked up.
    PageLookup(PdfError),
    /// The page object is not a dictionary.
    PageNotDictionary,
    /// The page's indirect Resources object could not be looked up.
    ResourcesLookup(PdfError),
    /// The page's indirect Resources object is not a dictionary.
    ResourcesNotDictionary,
    /// The page id has no entry among the document's objects.
    PageMissing,
}

/// Entries of a dictionary value.
pub type Entries = Seq<(Seq<u8>, ObjectValue)>;

/// Value of a new stream with `content`: its dictionary holds `/Length`.
pub open spec fn new_stream_value(content: Seq<u8>) -> ObjectValue {
    ObjectValue::Stream(
        seq![(name_length(), ObjectValue::Integer(content.len() as i64))],
        content,
        true,
        None,
    )
}

/// `/Contents` of a page after the stream `stream_id` is appended: a single
/// reference becomes a two-element array, an array gets the reference at
/// its end, and anything else is replaced by the reference.
pub open spec fn contents_with(page: Entries, stream_id: ObjectId) -> ObjectValue {
    match dict_lookup(page, name_contents()) {
        Some(ObjectValue::Reference(id)) => ObjectValue::Array(
            seq![ObjectValue::Reference(id), ObjectValue::Reference(stream_id)],
        ),
        Some(ObjectValue::Array(items)) => ObjectValue::Array(items.push(ObjectValue::Reference(stream_id))),
        _ => ObjectValue::Reference(stream_id),
    }
}

/// The entries of a dictionary value, or of the dictionary that a reference
/// value names; none for anything else.
pub open spec fn dictionary_entries(objects: Map<ObjectId, ObjectValue>, v: Option<ObjectValue>) -> Entries {
    match v {
        Some(ObjectValue::Dictionary(d)) => d,
        Some(ObjectValue::Reference(r)) => match lookup_object(objects, r) {
            Ok(ObjectValue::Dictionary(d)) => d,
            _ => Seq::empty(),
        },
        _ => Seq::empty(),
    }
}

/// The font dictionary in effect in `resources`: the `/Font` dictionary,
/// inline or referred to.
pub open spec fn fonts_in_effect(objects: Map<ObjectId, ObjectValue>, resources: Entries) -> Entries {
    dictionary_entries(objects, dict_lookup(resources, name_font()))
}

/// `resources` with an inline `/Font` dictionary that holds the fonts in
/// effect before and `/OCR_F1` referring to `font_id`.
pub open spec fn resources_with_font(objects: Map<ObjectId, ObjectValue>, resources: Entries, font_id: ObjectId) -> Entries {
    dict_set(
        resources,
        name_font(),
        ObjectValue::Dictionary(
            dict_set(fonts_in_effect(objects, resources), name_ocr_f1(), ObjectValue::Reference(font_id)),
        ),
    )
}

/// The resources in effect for a page with entries `page` whose
/// `/Resources` entry is not a reference: its own dictionary, or, when it
/// has no entry, the resources it inherits from its ancestors; none when the
/// entry is something else.
pub open spec fn own_or_inherited_resources(objects: Map<ObjectId, ObjectValue>, page: Entries) -> Entries {
    match dict_lookup(page, name_resources()) {
        Some(ObjectValue::Dictionary(d)) => d,
        None => dictionary_entries(objects, inherited_value(objects, page, name_resources())),
        _ => Seq::empty(),
    }
}

/// Objects after the page dictionary `page` is written back under `page_id`.
pub open spec fn store_page(objects: Map<ObjectId, ObjectValue>, page_id: ObjectId, page: Entries) -> (Map<ObjectId, ObjectValue>, Result<(), OverlayError>) {
    if objects.contains_key(page_id) {
        (objects.insert(page_id, ObjectValue::Dictionary(page)), Ok(()))
    } else {
        (objects, Err(OverlayError::PageMissing))
    }
}

/// Objects and result after the overlay stream with `content` is attached
/// to page `page_id` of a document whose largest object number is `max_id`.
pub open spec fn overlay_spec(
    objects: Map<ObjectId, ObjectValue>,
    max_id: u32,
    page_id: ObjectId,
    font_id: ObjectId,
    content: Seq<u8>,
) -> (Map<ObjectId, ObjectValue>, Result<(), OverlayError>) {
    let stream_id: ObjectId = ((max_id + 1) as u32, 0u16);
    let objs = objects.insert(stream_id, new_stream_value(content));
    match lookup_object(objs, page_id) {
        Err(e) => (objs, Err(OverlayError::PageLookup(e))),
        Ok(ObjectValue::Dictionary(page)) => {
            let page1 = dict_set(page, name_contents(), contents_with(page, stream_id));
            match dict_lookup(page1, name_resources()) {
                Some(ObjectValue::Reference(rid)) => match lookup_object(objs, rid) {
                    Err(e) => (objs, Err(OverlayError::ResourcesLookup(e))),
                    Ok(ObjectValue::Dictionary(res)) => {
                        let objs2 = if objs.contains_key(rid) {
                            objs.insert(rid, ObjectValue::Dictionary(resources_with_font(objs, res, font_id)))
                        } else {
                            objs
                        };
                        store_page(objs2, page_id, page1)
                    },
                    Ok(_) => (objs, Err(OverlayError::ResourcesNotDictionary)),
                },
                _ => {
                    let res = own_or_inherited_resources(objs, page1);
                    store_page(
                        objs,
                        page_id,
                        dict_set(page1, name_resources(), ObjectValue::Dictionary(resources_with_font(objs, res, font_id))),
                    )
                },
            }
        },
        Ok(_) => (objs, Err(OverlayError::PageNotDictionary)),
    }
}

/// A stream with `content` and `dict`, its `/Length` set to the content
/// length.
pub fn new_stream(dict: PdfDictionary, content: Vec<u8>) -> (s: PdfStream)
    ensures
        s.dict@ == dict_set(dict@, name_length(), ObjectValue::Integer(content@.len() as i64)),
        s.content@ == content@,
        s.allows_compression,
        s.start_position is None,
{
    let mut dict = dict;
    let len = content.len() as i64;
    dict.set(length_name(), PdfObject::Integer(len));
    PdfStream { dict, content, allows_compression: true, start_position: None }
}

/// A copy of the dictionary `v` is, or of the dictionary it refers to in
/// `doc`; an empty dictionary for anything else.
fn dictionary_entries_of(doc: &PdfDocument, v: Option<&PdfObject>) -> (d: PdfDictionary)
    ensures
        d@ == dictionary_entries(
            doc.objects_view(),
            match v {
                Some(o) => Some(o.value()),
                None => None,
            },
        ),
{
    match v {
        Some(PdfObject::Dictionary(d)) => {
            proof {
                lemma_dictionary_value(*d);
            }
            clone_dictionary(d)
        },
        Some(PdfObject::Reference(r)) => match doc.get_object(*r) {
            Ok(PdfObject::Dictionary(d)) => {
                proof {
                    lemma_dictionary_value(*d);
                }
                clone_dictionary(d)
            },
            _ => PdfDictionary::new(),
        },
        _ => PdfDictionary::new(),
    }
}

/// Register the font `font_id` as `/OCR_F1` in `resources`: its `/Font`
/// entry becomes an inline dictionary holding the fonts in effect before
/// (inline or referred to in `doc`) and `/OCR_F1`.
pub fn inject_font(doc: &PdfDocument, resources: &mut PdfDictionary, font_id: ObjectId)
    ensures
        final(resources)@ == resources_with_font(doc.objects_view(), old(resources)@, font_id),
{
    let font_key = font_name();
    let mut fonts = dictionary_entries_of(doc, resources.get(font_key.as_slice()));
    fonts.set(ocr_f1_name(), PdfObject::Reference(font_id));
    let entry = PdfObject::Dictionary(fonts);
    proof {
        lemma_dictionary_value(fonts);
    }
    resources.set(font_key, entry);
}

/// Append an invisible text overlay stream with `content` to page
/// `page_id` and register the font `font_id` in the resources in effect for
/// the page: the object its `/Resources` refers to, its own dictionary, or,
/// when it has none, a copy of the resources it inherits, which becomes its
/// own. The stream object is added even when a later step fails.
pub fn add_text_overlay(doc: &mut PdfDocument, page_id: ObjectId, font_id: ObjectId, content: Vec<u8>) -> (r: Result<(), OverlayError>)
    requires
        old(doc).max_id < u32::MAX,
    ensures
        final(doc).max_id == old(doc).max_id + 1,
        (final(doc).objects_view(), r) == overlay_spec(old(doc).objects_view(), old(doc).max_id, page_id, font_id, content@),
        old(doc).ids_unique() ==> final(doc).ids_unique(),
{
    let ghost content_view = content@;
    let stream = new_stream(PdfDictionary::new(), content);
    let ghost sv = PdfObject::Stream(stream).value();
    proof {
        lemma_stream_value(stream);
        assert(stream.dict@ =~= seq![(name_length(), ObjectValue::Integer(content_view.len() as i64))]);
        assert(sv == new_stream_value(content_view));
    }
    let stream_id = doc.add_object(PdfObject::Stream(stream));
    let page = match doc.get_object(page_id) {
        Ok(o) => o,
        Err(e) => {
            return Err(OverlayError::PageLookup(e));
        },
    };
    let mut page_dict = match page {
        PdfObject::Dictionary(d) => {
            proof {
                lemma_dictionary_value(*d);
            }
            clone_dictionary(d)
        },
        _ => {
            return Err(OverlayError::PageNotDictionary);
        },
    };
    let ghost page0 = page_dict@;
    let contents_key = contents_name();
    let new_contents = match page_dict.get(contents_key.as_slice()) {
        Some(PdfObject::Reference(id)) => {
            let items: Vec<PdfObject> = vec![PdfObject::Reference(*id), PdfObject::Reference(stream_id)];
            proof {
                lemma_array_value(items);
                assert(values_of(items@) =~= seq![ObjectValue::Reference(*id), ObjectValue::Reference(stream_id)]);
            }
            PdfObject::Array(items)
        },
        Some(PdfObject::Array(arr)) => {
            let mut items: Vec<PdfObject> = Vec::new();
            for i in 0..arr.len()
                invariant
                    items@.len() == i,
                    forall|j: int| 0 <= j < i ==> #[trigger] items@[j].value() == arr@[j].value(),
            {
                items.push(clone_object(&arr[i]));
            }
            items.push(PdfObject::Reference(stream_id));
            proof {
                lemma_array_value(*arr);
                lemma_array_value(items);
                assert(values_of(items@) =~= values_of(arr@).push(ObjectValue::Reference(stream_id)));
            }
            PdfObject::Array(items)
        },
        _ => PdfObject::Reference(stream_id),
    };
    assert(new_contents.value() == contents_with(page0, stream_id));
    page_dict.set(contents_key, new_contents);
    let ghost page1 = page_dict@;
    let resources_key = resources_name();
    let res_id = match page_dict.get(resources_key.as_slice()) {
        Some(PdfObject::Reference(id)) => Some(*id),
        _ => None,
    };
    match res_id {
        Some(id) => {
            let res_object = match doc.get_object(id) {
                Ok(o) => o,
                Err(e) => {
                    return Err(OverlayError::ResourcesLookup(e));
                },
            };
            let mut res_dict = match res_object {
                PdfObject::Dictionary(d) => {
                    proof {
                        lemma_dictionary_value(*d);
                    }
                    clone_dictionary(d)
                },
                _ => {
                    return Err(OverlayError::ResourcesNotDictionary);
                },
            };
            inject_font(doc, &mut res_dict, font_id);
            let res_entry = PdfObject::Dictionary(res_dict);
            proof {
                lemma_dictionary_value(res_dict);
            }
            doc.replace_object(id, res_entry);
        },
        None => {
            let mut res_dict = match page_dict.get(resources_key.as_slice()) {
                Some(PdfObject::Dictionary(d)) => {
                    proof {
                        lemma_dictionary_value(*d);
                    }
                    clone_dictionary(d)
                },
                Some(_) => PdfDictionary::new(),
                None => {
                    let inherited = inherited_entry(doc, &page_dict, resources_key.as_slice());
                    match &inherited {
                        Some(o) => dictionary_entries_of(doc, Some(o)),
                        None => dictionary_entries_of(doc, None),
                    }
                },
            };
            inject_font(doc, &mut res_dict, font_id);
            let res_entry = PdfObject::Dictionary(res_dict);
            proof {
                lemma_dictionary_value(res_dict);
            }
            page_dict.set(resources_key, res_entry);
        },
    }
    let page_entry = PdfObject::Dictionary(page_dict);
    proof {
        lemma_dictionary_value(page_dict);
    }
    if doc.replace_object(page_id, page_entry) {
        Ok(())
    } else {
        Err(OverlayError::PageMissing)
    }
}

/// The font dictionary of the overlay font: Type1 Helvetica with
/// WinAnsiEncoding.
pub open spec fn helvetica_font_value() -> ObjectValue {
    ObjectValue::Dictionary(
        seq![
            (name_type_key(), ObjectValue::Name(name_font())),
            (name_subtype(), ObjectValue::Name(name_type1())),
            (name_base_font(), ObjectValue::Name(name_helvetica())),
            (name_encoding(), ObjectValue::Name(name_win_ansi_encoding())),
        ],
    )
}

/// Add the Helvetica font object shared by all overlays and return its id.
pub fn add_helvetica_font(doc: &mut PdfDocument) -> (id: ObjectId)
    requires
        old(doc).max_id < u32::MAX,
    ensures
        id == ((old(doc).max_id + 1) as u32, 0u16),
        final(doc).max_id == old(doc).max_id + 1,
        final(doc).objects_view() == old(doc).objects_view().insert(id, helvetica_font_value()),
        old(doc).ids_unique() ==> final(doc).ids_unique(),
{
    let mut d = PdfDictionary::new();
    let t = PdfObject::Name(font_name());
    let ghost tv = t.value();
    d.set(type_key_name(), t);
    let ghost d1 = d@;
    assert(d1 =~= seq![(name_type_key(), tv)]);
    let st = PdfObject::Name(type1_name());
    let ghost stv = st.value();
    d.set(subtype_name(), st);
    proof {
        assert(name_type_key() != name_subtype()) by {
            assert(name_type_key().len() != name_subtype().len());
        }
        assert(d1.drop_last() =~= Seq::<(Seq<u8>, ObjectValue)>::empty());
        assert(dict_without(d1.drop_last(), name_subtype()) =~= Seq::<(Seq<u8>, ObjectValue)>::empty());
        assert(d1.last().0 == name_type_key());
        assert(dict_without(d1, name_subtype()) =~= d1);
    }
    let ghost d2 = d@;
    assert(d2 =~= seq![(name_type_key(), tv), (name_subtype(), stv)]);
    let bf = PdfObject::Name(helvetica_name());
    let ghost bfv = bf.value();
    d.set(base_font_name(), bf);
    proof {
        assert(name_base_font() != name_subtype()) by {
            assert(name_base_font().len() != name_subtype().len());
        }
        assert(name_base_font() != name_type_key()) by {
            assert(name_base_font().len() != name_type_key().len());
        }
        assert(d2.drop_last() =~= d1);
        assert(d1.drop_last() =~= Seq::<(Seq<u8>, ObjectValue)>::empty());
        assert(dict_without(d1.drop_last(), name_base_font()) =~= Seq::<(Seq<u8>, ObjectValue)>::empty());
        assert(d1.last().0 == name_type_key());
        assert(dict_without(d1, name_base_font()) =~= d1);
        assert(d2.last().0 == name_subtype());
        assert(dict_without(d2, name_base_font()) =~= d2);
    }
    let ghost d3 = d@;
    assert(d3 =~= seq![(name_type_key(), tv), (name_subtype(), stv), (name_base_font(), bfv)]);
    let enc = PdfObject::Name(win_ansi_encoding_name());
    let ghost encv = enc.value();
    d.set(encoding_name(), enc);
    proof {
        assert(name_encoding() != name_base_font()) by {
            assert(name_encoding()[0] != name_base_font()[0]);
        }
        assert(name_encoding() != name_subtype()) by {
            assert(name_encoding().len() != name_subtype().len());
        }
        assert(name_encoding() != name_type_key()) by {
            assert(name_encoding().len() != name_type_key().len());
        }
        assert(d3.drop_last() =~= d2);
        assert(d2.drop_last() =~= d1);
        assert(d1.drop_last() =~= Seq::<(Seq<u8>, ObjectValue)>::empty());
        assert(dict_without(d1.drop_last(), name_encoding()) =~= Seq::<(Seq<u8>, ObjectValue)>::empty());
        assert(d1.last().0 == name_type_key());
        assert(dict_without(d1, name_encoding()) =~= d1);
        assert(d2.last().0 == name_subtype());
        assert(dict_without(d2, name_encoding()) =~= d2);
        assert(d3.last().0 == name_base_font());
        assert(dict_without(d3, name_encoding()) =~= d3);
    }
    let font = PdfObject::Dictionary(d);
    proof {
        lemma_dictionary_value(d);
        assert(d@ =~= seq![
            (name_type_key(), ObjectValue::Name(name_font())),
            (name_subtype(), ObjectValue::Name(name_type1())),
            (name_base_font(), ObjectValue::Name(name_helvetica())),
            (name_encoding(), ObjectValue::Name(name_win_ansi_encoding())),
        ]);
    }
    doc.add_object(font)
}

} // verus!

verus! {

/// The resources in effect for a page with entries `page`: the dictionary
/// its `/Resources` entry refers to, or else its own or inherited ones.
pub open spec fn resources_in_effect(objects: Map<ObjectId, ObjectValue>, page: Entries) -> Entries {
    match dict_lookup(page, name_resources()) {
        Some(ObjectValue::Reference(r)) => dictionary_entries(objects, Some(ObjectValue::Reference(r))),
        _ => own_or_inherited_resources(objects, page),
    }
}

/// Resources whose `/Font` dictionary registers `/OCR_F1` once, as its last
/// entry, referring to `font_id`.
pub open spec fn font_registered(resources: Entries, font_id: ObjectId) -> bool {
    &&& dict_lookup(resources, name_font()) matches Some(ObjectValue::Dictionary(fonts))
    &&& dict_lookup(fonts, name_ocr_f1()) == Some(ObjectValue::Reference(font_id))
    &&& fonts.len() > 0
    &&& fonts.last() == (name_ocr_f1(), ObjectValue::Reference(font_id))
    &&& forall|i: int| 0 <= i < fonts.len() - 1 ==> (#[trigger] fonts[i]).0 != name_ocr_f1()
}

/// The page's `/Resources` entry is a reference to the page object itself.
pub open spec fn resources_refer_to_page(objects: Map<ObjectId, ObjectValue>, page_id: ObjectId) -> bool {
    &&& lookup_object(objects, page_id) matches Ok(ObjectValue::Dictionary(page))
    &&& dict_lookup(page, name_resources()) == Some(ObjectValue::Reference(page_id))
}

/// The content streams that a `/Contents` entry of `page` lists, in order.
pub open spec fn contents_items(page: Entries) -> Seq<ObjectValue> {
    match dict_lookup(page, name_contents()) {
        Some(ObjectValue::Reference(id)) => seq![ObjectValue::Reference(id)],
        Some(ObjectValue::Array(items)) => items,
        _ => Seq::empty(),
    }
}

/// Registering the font in `resources` registers `/OCR_F1` once and keeps
/// every other resource entry; every other font that was in effect stays in
/// effect, whatever the objects are later, since the new font dictionary is
/// inline.
pub proof fn lemma_font_added(objects: Map<ObjectId, ObjectValue>, resources: Entries, font_id: ObjectId)
    ensures
        font_registered(resources_with_font(objects, resources, font_id), font_id),
        forall|k: Seq<u8>|
            k != name_font() ==> #[trigger] dict_lookup(resources_with_font(objects, resources, font_id), k)
                == dict_lookup(resources, k),
        forall|later: Map<ObjectId, ObjectValue>, k: Seq<u8>|
            k != name_ocr_f1() ==> #[trigger] dict_lookup(
                fonts_in_effect(later, resources_with_font(objects, resources, font_id)),
                k,
            ) == dict_lookup(fonts_in_effect(objects, resources), k),
{
    let fonts = fonts_in_effect(objects, resources);
    let updated = dict_set(fonts, name_ocr_f1(), ObjectValue::Reference(font_id));
    let rwf = resources_with_font(objects, resources, font_id);
    lemma_dict_set_read(fonts, name_ocr_f1(), ObjectValue::Reference(font_id), name_font());
    lemma_dict_set_read(resources, name_font(), ObjectValue::Dictionary(updated), name_ocr_f1());
    assert forall|k: Seq<u8>| k != name_font() implies #[trigger] dict_lookup(rwf, k) == dict_lookup(resources, k) by {
        lemma_dict_set_read(resources, name_font(), ObjectValue::Dictionary(updated), k);
    }
    assert forall|later: Map<ObjectId, ObjectValue>, k: Seq<u8>| k != name_ocr_f1() implies #[trigger] dict_lookup(
        fonts_in_effect(later, rwf),
        k,
    ) == dict_lookup(fonts, k) by {
        lemma_dict_set_read(fonts, name_ocr_f1(), ObjectValue::Reference(font_id), k);
        assert(fonts_in_effect(later, rwf) == updated);
    }
}

/// What a successful overlay does: the new stream is stored under the next
/// object number; the page's `/Contents` gets it appended; the page's other
/// entries stay; the resources in effect for the page become those in
/// effect before (its own, referred to, or inherited) with `/OCR_F1`
/// registered, still referred to where they were and inline otherwise; no
/// other object changes. The promise needs the page's `/Resources` not to
/// refer to the page itself (then the page written last replaces the
/// updated resources).
pub proof fn lemma_overlay_attaches(
    objects: Map<ObjectId, ObjectValue>,
    max_id: u32,
    page_id: ObjectId,
    font_id: ObjectId,
    content: Seq<u8>,
)
    requires
        max_id < u32::MAX,
        overlay_spec(objects, max_id, page_id, font_id, content).1 is Ok,
        !resources_refer_to_page(
            objects.insert(((max_id + 1) as u32, 0u16), new_stream_value(content)),
            page_id,
        ),
    ensures
        ({
            let stream_id: ObjectId = ((max_id + 1) as u32, 0u16);
            let before = objects.insert(stream_id, new_stream_value(content));
            let after = overlay_spec(objects, max_id, page_id, font_id, content).0;
            &&& after.contains_key(stream_id)
            &&& after[stream_id] == new_stream_value(content)
            &&& lookup_object(before, page_id) matches Ok(ObjectValue::Dictionary(p0))
            &&& page_id != stream_id
            &&& after.contains_key(page_id)
            &&& after[page_id] matches ObjectValue::Dictionary(page)
            &&& dict_lookup(page, name_contents()) == Some(contents_with(p0, stream_id))
            &&& forall|k: Seq<u8>|
                k != name_contents() && k != name_resources() ==> #[trigger] dict_lookup(page, k) == dict_lookup(
                    p0,
                    k,
                )
            &&& resources_in_effect(after, page) == resources_with_font(
                before,
                resources_in_effect(before, p0),
                font_id,
            )
            &&& font_registered(resources_in_effect(after, page), font_id)
            &&& dict_lookup(page, name_resources()) == match dict_lookup(p0, name_resources()) {
                Some(ObjectValue::Reference(rid)) => Some(ObjectValue::Reference(rid)),
                _ => Some(ObjectValue::Dictionary(resources_in_effect(after, page))),
            }
            &&& match dict_lookup(page, name_resources()) {
                Some(ObjectValue::Reference(rid)) => rid != stream_id && after.contains_key(rid) && after[rid]
                    == ObjectValue::Dictionary(resources_in_effect(after, page)),
                _ => true,
            }
            &&& forall|id: ObjectId|
                id != stream_id && id != page_id && dict_lookup(page, name_resources()) != Some(
                    ObjectValue::Reference(id),
                ) ==> (#[trigger] after.contains_key(id) == objects.contains_key(id)) && (objects.contains_key(id)
                    ==> after[id] == objects[id])
        }),
{
    let stream_id: ObjectId = ((max_id + 1) as u32, 0u16);
    let objs = objects.insert(stream_id, new_stream_value(content));
    assert(name_contents() != name_resources()) by {
        assert(name_contents().len() != name_resources().len());
    }
    assert(name_contents() != name_parent()) by {
        assert(name_contents().len() != name_parent().len());
    }
    if let Ok(ObjectValue::Dictionary(page)) = lookup_object(objs, page_id) {
        let c = contents_with(page, stream_id);
        let page1 = dict_set(page, name_contents(), c);
        lemma_dict_set_read(page, name_contents(), c, name_resources());
        lemma_dict_set_read(page, name_contents(), c, name_parent());
        assert(page_id != stream_id) by {
            if page_id == stream_id {
                assert(objs[page_id] == new_stream_value(content));
            }
        }
        assert forall|k: Seq<u8>| k != name_contents() implies #[trigger] dict_lookup(page1, k) == dict_lookup(
            page,
            k,
        ) by {
            lemma_dict_set_read(page, name_contents(), c, k);
        }
        match dict_lookup(page1, name_resources()) {
            Some(ObjectValue::Reference(rid)) => {
                if let Ok(ObjectValue::Dictionary(res)) = lookup_object(objs, rid) {
                    assert(rid != stream_id) by {
                        if rid == stream_id {
                            assert(objs[rid] == new_stream_value(content));
                        }
                    }
                    assert(rid != page_id);
                    lemma_font_added(objs, res, font_id);
                    let after = overlay_spec(objects, max_id, page_id, font_id, content).0;
                    let rwf = ObjectValue::Dictionary(resources_with_font(objs, res, font_id));
                    assert(after[rid] == rwf);
                    assert(lookup_object(after, rid) == Ok::<ObjectValue, PdfError>(rwf));
                    assert(resources_in_effect(objs, page) == res);
                }
            },
            _ => {
                let res = own_or_inherited_resources(objs, page1);
                assert(res == own_or_inherited_resources(objs, page));
                let rwf = ObjectValue::Dictionary(resources_with_font(objs, res, font_id));
                let page2 = dict_set(page1, name_resources(), rwf);
                lemma_dict_set_read(page1, name_resources(), rwf, name_contents());
                assert forall|k: Seq<u8>| k != name_contents() && k != name_resources() implies #[trigger] dict_lookup(
                    page2,
                    k,
                ) == dict_lookup(page, k) by {
                    lemma_dict_set_read(page1, name_resources(), rwf, k);
                }
                lemma_font_added(objs, res, font_id);
            },
        }
    }
}

/// Two overlays on one page: its `/Contents` lists what it listed before,
/// then the first overlay stream, then the second; `/OCR_F1` is registered
/// once; every other font in effect before stays in effect; both streams
/// are stored. The promise needs the page's `/Resources` not to refer to
/// the page itself before either overlay.
pub proof fn lemma_two_overlays(
    objects: Map<ObjectId, ObjectValue>,
    max_id: u32,
    page_id: ObjectId,
    font_id: ObjectId,
    first: Seq<u8>,
    second: Seq<u8>,
)
    requires
        max_id + 1 < u32::MAX,
        overlay_spec(objects, max_id, page_id, font_id, first).1 is Ok,
        overlay_spec(
            overlay_spec(objects, max_id, page_id, font_id, first).0,
            (max_id + 1) as u32,
            page_id,
            font_id,
            second,
        ).1 is Ok,
        !resources_refer_to_page(
            objects.insert(((max_id + 1) as u32, 0u16), new_stream_value(first)),
            page_id,
        ),
        !resources_refer_to_page(
            overlay_spec(objects, max_id, page_id, font_id, first).0.insert(
                ((max_id + 2) as u32, 0u16),
                new_stream_value(second),
            ),
            page_id,
        ),
    ensures
        ({
            let s1: ObjectId = ((max_id + 1) as u32, 0u16);
            let s2: ObjectId = ((max_id + 2) as u32, 0u16);
            let before = objects.insert(s1, new_stream_value(first));
            let o2 = overlay_spec(
                overlay_spec(objects, max_id, page_id, font_id, first).0,
                (max_id + 1) as u32,
                page_id,
                font_id,
                second,
            ).0;
            &&& lookup_object(before, page_id) matches Ok(ObjectValue::Dictionary(p0))
            &&& o2.contains_key(page_id)
            &&& o2[page_id] matches ObjectValue::Dictionary(page)
            &&& dict_lookup(page, name_contents()) == Some(
                ObjectValue::Array(contents_items(p0) + seq![ObjectValue::Reference(s1), ObjectValue::Reference(s2)]),
            )
            &&& font_registered(resources_in_effect(o2, page), font_id)
            &&& forall|k: Seq<u8>|
                k != name_ocr_f1() ==> #[trigger] dict_lookup(fonts_in_effect(o2, resources_in_effect(o2, page)), k)
                    == dict_lookup(fonts_in_effect(before, resources_in_effect(before, p0)), k)
            &&& o2.contains_key(s1) && o2[s1] == new_stream_value(first)
            &&& o2.contains_key(s2) && o2[s2] == new_stream_value(second)
        }),
{
    let s1: ObjectId = ((max_id + 1) as u32, 0u16);
    let s2: ObjectId = ((max_id + 2) as u32, 0u16);
    let before = objects.insert(s1, new_stream_value(first));
    let o1 = overlay_spec(objects, max_id, page_id, font_id, first).0;
    let before2 = o1.insert(s2, new_stream_value(second));
    let o2 = overlay_spec(o1, (max_id + 1) as u32, page_id, font_id, second).0;
    lemma_overlay_attaches(objects, max_id, page_id, font_id, first);
    lemma_overlay_attaches(o1, (max_id + 1) as u32, page_id, font_id, second);
    assert(s1 != s2);
    if let Ok(ObjectValue::Dictionary(p0)) = lookup_object(before, page_id) {
        if let ObjectValue::Dictionary(page_a) = o1[page_id] {
            assert(page_id != s2) by {
                if page_id == s2 {
                    assert(before2[page_id] == new_stream_value(second));
                }
            }
            assert(lookup_object(before2, page_id) == Ok::<ObjectValue, PdfError>(ObjectValue::Dictionary(page_a)));
            if let ObjectValue::Dictionary(page) = o2[page_id] {
                match dict_lookup(p0, name_contents()) {
                    Some(ObjectValue::Reference(id)) => {
                        assert(contents_items(p0) + seq![ObjectValue::Reference(s1), ObjectValue::Reference(s2)]
                            =~= seq![ObjectValue::Reference(id), ObjectValue::Reference(s1)].push(ObjectValue::Reference(s2)));
                    },
                    Some(ObjectValue::Array(items)) => {
                        assert(contents_items(p0) + seq![ObjectValue::Reference(s1), ObjectValue::Reference(s2)]
                            =~= items.push(ObjectValue::Reference(s1)).push(ObjectValue::Reference(s2)));
                    },
                    _ => {
                        assert(contents_items(p0) + seq![ObjectValue::Reference(s1), ObjectValue::Reference(s2)]
                            =~= seq![ObjectValue::Reference(s1), ObjectValue::Reference(s2)]);
                    },
                }
                let r0 = resources_in_effect(before, p0);
                let ra = resources_in_effect(o1, page_a);
                lemma_font_added(before, r0, font_id);
                match dict_lookup(page_a, name_resources()) {
                    Some(ObjectValue::Reference(rid)) => {
                        assert(rid != s2) by {
                            if rid == s2 {
                                assert(before2[rid] == new_stream_value(second));
                            }
                        }
                        assert(before2[rid] == o1[rid]);
                        assert(resources_in_effect(before2, page_a) == ra);
                    },
                    _ => {
                        assert(resources_in_effect(before2, page_a) == ra);
                    },
                }
                lemma_font_added(before2, ra, font_id);
                assert(o2[s1] == o1[s1]);
            }
        }
    }
}

/// The overlay font is a Type 1 font dictionary: `/Type /Font`,
/// `/Subtype /Type1`, `/BaseFont /Helvetica` and
/// `/Encoding /WinAnsiEncoding`, and nothing else.
pub proof fn lemma_helvetica_font_entries()
    ensures
        helvetica_font_value() matches ObjectValue::Dictionary(d) && {
            &&& d.len() == 4
            &&& dict_lookup(d, seq![84u8, 121, 112, 101]) == Some(ObjectValue::Name(seq![70u8, 111, 110, 116]))
            &&& dict_lookup(d, seq![83u8, 117, 98, 116, 121, 112, 101]) == Some(
                ObjectValue::Name(seq![84u8, 121, 112, 101, 49]),
            )
            &&& dict_lookup(d, seq![66u8, 97, 115, 101, 70, 111, 110, 116]) == Some(
                ObjectValue::Name(seq![72u8, 101, 108, 118, 101, 116, 105, 99, 97]),
            )
            &&& dict_lookup(d, seq![69u8, 110, 99, 111, 100, 105, 110, 103]) == Some(
                ObjectValue::Name(seq![87u8, 105, 110, 65, 110, 115, 105, 69, 110, 99, 111, 100, 105, 110, 103]),
            )
        },
{
    let d = seq![
        (name_type_key(), ObjectValue::Name(name_font())),
        (name_subtype(), ObjectValue::Name(name_type1())),
        (name_base_font(), ObjectValue::Name(name_helvetica())),
        (name_encoding(), ObjectValue::Name(name_win_ansi_encoding())),
    ];
    assert(name_type_key() =~= seq![84u8, 121, 112, 101]);
    assert(name_font() =~= seq![70u8, 111, 110, 116]);
    assert(name_subtype() =~= seq![83u8, 117, 98, 116, 121, 112, 101]);
    assert(name_type1() =~= seq![84u8, 121, 112, 101, 49]);
    assert(name_base_font() =~= seq![66u8, 97, 115, 101, 70, 111, 110, 116]);
    assert(name_helvetica() =~= seq![72u8, 101, 108, 118, 101, 116, 105, 99, 97]);
    assert(name_encoding() =~= seq![69u8, 110, 99, 111, 100, 105, 110, 103]);
    assert(name_win_ansi_encoding() =~= seq![87u8, 105, 110, 65, 110, 115, 105, 69, 110, 99, 111, 100, 105, 110, 103]);
    assert(name_subtype() != name_type_key());
    assert(name_base_font() != name_type_key() && name_base_font() != name_subtype()) by {
        assert(name_base_font().len() != name_type_key().len());
        assert(name_base_font().len() != name_subtype().len());
    }
    assert(name_encoding() != name_type_key() && name_encoding() != name_subtype() && name_encoding()
        != name_base_font()) by {
        assert(name_encoding().len() != name_type_key().len());
        assert(name_encoding().len() != name_subtype().len());
        assert(name_encoding()[0] != name_base_font()[0]);
    }
    reveal_with_fuel(dict_lookup, 5);
    assert(helvetica_font_value() == ObjectValue::Dictionary(d));
    assert(d.drop_first().drop_first().drop_first().drop_first().len() == 0);
    assert(d.drop_first()[0].0 == name_subtype());
    assert(d.drop_first().drop_first()[0].0 == name_base_font());
    assert(d.drop_first().drop_first().drop_first()[0].0 == name_encoding());
}

} // verus!
