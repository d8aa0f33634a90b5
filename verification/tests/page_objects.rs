use ocrtool::document::{IndirectObject, PdfDocument, PdfError};
use ocrtool::object::{DictEntry, PdfDictionary, PdfObject};
use ocrtool::overlay::{add_helvetica_font, add_text_overlay, OverlayError};
use ocrtool::pdf::{media_box_walk_ends, page_media_box, DimensionError, PdfNumber};

fn dict(entries: Vec<(&str, PdfObject)>) -> PdfDictionary {
    PdfDictionary {
        entries: entries
            .into_iter()
            .map(|(k, v)| DictEntry { key: k.as_bytes().to_vec(), value: v })
            .collect(),
    }
}

fn d(entries: Vec<(&str, PdfObject)>) -> PdfObject {
    PdfObject::Dictionary(dict(entries))
}

fn doc(objects: Vec<((u32, u16), PdfObject)>) -> PdfDocument {
    let max_id = objects.iter().map(|(id, _)| id.0).max().unwrap_or(0);
    PdfDocument { objects: objects.into_iter().map(|(id, object)| IndirectObject { id, object }).collect(), max_id }
}

fn media_box(values: &[i64]) -> PdfObject {
    PdfObject::Array(values.iter().map(|&v| PdfObject::Integer(v)).collect())
}

fn get<'a>(doc: &'a PdfDocument, id: (u32, u16)) -> &'a PdfObject {
    doc.get_object(id).ok().expect("object present")
}

fn lookup<'a>(d: &'a PdfObject, key: &str) -> Option<&'a PdfObject> {
    match d {
        PdfObject::Dictionary(d) => d.get(key.as_bytes()),
        _ => None,
    }
}

fn is_ref(o: Option<&PdfObject>, id: (u32, u16)) -> bool {
    matches!(o, Some(PdfObject::Reference(r)) if *r == id)
}

fn keys(o: &PdfObject) -> Vec<Vec<u8>> {
    match o {
        PdfObject::Dictionary(d) => d.entries.iter().map(|e| e.key.clone()).collect(),
        _ => vec![],
    }
}

#[test]
fn media_box_on_the_page() {
    let doc = doc(vec![((1, 0), d(vec![("MediaBox", media_box(&[0, 0, 612, 792]))]))]);
    let mb = page_media_box(&doc, (1, 0)).ok().unwrap();
    assert_eq!(mb, vec![PdfNumber::Integer(0), PdfNumber::Integer(0), PdfNumber::Integer(612), PdfNumber::Integer(792)]);
}

#[test]
fn media_box_inherited_from_parent() {
    let bits = 595.5f32.to_bits();
    let doc = doc(vec![
        ((1, 0), d(vec![("MediaBox", PdfObject::Array(vec![
            PdfObject::Integer(0),
            PdfObject::Integer(0),
            PdfObject::Real(bits),
            PdfObject::Integer(842),
            PdfObject::Integer(5),
        ]))])),
        ((2, 0), d(vec![("Parent", PdfObject::Reference((3, 0)))])),
        ((3, 0), d(vec![("Parent", PdfObject::Reference((1, 0)))])),
    ]);
    assert!(media_box_walk_ends(&doc, (2, 0)));
    let mb = page_media_box(&doc, (2, 0)).ok().unwrap();
    assert_eq!(mb.len(), 5);
    assert_eq!(mb[2], PdfNumber::Real(bits));
}

#[test]
fn media_box_errors() {
    let doc = doc(vec![
        ((1, 0), d(vec![("MediaBox", media_box(&[0, 0, 612]))])),
        ((2, 0), d(vec![("MediaBox", PdfObject::Array(vec![
            PdfObject::Integer(0), PdfObject::Integer(0), PdfObject::Integer(1), PdfObject::Null,
        ]))])),
        ((3, 0), d(vec![("Type", PdfObject::Name(b"Page".to_vec()))])),
        ((4, 0), d(vec![("Parent", PdfObject::Integer(1))])),
        ((5, 0), PdfObject::Integer(9)),
        ((6, 0), d(vec![("MediaBox", PdfObject::Reference((1, 0)))])),
        ((7, 0), d(vec![("Parent", PdfObject::Reference((42, 0)))])),
    ]);
    assert!(matches!(page_media_box(&doc, (1, 0)), Err(DimensionError::MediaBoxTooShort(3))));
    assert!(matches!(page_media_box(&doc, (2, 0)), Err(DimensionError::NotNumeric)));
    assert!(matches!(page_media_box(&doc, (3, 0)), Err(DimensionError::NoParent)));
    assert!(matches!(page_media_box(&doc, (4, 0)), Err(DimensionError::ParentNotReference)));
    assert!(matches!(page_media_box(&doc, (5, 0)), Err(DimensionError::NotADictionary((5, 0)))));
    assert!(matches!(page_media_box(&doc, (6, 0)), Err(DimensionError::MediaBoxNotArray)));
    assert!(matches!(page_media_box(&doc, (7, 0)), Err(DimensionError::Lookup((42, 0), PdfError::ObjectNotFound))));
    for n in 1..=7u32 {
        assert!(media_box_walk_ends(&doc, (n, 0)));
    }
}

#[test]
fn media_box_parent_cycle() {
    let doc = doc(vec![
        ((1, 0), d(vec![("Parent", PdfObject::Reference((2, 0)))])),
        ((2, 0), d(vec![("Parent", PdfObject::Reference((1, 0)))])),
        ((3, 0), d(vec![("Parent", PdfObject::Reference((3, 0)))])),
    ]);
    assert!(!media_box_walk_ends(&doc, (1, 0)));
    assert!(!media_box_walk_ends(&doc, (2, 0)));
    assert!(!media_box_walk_ends(&doc, (3, 0)));
}

#[test]
fn lookup_follows_references() {
    let mut objects = vec![((1, 0), d(vec![("MediaBox", media_box(&[0, 0, 10, 20]))])), ((2, 0), PdfObject::Reference((1, 0)))];
    for i in 3..200u32 {
        objects.push(((i, 0), PdfObject::Reference((i - 1, 0))));
    }
    let doc = doc(objects);
    assert!(matches!(doc.get_object((2, 0)), Ok(PdfObject::Dictionary(_))));
    assert!(matches!(doc.get_object((129, 0)), Ok(PdfObject::Dictionary(_))));
    assert!(matches!(doc.get_object((130, 0)), Err(PdfError::ReferenceLimit)));
    assert!(matches!(doc.get_object((500, 0)), Err(PdfError::ObjectNotFound)));
    assert!(page_media_box(&doc, (2, 0)).is_ok());
}

#[test]
fn font_object_is_added() {
    let mut doc = doc(vec![((4, 0), PdfObject::Null)]);
    let id = add_helvetica_font(&mut doc);
    assert_eq!(id, (5, 0));
    assert_eq!(doc.max_id, 5);
    let font = get(&doc, id);
    assert_eq!(keys(font), vec![b"Type".to_vec(), b"Subtype".to_vec(), b"BaseFont".to_vec(), b"Encoding".to_vec()]);
    assert!(matches!(lookup(font, "BaseFont"), Some(PdfObject::Name(n)) if n == b"Helvetica"));
    assert!(matches!(lookup(font, "Encoding"), Some(PdfObject::Name(n)) if n == b"WinAnsiEncoding"));
}

#[test]
fn overlay_turns_single_contents_into_array() {
    let mut doc = doc(vec![
        ((1, 0), d(vec![("Type", PdfObject::Name(b"Page".to_vec())), ("Contents", PdfObject::Reference((2, 0)))])),
        ((2, 0), PdfObject::Null),
        ((3, 0), PdfObject::Null),
    ]);
    add_text_overlay(&mut doc, (1, 0), (3, 0), b"BT ET".to_vec()).ok().unwrap();
    assert_eq!(doc.max_id, 4);
    match get(&doc, (4, 0)) {
        PdfObject::Stream(s) => {
            assert_eq!(s.content, b"BT ET".to_vec());
            assert!(matches!(s.dict.get(b"Length"), Some(PdfObject::Integer(5))));
        },
        _ => panic!("stream expected"),
    }
    let page = get(&doc, (1, 0));
    match lookup(page, "Contents") {
        Some(PdfObject::Array(items)) => {
            assert_eq!(items.len(), 2);
            assert!(is_ref(Some(&items[0]), (2, 0)));
            assert!(is_ref(Some(&items[1]), (4, 0)));
        },
        _ => panic!("contents array expected"),
    }
    let res = lookup(page, "Resources").expect("resources");
    let fonts = lookup(res, "Font").expect("font dictionary");
    assert!(is_ref(lookup(fonts, "OCR_F1"), (3, 0)));
    assert_eq!(keys(page), vec![b"Type".to_vec(), b"Contents".to_vec(), b"Resources".to_vec()]);
}

#[test]
fn overlay_appends_to_contents_array_and_keeps_fonts() {
    let mut doc = doc(vec![
        ((1, 0), d(vec![
            ("Contents", PdfObject::Array(vec![PdfObject::Reference((5, 0)), PdfObject::Reference((6, 0))])),
            ("Resources", d(vec![("Font", d(vec![("F0", PdfObject::Reference((7, 0)))]))])),
        ])),
        ((9, 0), PdfObject::Null),
    ]);
    add_text_overlay(&mut doc, (1, 0), (9, 0), vec![]).ok().unwrap();
    let page = get(&doc, (1, 0));
    match lookup(page, "Contents") {
        Some(PdfObject::Array(items)) => {
            assert_eq!(items.len(), 3);
            assert!(is_ref(Some(&items[2]), (10, 0)));
        },
        _ => panic!("contents array expected"),
    }
    let fonts = lookup(lookup(page, "Resources").unwrap(), "Font").unwrap();
    assert!(is_ref(lookup(fonts, "F0"), (7, 0)));
    assert!(is_ref(lookup(fonts, "OCR_F1"), (9, 0)));
}

#[test]
fn overlay_updates_indirect_resources() {
    let mut doc = doc(vec![
        ((1, 0), d(vec![("Resources", PdfObject::Reference((2, 0)))])),
        ((2, 0), d(vec![("Font", PdfObject::Integer(3))])),
        ((3, 0), PdfObject::Null),
    ]);
    add_text_overlay(&mut doc, (1, 0), (3, 0), vec![1]).ok().unwrap();
    let page = get(&doc, (1, 0));
    assert!(is_ref(lookup(page, "Contents"), (4, 0)));
    assert!(is_ref(lookup(page, "Resources"), (2, 0)));
    let res = get(&doc, (2, 0));
    let fonts = lookup(res, "Font").expect("fresh font dictionary");
    assert_eq!(keys(fonts), vec![b"OCR_F1".to_vec()]);
}

#[test]
fn overlay_keeps_inherited_resources() {
    let mut doc = doc(vec![
        ((1, 0), d(vec![("Type", PdfObject::Name(b"Page".to_vec())), ("Parent", PdfObject::Reference((2, 0)))])),
        ((2, 0), d(vec![
            ("Type", PdfObject::Name(b"Pages".to_vec())),
            ("Resources", d(vec![
                ("XObject", d(vec![("Im0", PdfObject::Reference((5, 0)))])),
                ("Font", PdfObject::Reference((3, 0))),
            ])),
        ])),
        ((3, 0), d(vec![("F0", PdfObject::Reference((4, 0)))])),
        ((4, 0), PdfObject::Null),
        ((5, 0), PdfObject::Null),
        ((6, 0), PdfObject::Null),
    ]);
    add_text_overlay(&mut doc, (1, 0), (6, 0), vec![]).ok().unwrap();
    let page = get(&doc, (1, 0));
    assert!(is_ref(lookup(page, "Contents"), (7, 0)));
    let res = lookup(page, "Resources").expect("resources");
    let images = lookup(res, "XObject").expect("inherited images");
    assert!(is_ref(lookup(images, "Im0"), (5, 0)));
    let fonts = lookup(res, "Font").expect("font dictionary");
    assert_eq!(keys(fonts), vec![b"F0".to_vec(), b"OCR_F1".to_vec()]);
    assert!(is_ref(lookup(fonts, "F0"), (4, 0)));
    assert!(is_ref(lookup(fonts, "OCR_F1"), (6, 0)));
    // The ancestor itself is left as it was.
    let parent_res = lookup(get(&doc, (2, 0)), "Resources").unwrap();
    assert!(is_ref(lookup(parent_res, "Font"), (3, 0)));
    assert_eq!(keys(get(&doc, (3, 0))), vec![b"F0".to_vec()]);
}

#[test]
fn overlay_follows_font_reference() {
    let mut doc = doc(vec![
        ((1, 0), d(vec![
            ("Contents", PdfObject::Reference((2, 0))),
            ("Resources", d(vec![("Font", PdfObject::Reference((3, 0)))])),
        ])),
        ((2, 0), PdfObject::Null),
        ((3, 0), d(vec![("F0", PdfObject::Reference((4, 0))), ("F1", PdfObject::Reference((5, 0)))])),
        ((4, 0), PdfObject::Null),
        ((5, 0), PdfObject::Null),
    ]);
    add_text_overlay(&mut doc, (1, 0), (5, 0), vec![]).ok().unwrap();
    let page = get(&doc, (1, 0));
    let fonts = lookup(lookup(page, "Resources").unwrap(), "Font").expect("font dictionary");
    assert!(is_ref(lookup(fonts, "F0"), (4, 0)));
    assert!(is_ref(lookup(fonts, "F1"), (5, 0)));
    assert!(is_ref(lookup(fonts, "OCR_F1"), (5, 0)));
}

#[test]
fn two_overlays_keep_order_and_register_font_once() {
    let mut doc = doc(vec![
        ((1, 0), d(vec![
            ("Contents", PdfObject::Reference((2, 0))),
            ("Resources", d(vec![("Font", d(vec![("F0", PdfObject::Reference((4, 0)))]))])),
        ])),
        ((2, 0), PdfObject::Null),
        ((3, 0), PdfObject::Null),
        ((4, 0), PdfObject::Null),
    ]);
    add_text_overlay(&mut doc, (1, 0), (3, 0), b"A".to_vec()).ok().unwrap();
    add_text_overlay(&mut doc, (1, 0), (3, 0), b"B".to_vec()).ok().unwrap();
    let page = get(&doc, (1, 0));
    match lookup(page, "Contents") {
        Some(PdfObject::Array(items)) => {
            assert_eq!(items.len(), 3);
            assert!(is_ref(Some(&items[0]), (2, 0)));
            assert!(is_ref(Some(&items[1]), (5, 0)));
            assert!(is_ref(Some(&items[2]), (6, 0)));
        },
        _ => panic!("contents array expected"),
    }
    let fonts = lookup(lookup(page, "Resources").unwrap(), "Font").unwrap();
    assert_eq!(keys(fonts), vec![b"F0".to_vec(), b"OCR_F1".to_vec()]);
    assert!(is_ref(lookup(fonts, "OCR_F1"), (3, 0)));
    assert!(matches!(get(&doc, (5, 0)), PdfObject::Stream(s) if s.content == b"A".to_vec()));
    assert!(matches!(get(&doc, (6, 0)), PdfObject::Stream(s) if s.content == b"B".to_vec()));
}

#[test]
fn overlay_errors() {
    let mut missing = doc(vec![((1, 0), PdfObject::Null)]);
    assert!(matches!(add_text_overlay(&mut missing, (8, 0), (1, 0), vec![]), Err(OverlayError::PageLookup(PdfError::ObjectNotFound))));
    assert_eq!(missing.max_id, 2);
    assert!(missing.get_object((2, 0)).is_ok());

    let mut not_dict = doc(vec![((1, 0), PdfObject::Integer(1))]);
    assert!(matches!(add_text_overlay(&mut not_dict, (1, 0), (1, 0), vec![]), Err(OverlayError::PageNotDictionary)));

    let mut bad_res = doc(vec![
        ((1, 0), d(vec![("Resources", PdfObject::Reference((5, 0)))])),
        ((2, 0), PdfObject::Null),
    ]);
    assert!(matches!(add_text_overlay(&mut bad_res, (1, 0), (2, 0), vec![]), Err(OverlayError::ResourcesLookup(PdfError::ObjectNotFound))));
    assert!(lookup(get(&bad_res, (1, 0)), "Contents").is_none());

    let mut res_not_dict = doc(vec![
        ((1, 0), d(vec![("Resources", PdfObject::Reference((2, 0)))])),
        ((2, 0), PdfObject::Null),
    ]);
    assert!(matches!(add_text_overlay(&mut res_not_dict, (1, 0), (2, 0), vec![]), Err(OverlayError::ResourcesNotDictionary)));
}

#[test]
fn overlay_on_referenced_page_writes_page_id() {
    let mut doc = doc(vec![
        ((1, 0), PdfObject::Reference((2, 0))),
        ((2, 0), d(vec![("Contents", PdfObject::Reference((3, 0)))])),
        ((3, 0), PdfObject::Null),
    ]);
    add_text_overlay(&mut doc, (1, 0), (3, 0), vec![]).ok().unwrap();
    assert!(matches!(doc.objects[0].object, PdfObject::Dictionary(_)));
    assert!(is_ref(lookup(get(&doc, (2, 0)), "Contents"), (3, 0)));
}

#[test]
fn dictionary_read_after_write() {
    let mut dict = dict(vec![("A", PdfObject::Integer(1)), ("B", PdfObject::Integer(2)), ("C", PdfObject::Integer(3))]);
    dict.set(b"A".to_vec(), PdfObject::Integer(10));
    assert!(matches!(dict.get(b"A"), Some(PdfObject::Integer(10))));
    assert!(matches!(dict.get(b"B"), Some(PdfObject::Integer(2))));
    assert!(dict.get(b"Z").is_none());
    let keys: Vec<Vec<u8>> = dict.entries.iter().map(|e| e.key.clone()).collect();
    assert_eq!(keys, vec![b"B".to_vec(), b"C".to_vec(), b"A".to_vec()]);
}

#[test]
fn added_object_reads_back() {
    let mut doc = doc(vec![((2, 0), PdfObject::Null)]);
    let id = doc.add_object(PdfObject::Integer(77));
    assert_eq!(id, (3, 0));
    assert!(matches!(doc.get_object(id), Ok(PdfObject::Integer(77))));
    assert!(doc.replace_object(id, PdfObject::Boolean(true)));
    assert!(matches!(doc.get_object(id), Ok(PdfObject::Boolean(true))));
    assert!(!doc.replace_object((9, 0), PdfObject::Null));
}
