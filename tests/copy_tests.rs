use hipdf::copy::copy_object;
use hipdf::embed::{add_page_xobject, default_media_box, media_box_or_default};
use hipdf::lopdf::{Dictionary, Document, Object, Stream};

#[test]
fn references_are_followed_and_streams_moved_to_the_target() {
    let mut source = Document::with_version("1.5");
    let mut font = Dictionary::new();
    font.set("BaseFont", "Helvetica");
    let font_id = source.add_object(font);
    let image_id = source.add_object(Stream::new(Dictionary::new(), b"pixels".to_vec()));
    let mut resources = Dictionary::new();
    resources.set("Font", Object::Reference(font_id));
    resources.set("Image", Object::Reference(image_id));
    resources.set("List", Object::Array(vec![Object::Integer(3), Object::Reference(font_id)]));

    let mut target = Document::with_version("1.5");
    target.add_object(Dictionary::new());
    let copy = copy_object(&source, &mut target, &Object::Dictionary(resources), 16);

    let d = copy.as_dict().unwrap();
    let font_copy = d.get(b"Font").unwrap().as_dict().unwrap();
    assert_eq!(font_copy.get(b"BaseFont").unwrap(), &Object::Name(b"Helvetica".to_vec()));
    let image_ref = d.get(b"Image").unwrap().as_reference().unwrap();
    assert_eq!(image_ref, (2, 0));
    let image = target.get_object(image_ref).unwrap().as_stream().unwrap();
    assert_eq!(image.content, b"pixels".to_vec());
    let list = d.get(b"List").unwrap().as_array().unwrap();
    assert_eq!(list[0], Object::Integer(3));
    assert!(list[1].as_dict().is_ok());
}

#[test]
fn a_missing_reference_copies_as_null() {
    let source = Document::with_version("1.5");
    let mut target = Document::with_version("1.5");
    let copy = copy_object(&source, &mut target, &Object::Reference((9, 0)), 8);
    assert_eq!(copy, Object::Null);
    assert!(target.objects.is_empty());
}

#[test]
fn a_reference_cycle_ends_at_the_depth_bound() {
    let mut source = Document::with_version("1.5");
    let mut a = Dictionary::new();
    a.set("Next", Object::Reference((1, 0)));
    source.objects.insert((1, 0), Object::Dictionary(a));
    source.max_id = 1;
    let mut target = Document::with_version("1.5");
    let copy = copy_object(&source, &mut target, &Object::Reference((1, 0)), 6);
    let mut depth = 0;
    let mut cur = copy;
    while let Ok(d) = cur.as_dict() {
        cur = d.get(b"Next").unwrap().clone();
        depth += 1;
    }
    assert_eq!(cur, Object::Null);
    assert_eq!(depth, 3);
}

#[test]
fn page_form_objects_hold_their_box_resources_and_content() {
    let mut doc = Document::with_version("1.5");
    let id = add_page_xobject(
        &mut doc,
        default_media_box(),
        Object::Dictionary(Dictionary::new()),
        b"0 0 m".to_vec(),
    );
    assert_eq!(id, (1, 0));
    let s = doc.get_object(id).unwrap().as_stream().unwrap();
    assert_eq!(s.content, b"0 0 m".to_vec());
    assert_eq!(s.dict.get(b"Type").unwrap(), &Object::Name(b"XObject".to_vec()));
    assert_eq!(s.dict.get(b"Subtype").unwrap(), &Object::Name(b"Form".to_vec()));
    assert_eq!(
        s.dict.get(b"BBox").unwrap(),
        &Object::Array(vec![0.into(), 0.into(), 595.into(), 842.into()])
    );
    assert_eq!(
        s.dict.get(b"Matrix").unwrap(),
        &Object::Array(vec![1.into(), 0.into(), 0.into(), 1.into(), 0.into(), 0.into()])
    );
    assert_eq!(s.dict.get(b"Length").unwrap(), &Object::Integer(5));
    assert_eq!(s.dict.len(), 6);
}

#[test]
fn media_box_falls_back_to_the_default_page() {
    let mut source = Document::with_version("1.5");
    let boxed = source.add_object(Object::Array(vec![0.into(), 0.into(), 300.into(), 400.into()]));
    let mut page = Dictionary::new();
    assert_eq!(media_box_or_default(&page, &source), default_media_box());
    assert_eq!(
        default_media_box(),
        Object::Array(vec![0.into(), 0.into(), 595.into(), 842.into()])
    );
    page.set("MediaBox", Object::Reference(boxed));
    assert_eq!(
        media_box_or_default(&page, &source),
        Object::Array(vec![0.into(), 0.into(), 300.into(), 400.into()])
    );
    page.set("MediaBox", Object::Reference((77, 0)));
    assert_eq!(media_box_or_default(&page, &source), default_media_box());
    page.set("MediaBox", Object::Array(vec![1.into(), 2.into(), 3.into(), 4.into()]));
    assert_eq!(
        media_box_or_default(&page, &source),
        Object::Array(vec![1.into(), 2.into(), 3.into(), 4.into()])
    );
}

#[test]
fn leaves_are_copied_unchanged_and_add_nothing() {
    let source = Document::with_version("1.5");
    let mut target = Document::with_version("1.5");
    let name = Object::Name(b"DeviceRGB".to_vec());
    assert_eq!(copy_object(&source, &mut target, &name, 4), name);
    assert_eq!(copy_object(&source, &mut target, &name, 0), Object::Null);
    assert!(target.objects.is_empty());
}

#[test]
fn each_stream_reached_becomes_one_new_object() {
    let mut source = Document::with_version("1.5");
    let s = source.add_object(Stream::new(Dictionary::new(), b"x".to_vec()));
    let obj = Object::Array(vec![Object::Reference(s), Object::Reference(s)]);
    let mut target = Document::with_version("1.5");
    let copy = copy_object(&source, &mut target, &obj, 8);
    assert_eq!(target.objects.len(), 2);
    assert_eq!(
        copy,
        Object::Array(vec![Object::Reference((1, 0)), Object::Reference((2, 0))])
    );
}
