//! The parts of the lopdf object model that this library carries or calls,
//! and the names under which contracts speak of lopdf values.

use vstd::prelude::*;
use vstd::string::*;
use crate::copy::ObjectShape;

verus! {

/// A PDF object of lopdf.
#[verifier::external_type_specification]
#[verifier::external_body]
pub struct ExObject(lopdf::Object);

/// A lopdf document: its objects, trailer and catalog.
#[verifier::external_type_specification]
#[verifier::external_body]
pub struct ExDocument(lopdf::Document);

/// A lopdf dictionary.
#[verifier::external_type_specification]
#[verifier::external_body]
pub struct ExDictionary(lopdf::Dictionary);

/// A content-stream operation of lopdf.
#[verifier::external_type_specification]
#[verifier::external_body]
pub struct ExOperation(lopdf::content::Operation);

/// The number of the last object added to a lopdf document (its `max_id`).
pub uninterp spec fn last_object_number(doc: lopdf::Document) -> u32;

/// The objects stored in a lopdf document (its `objects` map).
pub uninterp spec fn stored_objects(doc: lopdf::Document) -> Map<(u32, u16), lopdf::Object>;

/// The entries of a lopdf dictionary (the map inside it), by key bytes.
pub uninterp spec fn dictionary_entries(d: lopdf::Dictionary) -> Map<Seq<u8>, lopdf::Object>;

/// The bytes of `o` when it is `Object::Name`.
pub uninterp spec fn name_value(o: lopdf::Object) -> Option<Seq<u8>>;

/// The identifier in `o` when it is `Object::Reference`.
pub uninterp spec fn reference_value(o: lopdf::Object) -> Option<(u32, u16)>;

/// The integer in `o` when it is `Object::Integer`.
pub uninterp spec fn integer_value(o: lopdf::Object) -> Option<i64>;

/// The items of `o` when it is `Object::Array`.
pub uninterp spec fn array_items(o: lopdf::Object) -> Option<Seq<lopdf::Object>>;

/// The dictionary in `o` when it is `Object::Dictionary`.
pub uninterp spec fn dictionary_value(o: lopdf::Object) -> Option<lopdf::Dictionary>;

/// The dictionary of `o` when it is `Object::Stream`.
pub uninterp spec fn stream_dictionary(o: lopdf::Object) -> Option<lopdf::Dictionary>;

/// The content bytes of `o` when it is `Object::Stream`.
pub uninterp spec fn stream_content(o: lopdf::Object) -> Option<Seq<u8>>;

/// The trailer dictionary of a lopdf document.
pub uninterp spec fn trailer(doc: lopdf::Document) -> lopdf::Dictionary;

/// Whether `o` is `Object::Null`.
pub uninterp spec fn is_null(o: lopdf::Object) -> bool;

/// What `Document::get_object` gives for `id`: the stored object, with
/// stored references followed, or nothing.
pub uninterp spec fn resolved(doc: lopdf::Document, id: (u32, u16)) -> Option<lopdf::Object>;

/// `es` lists the entries of `d`, each key once, in some order.
pub open spec fn lists_entries(es: Seq<(Vec<u8>, lopdf::Object)>, d: lopdf::Dictionary) -> bool {
    &&& es.map_values(|e: (Vec<u8>, lopdf::Object)| e.0@).no_duplicates()
    &&& es.map_values(|e: (Vec<u8>, lopdf::Object)| e.0@).to_set() == dictionary_entries(d).dom()
    &&& forall|i: int|
        0 <= i < es.len() ==> dictionary_entries(d)[(#[trigger] es[i]).0@] == es[i].1
}

/// The keys of `d`.
pub open spec fn dictionary_keys(d: lopdf::Dictionary) -> Set<Seq<u8>> {
    dictionary_entries(d).dom()
}

/// The value of `d` under `key`.
pub open spec fn entry(d: lopdf::Dictionary, key: Seq<u8>) -> lopdf::Object {
    dictionary_entries(d)[key]
}

/// `after` is `before` with its entry `key` set (added or replaced).
pub open spec fn sets_entry(before: lopdf::Dictionary, after: lopdf::Dictionary, key: Seq<u8>) -> bool {
    &&& dictionary_entries(after).contains_key(key)
    &&& dictionary_entries(after) == dictionary_entries(before).insert(key, entry(after, key))
}

/// `after` is `before` with one more object, numbered one past the last,
/// under `id`.
pub open spec fn adds_object(before: lopdf::Document, after: lopdf::Document, id: (u32, u16)) -> bool {
    &&& id == ((last_object_number(before) + 1) as u32, 0u16)
    &&& last_object_number(after) == id.0
    &&& stored_objects(after).contains_key(id)
    &&& stored_objects(after) == stored_objects(before).insert(id, stored_objects(after)[id])
}

/// `o` is a stream whose dictionary is `dict` with its `Length` set to `len`.
pub open spec fn has_stream_dictionary(o: lopdf::Object, dict: lopdf::Dictionary, len: nat) -> bool {
    stream_dictionary(o) matches Some(sd) && sets_entry(dict, sd, "Length".spec_bytes())
        && integer_value(entry(sd, "Length".spec_bytes())) == Some(len as i64)
}

/// `o` is an array of references to `ids`, in order.
pub open spec fn is_reference_array(o: lopdf::Object, ids: Seq<(u32, u16)>) -> bool {
    array_items(o) matches Some(items) && items.len() == ids.len() && forall|i: int|
        0 <= i < ids.len() ==> reference_value(#[trigger] items[i]) == Some(ids[i])
}

/// `o` is an array of the integers `values`, in order.
pub open spec fn is_integer_array(o: lopdf::Object, values: Seq<i64>) -> bool {
    array_items(o) matches Some(items) && items.len() == values.len() && forall|i: int|
        0 <= i < values.len() ==> integer_value(#[trigger] items[i]) == Some(values[i])
}

/// Relies on the derived `Clone` of `lopdf::Object`: the copy is the same value.
pub assume_specification[ <lopdf::Object as Clone>::clone ](o: &lopdf::Object) -> (r:
    lopdf::Object)
    ensures
        r == *o,
;

/// Relies on the derived `Clone` of `lopdf::Dictionary`: the copy is the same value.
pub assume_specification[ <lopdf::Dictionary as Clone>::clone ](d: &lopdf::Dictionary) -> (r:
    lopdf::Dictionary)
    ensures
        r == *d,
;

/// Relies on the field `lopdf::Document::max_id`: the number of the last
/// object added.
#[verifier::external_body]
pub(crate) fn max_object_number(doc: &lopdf::Document) -> (r: u32)
    ensures
        r == last_object_number(*doc),
{
    doc.max_id
}

/// Relies on `lopdf::Dictionary::new`: an empty dictionary.
#[verifier::external_body]
pub(crate) fn new_dictionary() -> (r: lopdf::Dictionary)
    ensures
        dictionary_keys(r) == Set::<Seq<u8>>::empty(),
{
    lopdf::Dictionary::new()
}

/// Relies on `lopdf::Dictionary::set` (an insert into its map): sets `key` to the name `/value`.
#[verifier::external_body]
pub(crate) fn set_name(d: &mut lopdf::Dictionary, key: &str, value: &str)
    ensures
        sets_entry(*old(d), *final(d), key.spec_bytes()),
        name_value(entry(*final(d), key.spec_bytes())) == Some(value.spec_bytes()),
{
    d.set(key, lopdf::Object::Name(value.as_bytes().to_vec()));
}

/// Relies on `lopdf::Dictionary::set` (an insert into its map): sets `key` to the literal string `value`.
#[verifier::external_body]
pub(crate) fn set_text(d: &mut lopdf::Dictionary, key: &str, value: &str)
    ensures
        sets_entry(*old(d), *final(d), key.spec_bytes()),
{
    d.set(key, lopdf::Object::string_literal(value.as_bytes().to_vec()));
}

/// Relies on `lopdf::Dictionary::set` (an insert into its map): sets `key` to a reference to `id`.
#[verifier::external_body]
pub(crate) fn set_reference(d: &mut lopdf::Dictionary, key: &str, id: (u32, u16))
    ensures
        sets_entry(*old(d), *final(d), key.spec_bytes()),
        reference_value(entry(*final(d), key.spec_bytes())) == Some(id),
{
    d.set(key, lopdf::Object::Reference(id));
}

/// Relies on `lopdf::Dictionary::set` (an insert into its map): sets `key` to an array of references to `ids`.
#[verifier::external_body]
pub(crate) fn set_references(d: &mut lopdf::Dictionary, key: &str, ids: &Vec<(u32, u16)>)
    ensures
        sets_entry(*old(d), *final(d), key.spec_bytes()),
        is_reference_array(entry(*final(d), key.spec_bytes()), ids@),
{
    let refs: Vec<lopdf::Object> = ids.iter().map(|id| lopdf::Object::Reference(*id)).collect();
    d.set(key, refs);
}

/// Relies on `lopdf::Dictionary::set` (an insert into its map): sets `key` to an array of the names `names`.
#[verifier::external_body]
pub(crate) fn set_names(d: &mut lopdf::Dictionary, key: &str, names: &Vec<String>)
    ensures
        sets_entry(*old(d), *final(d), key.spec_bytes()),
        array_items(entry(*final(d), key.spec_bytes())) matches Some(items) && items.len()
            == names@.len() && forall|i: int|
            0 <= i < names@.len() ==> name_value(#[trigger] items[i]) == Some(
                vstd::utf8::encode_utf8(names@[i]@),
            ),
{
    let objs: Vec<lopdf::Object> = names.iter().map(|s| lopdf::Object::Name(s.as_bytes().to_vec()))
        .collect();
    d.set(key, objs);
}

/// Relies on `lopdf::Dictionary::set` (an insert into its map): sets `key` to the dictionary `value`.
#[verifier::external_body]
pub(crate) fn set_dictionary(d: &mut lopdf::Dictionary, key: &str, value: lopdf::Dictionary)
    ensures
        sets_entry(*old(d), *final(d), key.spec_bytes()),
        dictionary_value(entry(*final(d), key.spec_bytes())) == Some(value),
{
    d.set(key, value);
}

/// Relies on `lopdf::Dictionary::set` (an insert into its map): sets `key` to `value`.
#[verifier::external_body]
pub(crate) fn set_object(d: &mut lopdf::Dictionary, key: &str, value: lopdf::Object)
    ensures
        dictionary_entries(*final(d)) == dictionary_entries(*old(d)).insert(key.spec_bytes(), value),
{
    d.set(key, value);
}

/// Relies on `lopdf::Dictionary::set` (an insert into its map): sets the key
/// with bytes `key` to `value`.
#[verifier::external_body]
pub(crate) fn set_entry(d: &mut lopdf::Dictionary, key: Vec<u8>, value: lopdf::Object)
    ensures
        dictionary_entries(*final(d)) == dictionary_entries(*old(d)).insert(key@, value),
{
    d.set(key, value);
}

/// Relies on `lopdf::Dictionary::has`: whether `d` has an entry `key`.
#[verifier::external_body]
pub(crate) fn has_key(d: &lopdf::Dictionary, key: &str) -> (r: bool)
    ensures
        r == dictionary_keys(*d).contains(key.spec_bytes()),
{
    d.has(key.as_bytes())
}

/// Relies on `lopdf::Dictionary::get_mut`: when entry `key` of `d` is a
/// dictionary, sets its `name` to a reference to `id`; the keys of `d` stay.
#[verifier::external_body]
pub(crate) fn set_reference_under(
    d: &mut lopdf::Dictionary,
    key: &str,
    name: &str,
    id: (u32, u16),
)
    ensures
        dictionary_keys(*final(d)) == dictionary_keys(*old(d)),
        forall|k: Seq<u8>|
            k != key.spec_bytes() && dictionary_keys(*old(d)).contains(k) ==> entry(*final(d), k)
                == entry(*old(d), k),
        dictionary_keys(*old(d)).contains(key.spec_bytes()) ==> (dictionary_value(
            entry(*old(d), key.spec_bytes()),
        ) matches Some(inner) ==> dictionary_value(entry(*final(d), key.spec_bytes())) matches Some(
            inner2,
        ) && sets_entry(inner, inner2, name.spec_bytes()) && reference_value(
            entry(inner2, name.spec_bytes()),
        ) == Some(id)),
{
    if let Ok(lopdf::Object::Dictionary(inner)) = d.get_mut(key.as_bytes()) {
        inner.set(name, lopdf::Object::Reference(id));
    }
}

/// Relies on `lopdf::Document::add_object`: stores the dictionary `d` as a
/// new object numbered one past the last and returns its identifier.
#[verifier::external_body]
pub(crate) fn add_dictionary(doc: &mut lopdf::Document, d: lopdf::Dictionary) -> (r: (u32, u16))
    requires
        last_object_number(*old(doc)) < u32::MAX,
    ensures
        adds_object(*old(doc), *final(doc), r),
        dictionary_value(stored_objects(*final(doc))[r]) == Some(d),
{
    doc.add_object(d)
}

/// Relies on `lopdf::Stream::new` (which sets `Length`) and
/// `lopdf::Document::add_object`: stores a stream of `dict` and `content` as a
/// new object numbered one past the last and returns its identifier.
#[verifier::external_body]
pub(crate) fn add_stream(
    doc: &mut lopdf::Document,
    dict: lopdf::Dictionary,
    content: Vec<u8>,
) -> (r: (u32, u16))
    requires
        last_object_number(*old(doc)) < u32::MAX,
    ensures
        adds_object(*old(doc), *final(doc), r),
        stream_content(stored_objects(*final(doc))[r]) == Some(content@),
        has_stream_dictionary(stored_objects(*final(doc))[r], dict, content@.len()),
{
    doc.add_object(lopdf::Stream::new(dict, content))
}

/// Relies on `lopdf::Dictionary::get` on the trailer: the catalog's identifier,
/// when the trailer's `Root` entry is a reference.
#[verifier::external_body]
pub(crate) fn catalog_id(doc: &lopdf::Document) -> (r: Option<(u32, u16)>)
    ensures
        r == if dictionary_keys(trailer(*doc)).contains("Root".spec_bytes()) {
            reference_value(entry(trailer(*doc), "Root".spec_bytes()))
        } else {
            None
        },
{
    match doc.trailer.get(b"Root") {
        Ok(lopdf::Object::Reference(id)) => Some(*id),
        _ => None,
    }
}

/// Relies on `lopdf::Document::get_object_mut` (which follows a stored
/// reference, and returns a stored dictionary itself): when object `target`
/// is a dictionary, sets its `key` to a reference to `id`; no object is
/// added and the trailer stays.
#[verifier::external_body]
pub(crate) fn set_reference_in(
    doc: &mut lopdf::Document,
    target: (u32, u16),
    key: &str,
    id: (u32, u16),
)
    ensures
        last_object_number(*final(doc)) == last_object_number(*old(doc)),
        stored_objects(*final(doc)).dom() == stored_objects(*old(doc)).dom(),
        trailer(*final(doc)) == trailer(*old(doc)),
        stored_objects(*old(doc)).contains_key(target) && dictionary_value(
            stored_objects(*old(doc))[target],
        ) is Some ==> (dictionary_value(stored_objects(*final(doc))[target]) matches Some(d2)
            && sets_entry(
            dictionary_value(stored_objects(*old(doc))[target])->Some_0,
            d2,
            key.spec_bytes(),
        ) && reference_value(entry(d2, key.spec_bytes())) == Some(id) && forall|other: (u32, u16)|
            other != target && #[trigger] stored_objects(*old(doc)).contains_key(other)
                ==> stored_objects(*final(doc))[other] == stored_objects(*old(doc))[other]),
{
    if let Ok(lopdf::Object::Dictionary(d)) = doc.get_object_mut(target) {
        d.set(key, lopdf::Object::Reference(id));
    }
}

/// Relies on `lopdf::Document::get_object`: nothing when `id` is not
/// stored; otherwise the stored object with stored references followed
/// (never a reference), or nothing when that chain breaks.
#[verifier::external_body]
pub(crate) fn source_object(doc: &lopdf::Document, id: (u32, u16)) -> (r: Option<lopdf::Object>)
    ensures
        r == resolved(*doc, id),
        !stored_objects(*doc).contains_key(id) ==> r is None,
        r matches Some(x) ==> reference_value(x) is None,
        stored_objects(*doc).contains_key(id) && reference_value(stored_objects(*doc)[id]) is None
            ==> r == Some(stored_objects(*doc)[id]),
{
    doc.get_object(id).ok().cloned()
}

/// Relies on `lopdf::Dictionary::get`: the value of `key` in `d`, if any.
#[verifier::external_body]
pub(crate) fn dictionary_get(d: &lopdf::Dictionary, key: &str) -> (r: Option<lopdf::Object>)
    ensures
        r == if dictionary_keys(*d).contains(key.spec_bytes()) {
            Some(entry(*d, key.spec_bytes()))
        } else {
            None
        },
{
    d.get(key.as_bytes()).ok().cloned()
}

/// Relies on the variants of `lopdf::Object` (and the entries of its
/// dictionaries, listed by `IndexMap::iter`): its kind, with the parts that a
/// copy rebuilds.
#[verifier::external_body]
pub(crate) fn shape_of(o: &lopdf::Object) -> (r: ObjectShape)
    ensures
        r matches ObjectShape::Reference(id) ==> reference_value(*o) == Some(id)
            && stream_dictionary(*o) is None,
        r matches ObjectShape::Array(items) ==> array_items(*o) == Some(items@) && reference_value(
            *o,
        ) is None && stream_dictionary(*o) is None,
        r matches ObjectShape::Dictionary(es) ==> (dictionary_value(*o) matches Some(d)
            && lists_entries(es@, d)) && reference_value(*o) is None && array_items(*o) is None
            && stream_dictionary(*o) is None,
        r matches ObjectShape::Stream(es, c) ==> (stream_dictionary(*o) matches Some(d)
            && lists_entries(es@, d)) && stream_content(*o) == Some(c@),
        r matches ObjectShape::Leaf(x) ==> x == *o && reference_value(*o) is None && array_items(
            *o,
        ) is None && dictionary_value(*o) is None && stream_dictionary(*o) is None,
        reference_value(*o) is Some ==> r is Reference,
        array_items(*o) is Some ==> r is Array,
        dictionary_value(*o) is Some ==> r is Dictionary,
        stream_dictionary(*o) is Some ==> r is Stream,
{
    match o {
        lopdf::Object::Reference(id) => ObjectShape::Reference(*id),
        lopdf::Object::Dictionary(d) => ObjectShape::Dictionary(
            d.iter().map(|(k, v)| (k.clone(), v.clone())).collect(),
        ),
        lopdf::Object::Array(items) => ObjectShape::Array(items.clone()),
        lopdf::Object::Stream(s) => ObjectShape::Stream(
            s.dict.iter().map(|(k, v)| (k.clone(), v.clone())).collect(),
            s.content.clone(),
        ),
        other => ObjectShape::Leaf(other.clone()),
    }
}

/// Relies on `lopdf::Object::Null`: the null object.
#[verifier::external_body]
pub(crate) fn null_object() -> (r: lopdf::Object)
    ensures
        is_null(r),
        reference_value(r) is None,
        array_items(r) is None,
        dictionary_value(r) is None,
        stream_dictionary(r) is None,
{
    lopdf::Object::Null
}

/// Relies on `lopdf::Object::Reference`: a reference to `id`.
#[verifier::external_body]
pub(crate) fn reference_object(id: (u32, u16)) -> (r: lopdf::Object)
    ensures
        reference_value(r) == Some(id),
        stream_dictionary(r) is None,
{
    lopdf::Object::Reference(id)
}

/// Relies on `lopdf::Object::Array`: an array of `items`.
#[verifier::external_body]
pub(crate) fn array_object(items: Vec<lopdf::Object>) -> (r: lopdf::Object)
    ensures
        array_items(r) == Some(items@),
        reference_value(r) is None,
        stream_dictionary(r) is None,
{
    lopdf::Object::Array(items)
}

/// Relies on `lopdf::Object::Dictionary`: the dictionary `d` as an object.
#[verifier::external_body]
pub(crate) fn dictionary_object(d: lopdf::Dictionary) -> (r: lopdf::Object)
    ensures
        dictionary_value(r) == Some(d),
        reference_value(r) is None,
        array_items(r) is None,
        stream_dictionary(r) is None,
{
    lopdf::Object::Dictionary(d)
}

/// Relies on `lopdf::content::Operation::new`: the operator `operator` with
/// `operands`.
#[verifier::external_body]
pub(crate) fn new_operation(
    operator: &str,
    operands: Vec<lopdf::Object>,
) -> lopdf::content::Operation {
    lopdf::content::Operation::new(operator, operands)
}

/// Relies on `lopdf::Object::Name`: the name `/name`.
#[verifier::external_body]
pub(crate) fn name_object(name: &str) -> (r: lopdf::Object)
    ensures
        name_value(r) == Some(name.spec_bytes()),
{
    lopdf::Object::Name(name.as_bytes().to_vec())
}

/// Relies on `lopdf::Object::string_literal`: the literal string `(text)`.
#[verifier::external_body]
pub(crate) fn text_object(text: &str) -> lopdf::Object {
    lopdf::Object::string_literal(text.as_bytes().to_vec())
}

/// Relies on `lopdf::content::Content::encode`: the bytes of a content stream
/// holding `ops`; its writes go to a `Vec` and do not fail.
#[verifier::external_body]
pub(crate) fn encode_operations(ops: Vec<lopdf::content::Operation>) -> (r: Option<Vec<u8>>)
    ensures
        r is Some,
{
    lopdf::content::Content { operations: ops }.encode().ok()
}

/// Relies on `lopdf::Object::Integer`: the integer `value`.
#[verifier::external_body]
pub(crate) fn integer(value: i64) -> (r: lopdf::Object)
    ensures
        integer_value(r) == Some(value),
{
    lopdf::Object::Integer(value)
}

/// Relies on `lopdf::Object::Array`: an array of the integers `values`.
#[verifier::external_body]
pub(crate) fn integer_array(values: &Vec<i64>) -> (r: lopdf::Object)
    ensures
        is_integer_array(r, values@),
{
    lopdf::Object::Array(values.iter().map(|v| lopdf::Object::Integer(*v)).collect())
}

} // verus!
