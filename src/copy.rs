//! Deep copies of objects from one document into another, so that nothing
//! in the copy refers into the source document's objects.

use vstd::prelude::*;
use crate::pdf;
use crate::pdf::{
    adds_object, array_items, dictionary_entries, dictionary_value, has_stream_dictionary, is_null,
    last_object_number, lists_entries, reference_value, resolved, stored_objects, stream_content,
    stream_dictionary,
};
use crate::document::object_numbers_left;

verus! {

/// The kind of a lopdf object, with the parts a copy rebuilds.
pub enum ObjectShape {
    /// A reference to another object.
    Reference((u32, u16)),
    /// A dictionary's entries, in order.
    Dictionary(Vec<(Vec<u8>, lopdf::Object)>),
    /// An array's items.
    Array(Vec<lopdf::Object>),
    /// A stream's dictionary entries and its content bytes.
    Stream(Vec<(Vec<u8>, lopdf::Object)>, Vec<u8>),
    /// Any other object: null, boolean, number, name or string.
    Leaf(lopdf::Object),
}

/// Marks the values an existential claim is met with.
pub open spec fn picked<A, B>(a: A, b: B) -> bool {
    true
}

/// What a copy reads and changes of the target: its objects and the number
/// of the last one.
pub type TargetState = (Map<(u32, u16), lopdf::Object>, u32);

/// The state of `doc` as a target.
pub open spec fn state(doc: lopdf::Document) -> TargetState {
    (stored_objects(doc), last_object_number(doc))
}

/// `r` is the copy of `o` (an object of `src`) made with `fuel` levels, the
/// target going from `s0` to `s1`:
/// - with no fuel left, null, and the target unchanged;
/// - a stream: its dictionary copied, then, when a number is left, a
///   reference to one new object holding the stream's content under that
///   dictionary (null otherwise);
/// - a reference: the copy of the object it resolves to, or null when it does
///   not resolve;
/// - an array: an array of the copies of its items, in order;
/// - a dictionary: a dictionary of the same keys, each value copied;
/// - anything else: itself, the target unchanged.
pub open spec fn is_copy(
    src: lopdf::Document,
    o: lopdf::Object,
    r: lopdf::Object,
    s0: TargetState,
    s1: TargetState,
    fuel: nat,
) -> bool
    decreases fuel, 4nat,
{
    if fuel == 0 {
        is_null(r) && s1 == s0
    } else if let Some(sd) = stream_dictionary(o) {
        stream_copied(src, o, sd, r, s0, s1, fuel)
    } else if let Some(id) = reference_value(o) {
        match resolved(src, id) {
            Some(x) => is_copy(src, x, r, s0, s1, (fuel - 1) as nat),
            None => is_null(r) && s1 == s0,
        }
    } else if let Some(items) = array_items(o) {
        array_copy(src, items, r, s0, s1, fuel)
    } else if let Some(d) = dictionary_value(o) {
        dictionary_value(r) matches Some(d2) && dict_copy(src, d, d2, s0, s1, fuel)
    } else {
        r == o && s1 == s0
    }
}

/// The stream `o` with dictionary `sd` is copied as `r`, through some copy
/// of its dictionary.
pub open spec fn stream_copied(
    src: lopdf::Document,
    o: lopdf::Object,
    sd: lopdf::Dictionary,
    r: lopdf::Object,
    s0: TargetState,
    s1: TargetState,
    fuel: nat,
) -> bool
    decreases fuel, 3nat,
{
    exists|d2: lopdf::Dictionary, mid: TargetState|
        #[trigger] picked(d2, mid) && stream_copy(src, o, sd, d2, r, s0, mid, s1, fuel)
}

/// `r` is an array of the copies of `items`, in order.
pub open spec fn array_copy(
    src: lopdf::Document,
    items: Seq<lopdf::Object>,
    r: lopdf::Object,
    s0: TargetState,
    s1: TargetState,
    fuel: nat,
) -> bool
    decreases fuel, 3nat,
{
    array_items(r) matches Some(copies) && copies.len() == items.len() && exists|
        ts: Seq<TargetState>,
    | #[trigger] picked(ts, copies) && items_chain(src, items, copies, ts, s0, s1, fuel)
}

/// The stream `o` with dictionary `sd` copied as `r`: `sd` copied to `d2`
/// (the target going to `mid`), then a new object or null.
pub open spec fn stream_copy(
    src: lopdf::Document,
    o: lopdf::Object,
    sd: lopdf::Dictionary,
    d2: lopdf::Dictionary,
    r: lopdf::Object,
    s0: TargetState,
    mid: TargetState,
    s1: TargetState,
    fuel: nat,
) -> bool
    decreases fuel, 2nat,
{
    &&& dict_copy(src, sd, d2, s0, mid, fuel)
    &&& if mid.1 < u32::MAX {
        let id = ((mid.1 + 1) as u32, 0u16);
        &&& reference_value(r) == Some(id)
        &&& s1.1 == id.0
        &&& s1.0.contains_key(id)
        &&& s1.0 == mid.0.insert(id, s1.0[id])
        &&& stream_content(s1.0[id]) == stream_content(o)
        &&& has_stream_dictionary(s1.0[id], d2, stream_content(o)->Some_0.len())
    } else {
        is_null(r) && s1 == mid
    }
}

/// `d2` holds the keys of `d`, each value the copy of `d`'s value, made one
/// after the other in some order of the keys.
pub open spec fn dict_copy(
    src: lopdf::Document,
    d: lopdf::Dictionary,
    d2: lopdf::Dictionary,
    s0: TargetState,
    s1: TargetState,
    fuel: nat,
) -> bool
    decreases fuel, 1nat,
{
    &&& dictionary_entries(d2).dom() == dictionary_entries(d).dom()
    &&& exists|ks: Seq<Seq<u8>>, ts: Seq<TargetState>|
        #[trigger] picked(ks, ts) && entries_chain(src, d, d2, ks, ts, s0, s1, fuel)
}

/// The values of `d` under the keys `ks`, in order, are copied into those of
/// `d2`, the target passing through the states `ts`.
pub open spec fn entries_chain(
    src: lopdf::Document,
    d: lopdf::Dictionary,
    d2: lopdf::Dictionary,
    ks: Seq<Seq<u8>>,
    ts: Seq<TargetState>,
    s0: TargetState,
    s1: TargetState,
    fuel: nat,
) -> bool
    decreases fuel, 0nat,
{
    &&& fuel > 0
    &&& ks.no_duplicates()
    &&& ks.to_set() == dictionary_entries(d).dom()
    &&& ts.len() == ks.len() + 1
    &&& ts[0] == s0
    &&& ts[ks.len() as int] == s1
    &&& forall|i: int|
        0 <= i < ks.len() ==> is_copy(
            src,
            dictionary_entries(d)[#[trigger] ks[i]],
            dictionary_entries(d2)[ks[i]],
            ts[i],
            ts[i + 1],
            (fuel - 1) as nat,
        )
}

/// `copies` are the copies of `items`, in order, the target passing through
/// the states `ts`.
pub open spec fn items_chain(
    src: lopdf::Document,
    items: Seq<lopdf::Object>,
    copies: Seq<lopdf::Object>,
    ts: Seq<TargetState>,
    s0: TargetState,
    s1: TargetState,
    fuel: nat,
) -> bool
    decreases fuel, 0nat,
{
    &&& fuel > 0
    &&& ts.len() == items.len() + 1
    &&& ts[0] == s0
    &&& ts[items.len() as int] == s1
    &&& forall|i: int|
        0 <= i < items.len() ==> is_copy(
            src,
            #[trigger] items[i],
            copies[i],
            ts[i],
            ts[i + 1],
            (fuel - 1) as nat,
        )
}

fn copy_entries(
    source: &lopdf::Document,
    target: &mut lopdf::Document,
    entries: &Vec<(Vec<u8>, lopdf::Object)>,
    Ghost(d): Ghost<lopdf::Dictionary>,
    fuel: usize,
) -> (r: lopdf::Dictionary)
    requires
        fuel > 0,
        lists_entries(entries@, d),
    ensures
        dict_copy(*source, d, r, state(*old(target)), state(*final(target)), fuel as nat),
    decreases fuel, 0nat,
{
    let ghost ks = entries@.map_values(|e: (Vec<u8>, lopdf::Object)| e.0@);
    let ghost mut ts: Seq<TargetState> = seq![state(*target)];
    let mut nd = pdf::new_dictionary();
    let mut i: usize = 0;
    assert(dictionary_entries(nd).dom() =~= ks.subrange(0, 0).to_set());
    while i < entries.len()
        invariant
            fuel > 0,
            lists_entries(entries@, d),
            ks == entries@.map_values(|e: (Vec<u8>, lopdf::Object)| e.0@),
            i <= entries@.len(),
            ts.len() == i + 1,
            ts[0] == state(*old(target)),
            ts[i as int] == state(*target),
            dictionary_entries(nd).dom() == ks.subrange(0, i as int).to_set(),
            forall|j: int|
                0 <= j < i ==> is_copy(
                    *source,
                    dictionary_entries(d)[#[trigger] ks[j]],
                    dictionary_entries(nd)[ks[j]],
                    ts[j],
                    ts[j + 1],
                    (fuel - 1) as nat,
                ),
        decreases entries@.len() - i,
    {
        let ghost before = nd;
        let value = copy_object(source, target, &entries[i].1, fuel - 1);
        let key = entries[i].0.clone();
        assert(key@ =~= entries@[i as int].0@);
        pdf::set_entry(&mut nd, key, value);
        proof {
            let k = ks[i as int];
            assert(k == entries@[i as int].0@);
            assert(dictionary_entries(d)[k] == entries@[i as int].1);
            let ts2 = ts.push(state(*target));
            assert forall|j: int| 0 <= j < i + 1 implies is_copy(
                *source,
                dictionary_entries(d)[#[trigger] ks[j]],
                dictionary_entries(nd)[ks[j]],
                ts2[j],
                ts2[j + 1],
                (fuel - 1) as nat,
            ) by {
                if j < i {
                    assert(ks[j] != k);
                    assert(ts2[j] == ts[j] && ts2[j + 1] == ts[j + 1]);
                }
            }
            assert(dictionary_entries(nd).dom() =~= ks.subrange(0, i as int + 1).to_set()) by {
                assert(ks.subrange(0, i as int + 1) =~= ks.subrange(0, i as int).push(k));
                ks.subrange(0, i as int).lemma_push_to_set_commute(k);
            }
            ts = ts2;
        }
        i = i + 1;
    }
    proof {
        assert(ks.subrange(0, ks.len() as int) =~= ks);
        assert(picked(ks, ts));
        assert(entries_chain(
            *source,
            d,
            nd,
            ks,
            ts,
            state(*old(target)),
            state(*target),
            fuel as nat,
        ));
    }
    nd
}

/// A copy of `obj`, an object of `source`, made for `target`, as `is_copy`
/// describes it: references are followed into `source` and their objects
/// copied in their place, dictionaries and arrays are rebuilt from copies of
/// their parts, and each stream becomes a reference to one new object of
/// `target` holding its content and a copy of its dictionary. Past `fuel`
/// levels of nesting, for a reference that `source` cannot resolve, or for a
/// stream once `target` has no object number left, the copy is null.
pub fn copy_object(
    source: &lopdf::Document,
    target: &mut lopdf::Document,
    obj: &lopdf::Object,
    fuel: usize,
) -> (r: lopdf::Object)
    ensures
        is_copy(*source, *obj, r, state(*old(target)), state(*final(target)), fuel as nat),
    decreases fuel, 1nat,
{
    if fuel == 0 {
        return pdf::null_object();
    }
    match pdf::shape_of(obj) {
        ObjectShape::Reference(id) => match pdf::source_object(source, id) {
            Some(actual) => {
                let r = copy_object(source, target, &actual, fuel - 1);
                assert(is_copy(*source, *obj, r, state(*old(target)), state(*target), fuel as nat));
                r
            },
            None => pdf::null_object(),
        },
        ObjectShape::Dictionary(entries) => {
            let ghost d = dictionary_value(*obj)->Some_0;
            let d2 = copy_entries(source, target, &entries, Ghost(d), fuel);
            let r = pdf::dictionary_object(d2);
            assert(is_copy(*source, *obj, r, state(*old(target)), state(*target), fuel as nat));
            r
        },
        ObjectShape::Array(items) => {
            let ghost s0 = state(*target);
            let ghost mut ts: Seq<TargetState> = seq![state(*target)];
            let mut copies: Vec<lopdf::Object> = Vec::new();
            let mut i: usize = 0;
            while i < items.len()
                invariant
                    fuel > 0,
                    s0 == state(*old(target)),
                    i <= items@.len(),
                    copies@.len() == i,
                    ts.len() == i + 1,
                    ts[0] == s0,
                    ts[i as int] == state(*target),
                    forall|j: int|
                        0 <= j < i ==> is_copy(
                            *source,
                            #[trigger] items@[j],
                            copies@[j],
                            ts[j],
                            ts[j + 1],
                            (fuel - 1) as nat,
                        ),
                decreases items@.len() - i,
            {
                let c = copy_object(source, target, &items[i], fuel - 1);
                copies.push(c);
                proof {
                    let ts2 = ts.push(state(*target));
                    assert forall|j: int| 0 <= j < i + 1 implies is_copy(
                        *source,
                        #[trigger] items@[j],
                        copies@[j],
                        ts2[j],
                        ts2[j + 1],
                        (fuel - 1) as nat,
                    ) by {
                        if j < i {
                            assert(ts2[j] == ts[j] && ts2[j + 1] == ts[j + 1]);
                        }
                    }
                    ts = ts2;
                }
                i = i + 1;
            }
            let r = pdf::array_object(copies);
            proof {
                assert(items_chain(*source, items@, copies@, ts, s0, state(*target), fuel as nat));
                assert(array_items(r) == Some(copies@));
                assert(picked(ts, copies@));
                assert(copies@.len() == items@.len());
                assert(array_items(r)->Some_0 == copies@);
                assert(array_copy(*source, items@, r, s0, state(*target), fuel as nat));
                assert(is_copy(*source, *obj, r, state(*old(target)), state(*target), fuel as nat));
            }
            r
        },
        ObjectShape::Stream(entries, content) => {
            let ghost sd = stream_dictionary(*obj)->Some_0;
            let ghost s0 = state(*target);
            let d2 = copy_entries(source, target, &entries, Ghost(sd), fuel);
            let ghost mid = state(*target);
            let ghost d2g = d2;
            if object_numbers_left(target) == 0 {
                let r = pdf::null_object();
                proof {
                    assert(stream_copy(*source, *obj, sd, d2g, r, s0, mid, state(*target), fuel as nat));
                    assert(picked(d2g, mid));
                    assert(stream_copied(*source, *obj, sd, r, s0, state(*target), fuel as nat));
                }
                return r;
            }
            let ghost len = content@.len();
            let id = pdf::add_stream(target, d2, content);
            let r = pdf::reference_object(id);
            proof {
                assert(stream_copy(*source, *obj, sd, d2g, r, s0, mid, state(*target), fuel as nat));
                assert(picked(d2g, mid));
                assert(stream_copied(*source, *obj, sd, r, s0, state(*target), fuel as nat));
            }
            r
        },
        ObjectShape::Leaf(x) => {
            assert(is_copy(*source, *obj, x, state(*old(target)), state(*target), fuel as nat));
            x
        },
    }
}

} // verus!
