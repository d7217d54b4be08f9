//! The operator sequence that places embedded pages, and the checks and names
//! around it.

use vstd::prelude::*;
use crate::content::{Op, OpView, Operand, bare, copy_operands};
use crate::layout::GridFillOrder;
use crate::naming::{numbered, numbered_name};
use crate::pdf;
use crate::copy::ObjectShape;
use crate::pdf::{
    dictionary_keys, entry, reference_value, resolved,
    adds_object, dictionary_entries, integer_value, is_integer_array, last_object_number,
    name_value, stored_objects, stream_content, stream_dictionary,
};
use vstd::string::*;

verus! {

/// Why an embedding failed.
#[derive(Debug, Clone, PartialEq, Eq, Structural)]
pub enum EmbedError {
    /// No document was loaded under the given identifier.
    NotLoaded,
    /// The selection names a page that the source document does not have.
    PageNotFound(usize),
}

/// Fails with `PageNotFound` for the first selected page that the source
/// document (of `total_pages` pages) does not have; the whole embedding is
/// refused rather than the page dropped.
pub fn check_pages(pages: &Vec<usize>, total_pages: usize) -> (r: Result<(), EmbedError>)
    ensures
        r is Ok <==> forall|i: int| 0 <= i < pages@.len() ==> pages@[i] < total_pages,
        r matches Err(e) ==> exists|i: int|
            0 <= i < pages@.len() && pages@[i] >= total_pages && e == EmbedError::PageNotFound(
                pages@[i],
            ) && forall|j: int| 0 <= j < i ==> pages@[j] < total_pages,
{
    let mut i: usize = 0;
    while i < pages.len()
        invariant
            i <= pages@.len(),
            forall|j: int| 0 <= j < i ==> pages@[j] < total_pages,
        decreases pages@.len() - i,
    {
        if pages[i] >= total_pages {
            return Err(EmbedError::PageNotFound(pages[i]));
        }
        i = i + 1;
    }
    Ok(())
}

/// Row and column of the `index`-th placed page in a grid. Under
/// `ColumnFirst` the `columns` parameter bounds the number of rows.
pub open spec fn grid_cell_spec(index: nat, columns: nat, order: GridFillOrder) -> (nat, nat) {
    match order {
        GridFillOrder::RowFirst => (index / columns, index % columns),
        GridFillOrder::ColumnFirst => (index % columns, index / columns),
    }
}

/// Row and column of the `index`-th placed page in a grid of `columns`.
pub fn grid_cell(index: usize, columns: usize, order: GridFillOrder) -> (r: (usize, usize))
    requires
        columns > 0,
    ensures
        (r.0 as nat, r.1 as nat) == grid_cell_spec(index as nat, columns as nat, order),
{
    match order {
        GridFillOrder::RowFirst => (index / columns, index % columns),
        GridFillOrder::ColumnFirst => (index % columns, index / columns),
    }
}

/// The counter behind the names of embedded page objects.
pub struct ResourceCounter {
    pub count: usize,
}

impl ResourceCounter {
    /// A counter that has handed out no name.
    pub fn new() -> (r: ResourceCounter)
        ensures
            r.count == 0,
    {
        ResourceCounter { count: 0 }
    }

    /// Advances the counter and returns the next name, `XO1` first.
    pub fn next_name(&mut self) -> (r: String)
        requires
            old(self).count < usize::MAX,
        ensures
            final(self).count == old(self).count + 1,
            r@ == numbered("XO"@, final(self).count as nat),
    {
        self.count = self.count + 1;
        numbered_name("XO", self.count)
    }
}

/// Width of the page size used when a page's box is missing or unreadable.
pub const DEFAULT_PAGE_WIDTH: i64 = 595;

/// Height of the page size used when a page's box is missing or unreadable.
pub const DEFAULT_PAGE_HEIGHT: i64 = 842;

/// The box `[0 0 595 842]`, for pages whose own box is missing or unreadable.
pub fn default_media_box() -> (r: lopdf::Object)
    ensures
        is_integer_array(r, seq![0i64, 0, DEFAULT_PAGE_WIDTH, DEFAULT_PAGE_HEIGHT]),
{
    let mut corners: Vec<i64> = Vec::new();
    corners.push(0);
    corners.push(0);
    corners.push(DEFAULT_PAGE_WIDTH);
    corners.push(DEFAULT_PAGE_HEIGHT);
    assert(corners@ =~= seq![0i64, 0, DEFAULT_PAGE_WIDTH, DEFAULT_PAGE_HEIGHT]);
    pdf::integer_array(&corners)
}

/// The box of a page of `source`: its `MediaBox` entry, followed into
/// `source` when it is a reference; `[0 0 595 842]` when the entry is
/// missing or the reference does not resolve.
pub fn media_box_or_default(page: &lopdf::Dictionary, source: &lopdf::Document) -> (r:
    lopdf::Object)
    ensures
        !dictionary_keys(*page).contains("MediaBox".spec_bytes()) ==> is_integer_array(
            r,
            seq![0i64, 0, DEFAULT_PAGE_WIDTH, DEFAULT_PAGE_HEIGHT],
        ),
        dictionary_keys(*page).contains("MediaBox".spec_bytes()) ==> {
            let m = entry(*page, "MediaBox".spec_bytes());
            match reference_value(m) {
                Some(id) => match resolved(*source, id) {
                    Some(x) => r == x,
                    None => is_integer_array(
                        r,
                        seq![0i64, 0, DEFAULT_PAGE_WIDTH, DEFAULT_PAGE_HEIGHT],
                    ),
                },
                None => r == m,
            }
        },
{
    match pdf::dictionary_get(page, "MediaBox") {
        Some(m) => match pdf::shape_of(&m) {
            ObjectShape::Reference(id) => match pdf::source_object(source, id) {
                Some(actual) => actual,
                None => default_media_box(),
            },
            _ => m,
        },
        None => default_media_box(),
    }
}

/// The key bytes of a page's form object.
pub open spec fn form_keys() -> Set<Seq<u8>> {
    set![
        "Type".spec_bytes(),
        "Subtype".spec_bytes(),
        "BBox".spec_bytes(),
        "Resources".spec_bytes(),
        "Matrix".spec_bytes(),
        "Length".spec_bytes(),
    ]
}

/// `o` is the form object of a page: a stream of `content` whose dictionary
/// holds exactly `/Type /XObject`, `/Subtype /Form`, `/BBox media_box`,
/// `/Resources resources`, `/Matrix [1 0 0 1 0 0]` and the content's
/// `/Length`.
pub open spec fn is_page_form(
    o: lopdf::Object,
    media_box: lopdf::Object,
    resources: lopdf::Object,
    content: Seq<u8>,
) -> bool {
    &&& stream_content(o) == Some(content)
    &&& stream_dictionary(o) matches Some(sd) && {
        let e = dictionary_entries(sd);
        &&& e.dom() == form_keys()
        &&& name_value(e["Type".spec_bytes()]) == Some("XObject".spec_bytes())
        &&& name_value(e["Subtype".spec_bytes()]) == Some("Form".spec_bytes())
        &&& e["BBox".spec_bytes()] == media_box
        &&& e["Resources".spec_bytes()] == resources
        &&& is_integer_array(e["Matrix".spec_bytes()], seq![1i64, 0, 0, 1, 0, 0])
        &&& integer_value(e["Length".spec_bytes()]) == Some(content.len() as i64)
    }
}

pub(crate) proof fn lemma_form_keys_distinct()
    ensures
        "Type".spec_bytes() != "Subtype".spec_bytes(),
        "Type".spec_bytes() != "BBox".spec_bytes(),
        "Type".spec_bytes() != "Resources".spec_bytes(),
        "Type".spec_bytes() != "Matrix".spec_bytes(),
        "Type".spec_bytes() != "Length".spec_bytes(),
        "Subtype".spec_bytes() != "BBox".spec_bytes(),
        "Subtype".spec_bytes() != "Resources".spec_bytes(),
        "Subtype".spec_bytes() != "Matrix".spec_bytes(),
        "Subtype".spec_bytes() != "Length".spec_bytes(),
        "BBox".spec_bytes() != "Resources".spec_bytes(),
        "BBox".spec_bytes() != "Matrix".spec_bytes(),
        "BBox".spec_bytes() != "Length".spec_bytes(),
        "Resources".spec_bytes() != "Matrix".spec_bytes(),
        "Resources".spec_bytes() != "Length".spec_bytes(),
        "Matrix".spec_bytes() != "Length".spec_bytes(),
{
    broadcast use vstd::string::is_ascii_spec_bytes;

    reveal_strlit("Type");
    reveal_strlit("Subtype");
    reveal_strlit("BBox");
    reveal_strlit("Resources");
    reveal_strlit("Matrix");
    reveal_strlit("Length");
    assert(is_ascii("Type"));
    assert(is_ascii("Subtype"));
    assert(is_ascii("BBox"));
    assert(is_ascii("Resources"));
    assert(is_ascii("Matrix"));
    assert("Type".spec_bytes()[0] == 84u8);
    assert("Subtype".spec_bytes()[0] == 83u8);
    assert("BBox".spec_bytes()[0] == 66u8);
    assert("Resources".spec_bytes()[0] == 82u8);
    assert("Matrix".spec_bytes()[0] == 77u8);
    assert(is_ascii("Length"));
    assert("Length".spec_bytes()[0] == 76u8);
}

/// Writes a page of another document into `doc` as a form object: the
/// page's box, its resources (already copied into `doc`), the identity
/// matrix, and its content bytes. Returns the new object.
pub fn add_page_xobject(
    doc: &mut lopdf::Document,
    media_box: lopdf::Object,
    resources: lopdf::Object,
    content: Vec<u8>,
) -> (r: (u32, u16))
    requires
        last_object_number(*old(doc)) < u32::MAX,
    ensures
        adds_object(*old(doc), *final(doc), r),
        is_page_form(stored_objects(*final(doc))[r], media_box, resources, content@),
{
    proof {
        lemma_form_keys_distinct();
    }
    let ghost bbox = media_box;
    let ghost res = resources;
    let mut dict = pdf::new_dictionary();
    pdf::set_name(&mut dict, "Type", "XObject");
    pdf::set_name(&mut dict, "Subtype", "Form");
    pdf::set_object(&mut dict, "BBox", media_box);
    pdf::set_object(&mut dict, "Resources", resources);
    let mut identity: Vec<i64> = Vec::new();
    identity.push(1);
    identity.push(0);
    identity.push(0);
    identity.push(1);
    identity.push(0);
    identity.push(0);
    assert(identity@ =~= seq![1i64, 0, 0, 1, 0, 0]);
    pdf::set_object(&mut dict, "Matrix", pdf::integer_array(&identity));
    let ghost len = content@.len();
    let r = pdf::add_stream(doc, dict, content);
    proof {
        let sd = stream_dictionary(stored_objects(*doc)[r])->Some_0;
        let e = dictionary_entries(sd);
        assert(e.dom() =~= form_keys());
    }
    r
}

/// One page to place: the resource name of its object and its matrix operands.
pub struct Placement {
    pub name: String,
    pub matrix: Vec<Operand>,
}

/// The four operators that draw one placed page: save the state, concatenate
/// the matrix, draw the object, restore the state.
pub open spec fn placement_view(p: Placement) -> Seq<OpView> {
    seq![
        bare("q"@),
        ("cm"@, p.matrix@),
        ("Do"@, seq![Operand::Name(p.name)]),
        bare("Q"@),
    ]
}

/// The operators for all placements, in order.
pub open spec fn placements_view(ps: Seq<Placement>) -> Seq<OpView>
    decreases ps.len(),
{
    if ps.len() == 0 {
        Seq::empty()
    } else {
        placements_view(ps.drop_last()) + placement_view(ps.last())
    }
}

/// The full sequence: the placements, wrapped once in a clip to the rectangle
/// `clip` when one is given.
pub open spec fn embed_view(ps: Seq<Placement>, clip: Option<Seq<Operand>>) -> Seq<OpView> {
    match clip {
        None => placements_view(ps),
        Some(rect) => seq![bare("q"@), ("re"@, rect), bare("W"@), bare("n"@)] + placements_view(
            ps,
        ) + seq![bare("Q"@)],
    }
}

/// The operators that draw one placed page.
pub fn placement_ops(p: &Placement) -> (r: Vec<Op>)
    ensures
        crate::content::ops_view(r@) == placement_view(*p),
{
    let mut r: Vec<Op> = Vec::new();
    r.push(Op::bare("q"));
    r.push(Op::new("cm", copy_operands(&p.matrix)));
    let mut name_operand: Vec<Operand> = Vec::new();
    name_operand.push(Operand::Name(p.name.clone()));
    r.push(Op::new("Do", name_operand));
    r.push(Op::bare("Q"));
    assert(crate::content::ops_view(r@) =~= placement_view(*p));
    r
}

/// The operators that draw every placement in order, clipped once to `clip`
/// (the operands of a rectangle) when it is given.
pub fn embed_operations(placements: &Vec<Placement>, clip: &Option<Vec<Operand>>) -> (r: Vec<Op>)
    ensures
        crate::content::ops_view(r@) == embed_view(
            placements@,
            match clip {
                Some(c) => Some(c@),
                None => None,
            },
        ),
{
    let mut r: Vec<Op> = Vec::new();
    if let Some(rect) = clip {
        r.push(Op::bare("q"));
        r.push(Op::new("re", copy_operands(rect)));
        r.push(Op::bare("W"));
        r.push(Op::bare("n"));
        assert(crate::content::ops_view(r@) =~= seq![
            bare("q"@),
            ("re"@, rect@),
            bare("W"@),
            bare("n"@),
        ]);
    }
    let ghost head = crate::content::ops_view(r@);
    let mut i: usize = 0;
    while i < placements.len()
        invariant
            i <= placements@.len(),
            crate::content::ops_view(r@) == head + placements_view(
                placements@.subrange(0, i as int),
            ),
        decreases placements@.len() - i,
    {
        let ops = placement_ops(&placements[i]);
        let ghost before = r@;
        crate::content::extend_ops(&mut r, &ops);
        proof {
            let s = placements@.subrange(0, i as int + 1);
            assert(s.drop_last() =~= placements@.subrange(0, i as int));
        }
        i = i + 1;
    }
    assert(placements@.subrange(0, placements@.len() as int) =~= placements@);
    let ghost body = r@;
    if clip.is_some() {
        r.push(Op::bare("Q"));
        assert(crate::content::ops_view(r@) =~= crate::content::ops_view(body) + seq![
            bare("Q"@),
        ]);
    }
    proof {
        match clip {
            Some(c) => {
                assert(crate::content::ops_view(r@) =~= embed_view(placements@, Some(c@)));
            },
            None => {
                assert(head =~= Seq::<OpView>::empty());
                assert(crate::content::ops_view(r@) =~= embed_view(placements@, None));
            },
        }
    }
    r
}

/// One placed page is drawn with exactly four operators (save, matrix, draw,
/// restore); a clip rectangle adds, once, a save, the rectangle, the clip and
/// an end-of-path before them and a restore after them.
pub proof fn lemma_single_placement_operators(p: Placement, rect: Seq<Operand>)
    ensures
        embed_view(seq![p], None) == placement_view(p),
        embed_view(seq![p], None).len() == 4,
        embed_view(seq![p], Some(rect)) == seq![bare("q"@), ("re"@, rect), bare("W"@), bare("n"@)]
            + placement_view(p) + seq![bare("Q"@)],
        embed_view(seq![p], Some(rect)).len() == 9,
{
    assert(seq![p].drop_last() =~= Seq::<Placement>::empty());
    assert(seq![p].last() == p);
    assert(placements_view(Seq::<Placement>::empty()) == Seq::<OpView>::empty());
    assert(placements_view(seq![p]) =~= placement_view(p));
}

/// Each placement takes four operators: `n` placements take `4 * n`.
pub proof fn lemma_placements_length(ps: Seq<Placement>)
    ensures
        placements_view(ps).len() == 4 * ps.len(),
    decreases ps.len(),
{
    if ps.len() > 0 {
        lemma_placements_length(ps.drop_last());
    }
}

/// `n` placements are drawn with `4 * n` operators, and with `4 * n + 5`
/// when a clip rectangle wraps them.
pub proof fn lemma_operator_count(ps: Seq<Placement>, rect: Seq<Operand>)
    ensures
        embed_view(ps, None).len() == 4 * ps.len(),
        embed_view(ps, Some(rect)).len() == 4 * ps.len() + 5,
{
    lemma_placements_length(ps);
}

} // verus!
