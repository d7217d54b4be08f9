//! Tiling patterns: their names, the operators that select them, and a
//! builder for the content of custom pattern cells.

use vstd::prelude::*;
use vstd::string::*;
use crate::content::{Op, OpView, bare, ops_view, is_name_op, extend_ops};
use crate::naming::{numbered, numbered_name};
use crate::ocg::ObjectId;
use crate::pdf;
use crate::pdf::{
    adds_object, dictionary_entries, dictionary_keys, dictionary_value, entry, integer_value,
    last_object_number, name_value, reference_value, stored_objects, stream_content,
    stream_dictionary,
};

verus! {

/// One cell of a tiling pattern: its `BBox` array, its horizontal and
/// vertical steps, and its content.
pub struct PatternCell {
    pub bbox: lopdf::Object,
    pub x_step: lopdf::Object,
    pub y_step: lopdf::Object,
    pub operations: Vec<Op>,
}

/// The key bytes of a tiling pattern's stream dictionary.
pub open spec fn pattern_keys() -> Set<Seq<u8>> {
    set![
        "Type".spec_bytes(),
        "PatternType".spec_bytes(),
        "PaintType".spec_bytes(),
        "TilingType".spec_bytes(),
        "BBox".spec_bytes(),
        "XStep".spec_bytes(),
        "YStep".spec_bytes(),
        "Resources".spec_bytes(),
        "Length".spec_bytes(),
    ]
}

/// `o` is a colored tiling pattern with constant spacing: a stream whose
/// dictionary holds exactly `/Type /Pattern`, `/PatternType 1`, `/PaintType
/// 1`, `/TilingType 1`, the given `/BBox`, `/XStep` and `/YStep`, empty
/// `/Resources`, and the `/Length` of its content.
pub open spec fn is_tiling_pattern(
    o: lopdf::Object,
    bbox: lopdf::Object,
    x_step: lopdf::Object,
    y_step: lopdf::Object,
) -> bool {
    &&& stream_content(o) is Some
    &&& stream_dictionary(o) matches Some(sd) && {
        let e = dictionary_entries(sd);
        &&& e.dom() == pattern_keys()
        &&& name_value(e["Type".spec_bytes()]) == Some("Pattern".spec_bytes())
        &&& integer_value(e["PatternType".spec_bytes()]) == Some(1i64)
        &&& integer_value(e["PaintType".spec_bytes()]) == Some(1i64)
        &&& integer_value(e["TilingType".spec_bytes()]) == Some(1i64)
        &&& e["BBox".spec_bytes()] == bbox
        &&& e["XStep".spec_bytes()] == x_step
        &&& e["YStep".spec_bytes()] == y_step
        &&& (dictionary_value(e["Resources".spec_bytes()]) matches Some(res) && dictionary_keys(
            res,
        ).len() == 0)
        &&& integer_value(e["Length".spec_bytes()]) == Some(stream_content(o)->Some_0.len() as i64)
    }
}

proof fn lemma_pattern_keys_distinct()
    ensures
        pattern_keys().len() == 9,
        "Type".spec_bytes() != "PatternType".spec_bytes(),
        "Type".spec_bytes() != "PaintType".spec_bytes(),
        "Type".spec_bytes() != "TilingType".spec_bytes(),
        "Type".spec_bytes() != "BBox".spec_bytes(),
        "Type".spec_bytes() != "XStep".spec_bytes(),
        "Type".spec_bytes() != "YStep".spec_bytes(),
        "Type".spec_bytes() != "Resources".spec_bytes(),
        "Type".spec_bytes() != "Length".spec_bytes(),
        "PatternType".spec_bytes() != "PaintType".spec_bytes(),
        "PatternType".spec_bytes() != "TilingType".spec_bytes(),
        "PatternType".spec_bytes() != "BBox".spec_bytes(),
        "PatternType".spec_bytes() != "XStep".spec_bytes(),
        "PatternType".spec_bytes() != "YStep".spec_bytes(),
        "PatternType".spec_bytes() != "Resources".spec_bytes(),
        "PatternType".spec_bytes() != "Length".spec_bytes(),
        "PaintType".spec_bytes() != "TilingType".spec_bytes(),
        "PaintType".spec_bytes() != "BBox".spec_bytes(),
        "PaintType".spec_bytes() != "XStep".spec_bytes(),
        "PaintType".spec_bytes() != "YStep".spec_bytes(),
        "PaintType".spec_bytes() != "Resources".spec_bytes(),
        "PaintType".spec_bytes() != "Length".spec_bytes(),
        "TilingType".spec_bytes() != "BBox".spec_bytes(),
        "TilingType".spec_bytes() != "XStep".spec_bytes(),
        "TilingType".spec_bytes() != "YStep".spec_bytes(),
        "TilingType".spec_bytes() != "Resources".spec_bytes(),
        "TilingType".spec_bytes() != "Length".spec_bytes(),
        "BBox".spec_bytes() != "XStep".spec_bytes(),
        "BBox".spec_bytes() != "YStep".spec_bytes(),
        "BBox".spec_bytes() != "Resources".spec_bytes(),
        "BBox".spec_bytes() != "Length".spec_bytes(),
        "XStep".spec_bytes() != "YStep".spec_bytes(),
        "XStep".spec_bytes() != "Resources".spec_bytes(),
        "XStep".spec_bytes() != "Length".spec_bytes(),
        "YStep".spec_bytes() != "Resources".spec_bytes(),
        "YStep".spec_bytes() != "Length".spec_bytes(),
        "Resources".spec_bytes() != "Length".spec_bytes(),
{
    broadcast use vstd::string::is_ascii_spec_bytes;

    reveal_strlit("Type");
    reveal_strlit("PatternType");
    reveal_strlit("PaintType");
    reveal_strlit("TilingType");
    reveal_strlit("BBox");
    reveal_strlit("XStep");
    reveal_strlit("YStep");
    reveal_strlit("Resources");
    reveal_strlit("Length");
    assert(is_ascii("Type"));
    assert(is_ascii("PatternType"));
    assert(is_ascii("PaintType"));
    assert(is_ascii("TilingType"));
    assert(is_ascii("BBox"));
    assert(is_ascii("XStep"));
    assert(is_ascii("YStep"));
    assert(is_ascii("Resources"));
    assert(is_ascii("Length"));
    assert("Type".spec_bytes()[0] == 84u8 && "Type".spec_bytes()[1] == 121u8);
    assert("PatternType".spec_bytes()[0] == 80u8 && "PatternType".spec_bytes()[2] == 116u8);
    assert("PaintType".spec_bytes()[0] == 80u8 && "PaintType".spec_bytes()[2] == 105u8);
    assert("TilingType".spec_bytes()[0] == 84u8 && "TilingType".spec_bytes()[1] == 105u8);
    assert("BBox".spec_bytes()[0] == 66u8);
    assert("XStep".spec_bytes()[0] == 88u8);
    assert("YStep".spec_bytes()[0] == 89u8);
    assert("Resources".spec_bytes()[0] == 82u8);
    assert("Length".spec_bytes()[0] == 76u8);
    assert(pattern_keys().len() == 9);
}

/// Hands out the names of the patterns of one document.
pub struct HatchingManager {
    pattern_counter: usize,
}

impl Default for HatchingManager {
    /// A manager that has named no pattern.
    fn default() -> (r: HatchingManager)
        ensures
            r.count() == 0,
    {
        HatchingManager::new()
    }
}

impl HatchingManager {
    /// How many pattern names have been handed out.
    pub closed spec fn count(&self) -> nat {
        self.pattern_counter as nat
    }

    /// A manager that has named no pattern.
    pub fn new() -> (r: HatchingManager)
        ensures
            r.count() == 0,
    {
        HatchingManager { pattern_counter: 0 }
    }

    /// How many pattern names have been handed out.
    pub fn pattern_count(&self) -> (r: usize)
        ensures
            r == self.count(),
    {
        self.pattern_counter
    }

    /// The name of the next pattern: `P` and the new count.
    pub fn next_pattern_name(&mut self) -> (r: String)
        requires
            old(self).count() < usize::MAX,
        ensures
            final(self).count() == old(self).count() + 1,
            r@ == numbered("P"@, final(self).count()),
    {
        self.pattern_counter = self.pattern_counter + 1;
        numbered_name("P", self.pattern_counter)
    }

    /// Writes `cell` into `doc` as a colored tiling pattern with constant
    /// spacing, under the next pattern name; returns the pattern's object and
    /// name.
    pub fn add_pattern(&mut self, doc: &mut lopdf::Document, cell: PatternCell) -> (r: (
        ObjectId,
        String,
    ))
        requires
            old(self).count() < usize::MAX,
            last_object_number(*old(doc)) < u32::MAX,
        ensures
            final(self).count() == old(self).count() + 1,
            r.1@ == numbered("P"@, final(self).count()),
            adds_object(*old(doc), *final(doc), r.0),
            is_tiling_pattern(stored_objects(*final(doc))[r.0], cell.bbox, cell.x_step, cell.y_step),
    {
        proof {
            lemma_pattern_keys_distinct();
        }
        let ghost bbox = cell.bbox;
        let ghost xs = cell.x_step;
        let ghost ys = cell.y_step;
        let name = self.next_pattern_name();
        let mut dict = pdf::new_dictionary();
        pdf::set_name(&mut dict, "Type", "Pattern");
        pdf::set_object(&mut dict, "PatternType", pdf::integer(1));
        pdf::set_object(&mut dict, "PaintType", pdf::integer(1));
        pdf::set_object(&mut dict, "TilingType", pdf::integer(1));
        pdf::set_object(&mut dict, "BBox", cell.bbox);
        pdf::set_object(&mut dict, "XStep", cell.x_step);
        pdf::set_object(&mut dict, "YStep", cell.y_step);
        pdf::set_dictionary(&mut dict, "Resources", pdf::new_dictionary());
        let content = crate::content::encode(&cell.operations);
        let id = pdf::add_stream(doc, dict, content);
        proof {
            let sd = stream_dictionary(stored_objects(*doc)[id])->Some_0;
            assert(dictionary_entries(sd).dom() =~= pattern_keys());
        }
        (id, name)
    }

    /// Lists the pattern `id` under `pattern_name` in the `Pattern` entry of
    /// `resources`, adding an empty entry first when there is none.
    pub fn add_pattern_to_resources(
        &self,
        resources: &mut lopdf::Dictionary,
        pattern_name: &str,
        pattern_id: ObjectId,
    )
        ensures
            dictionary_keys(*final(resources)) == dictionary_keys(*old(resources)).insert(
                "Pattern".spec_bytes(),
            ),
            !dictionary_keys(*old(resources)).contains("Pattern".spec_bytes()) || dictionary_value(
                entry(*old(resources), "Pattern".spec_bytes()),
            ) is Some ==> (dictionary_value(entry(*final(resources), "Pattern".spec_bytes()))
                matches Some(p) && reference_value(entry(p, pattern_name.spec_bytes())) == Some(
                pattern_id,
            )),
    {
        if !pdf::has_key(resources, "Pattern") {
            pdf::set_dictionary(resources, "Pattern", pdf::new_dictionary());
        } else {
            assert(dictionary_keys(*resources) =~= dictionary_keys(*resources).insert(
                "Pattern".spec_bytes(),
            ));
        }
        pdf::set_reference_under(resources, "Pattern", pattern_name, pattern_id);
    }
}

/// Operators that paint with a pattern.
pub struct PatternOperations;

impl PatternOperations {
    /// Selects the pattern color space for filling: `/Pattern cs`.
    pub fn set_pattern_fill_colorspace() -> (r: Op)
        ensures
            is_name_op(r@, "cs"@, "Pattern"@),
    {
        Op::with_name("cs", "Pattern")
    }

    /// Selects the pattern color space for stroking: `/Pattern CS`.
    pub fn set_pattern_stroke_colorspace() -> (r: Op)
        ensures
            is_name_op(r@, "CS"@, "Pattern"@),
    {
        Op::with_name("CS", "Pattern")
    }

    /// Fills with the pattern `pattern_name`: `/name scn`.
    pub fn set_fill_pattern(pattern_name: &str) -> (r: Op)
        ensures
            is_name_op(r@, "scn"@, pattern_name@),
    {
        Op::with_name("scn", pattern_name)
    }

    /// Strokes with the pattern `pattern_name`: `/name SCN`.
    pub fn set_stroke_pattern(pattern_name: &str) -> (r: Op)
        ensures
            is_name_op(r@, "SCN"@, pattern_name@),
    {
        Op::with_name("SCN", pattern_name)
    }
}

/// Builds the content of a pattern cell. Path segments wait in a pending
/// path until a painting operator takes them; transforms nest.
pub struct CustomPatternBuilder {
    operations: Vec<Op>,
    current_path: Vec<Op>,
    transform_depth: usize,
}

impl Default for CustomPatternBuilder {
    /// An empty builder.
    fn default() -> (r: CustomPatternBuilder)
        ensures
            r.ops_spec().len() == 0,
            r.path_spec().len() == 0,
            r.depth() == 0,
    {
        CustomPatternBuilder::new()
    }
}

impl CustomPatternBuilder {
    /// The operators written so far.
    pub closed spec fn ops_spec(&self) -> Seq<OpView> {
        ops_view(self.operations@)
    }

    /// The pending path segments.
    pub closed spec fn path_spec(&self) -> Seq<OpView> {
        ops_view(self.current_path@)
    }

    /// How many pushed transforms are still open.
    pub closed spec fn depth(&self) -> nat {
        self.transform_depth as nat
    }

    /// An empty builder.
    pub fn new() -> (r: CustomPatternBuilder)
        ensures
            r.ops_spec().len() == 0,
            r.path_spec().len() == 0,
            r.depth() == 0,
    {
        let r = CustomPatternBuilder {
            operations: Vec::new(),
            current_path: Vec::new(),
            transform_depth: 0,
        };
        assert(r.ops_spec() =~= Seq::<OpView>::empty());
        assert(r.path_spec() =~= Seq::<OpView>::empty());
        r
    }

    /// Adds `segment` (a move, line, curve or close) to the pending path.
    pub fn path_segment(&mut self, segment: Op) -> (r: &mut Self)
        ensures
            r.ops_spec() == old(self).ops_spec(),
            r.path_spec() == old(self).path_spec().push(segment@),
            r.depth() == old(self).depth(),
            *final(self) == *final(r),
    {
        let ghost before = self.current_path@;
        self.current_path.push(segment);
        assert(ops_view(self.current_path@) =~= ops_view(before).push(segment@));
        self
    }

    /// Closes the pending path: `h`.
    pub fn close_path(&mut self) -> (r: &mut Self)
        ensures
            r.ops_spec() == old(self).ops_spec(),
            r.path_spec() == old(self).path_spec().push(bare("h"@)),
            r.depth() == old(self).depth(),
            *final(self) == *final(r),
    {
        self.path_segment(Op::bare("h"))
    }

    fn flush_path(&mut self)
        ensures
            final(self).ops_spec() == old(self).ops_spec() + old(self).path_spec(),
            final(self).path_spec().len() == 0,
            final(self).depth() == old(self).depth(),
    {
        let mut pending: Vec<Op> = Vec::new();
        std::mem::swap(&mut pending, &mut self.current_path);
        extend_ops(&mut self.operations, &pending);
        assert(ops_view(self.current_path@) =~= Seq::<OpView>::empty());
    }

    /// Writes the pending path, then `painter`.
    fn paint(&mut self, painter: &str) -> (r: &mut Self)
        ensures
            r.ops_spec() == old(self).ops_spec() + old(self).path_spec() + seq![bare(painter@)],
            r.path_spec().len() == 0,
            r.depth() == old(self).depth(),
            *final(self) == *final(r),
    {
        self.flush_path();
        let ghost before = self.operations@;
        self.operations.push(Op::bare(painter));
        assert(ops_view(self.operations@) =~= ops_view(before) + seq![bare(painter@)]);
        self
    }

    /// Writes the pending path and strokes it: `S`.
    pub fn stroke(&mut self) -> (r: &mut Self)
        ensures
            r.ops_spec() == old(self).ops_spec() + old(self).path_spec() + seq![bare("S"@)],
            r.path_spec().len() == 0,
            r.depth() == old(self).depth(),
            *final(self) == *final(r),
    {
        self.paint("S")
    }

    /// Writes the pending path and fills it: `f`.
    pub fn fill(&mut self) -> (r: &mut Self)
        ensures
            r.ops_spec() == old(self).ops_spec() + old(self).path_spec() + seq![bare("f"@)],
            r.path_spec().len() == 0,
            r.depth() == old(self).depth(),
            *final(self) == *final(r),
    {
        self.paint("f")
    }

    /// Writes the pending path, fills and strokes it: `B`.
    pub fn fill_stroke(&mut self) -> (r: &mut Self)
        ensures
            r.ops_spec() == old(self).ops_spec() + old(self).path_spec() + seq![bare("B"@)],
            r.path_spec().len() == 0,
            r.depth() == old(self).depth(),
            *final(self) == *final(r),
    {
        self.paint("B")
    }

    /// Saves the graphics state and applies `matrix` (a `cm` operator).
    pub fn push_transform(&mut self, matrix: Op) -> (r: &mut Self)
        requires
            old(self).depth() < usize::MAX,
        ensures
            r.ops_spec() == old(self).ops_spec() + seq![bare("q"@), matrix@],
            r.path_spec() == old(self).path_spec(),
            r.depth() == old(self).depth() + 1,
            *final(self) == *final(r),
    {
        let ghost before = self.operations@;
        self.operations.push(Op::bare("q"));
        self.operations.push(matrix);
        assert(ops_view(self.operations@) =~= ops_view(before) + seq![bare("q"@), matrix@]);
        self.transform_depth = self.transform_depth + 1;
        self
    }

    /// Restores the state saved by the innermost open transform; does
    /// nothing when none is open.
    pub fn pop_transform(&mut self) -> (r: &mut Self)
        ensures
            old(self).depth() > 0 ==> r.ops_spec() == old(self).ops_spec().push(bare("Q"@))
                && r.depth() == old(self).depth() - 1,
            old(self).depth() == 0 ==> r.ops_spec() == old(self).ops_spec() && r.depth() == 0,
            r.path_spec() == old(self).path_spec(),
            *final(self) == *final(r),
    {
        if self.transform_depth > 0 {
            let ghost before = self.operations@;
            self.operations.push(Op::bare("Q"));
            assert(ops_view(self.operations@) =~= ops_view(before).push(bare("Q"@)));
            self.transform_depth = self.transform_depth - 1;
        }
        self
    }

    /// Appends `op` directly, after anything written so far.
    pub fn add_operation(&mut self, op: Op) -> (r: &mut Self)
        ensures
            r.ops_spec() == old(self).ops_spec().push(op@),
            r.path_spec() == old(self).path_spec(),
            r.depth() == old(self).depth(),
            *final(self) == *final(r),
    {
        let ghost before = self.operations@;
        self.operations.push(op);
        assert(ops_view(self.operations@) =~= ops_view(before).push(op@));
        self
    }

    /// Appends `ops` directly, in order.
    pub fn add_operations(&mut self, ops: Vec<Op>) -> (r: &mut Self)
        ensures
            r.ops_spec() == old(self).ops_spec() + ops_view(ops@),
            r.path_spec() == old(self).path_spec(),
            r.depth() == old(self).depth(),
            *final(self) == *final(r),
    {
        extend_ops(&mut self.operations, &ops);
        self
    }

    /// The operators, with the pending path written last.
    pub fn build(self) -> (r: Vec<Op>)
        ensures
            ops_view(r@) == self.ops_spec() + self.path_spec(),
    {
        let mut b = self;
        b.flush_path();
        b.operations
    }
}

} // verus!
