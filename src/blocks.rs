//! Reusable blocks of content, registered by name and drawn any number of
//! times under a transformation.

use vstd::prelude::*;
use vstd::string::*;
use crate::content::{Op, OpView, bare, ops_view, extend_ops, is_name_op};
use crate::naming::{lemma_numbered_injective, numbered, numbered_name};
use crate::ocg::ObjectId;
use crate::pdf;
use crate::pdf::{
    adds_object, dictionary_entries, dictionary_keys, dictionary_value, entry, integer_value,
    is_integer_array, last_object_number, name_value, reference_value, sets_entry, stored_objects,
    stream_content, stream_dictionary,
};
use crate::ocg::key_if;

verus! {

/// A named, reusable sequence of operators.
#[derive(Debug)]
pub struct Block {
    /// The name the block is registered under.
    pub id: String,
    /// Its operators.
    pub operations: Vec<Op>,
    /// The `BBox` array of its form object, when set.
    pub bbox: Option<lopdf::Object>,
    /// The resources its operators use, when any.
    pub resources: Option<lopdf::Dictionary>,
}

impl Block {
    /// A block named `id` drawing `operations`, without bounding box or resources.
    pub fn new(id: &str, operations: Vec<Op>) -> (r: Block)
        ensures
            r.id@ == id@,
            r.operations@ == operations@,
            r.bbox is None,
            r.resources is None,
    {
        Block { id: String::from_str(id), operations, bbox: None, resources: None }
    }

    /// This block with `resources`.
    pub fn with_resources(self, resources: lopdf::Dictionary) -> (r: Block)
        ensures
            r == (Block { resources: Some(resources), ..self }),
    {
        Block { resources: Some(resources), ..self }
    }

    /// Appends `op`.
    pub fn add_operation(&mut self, op: Op)
        ensures
            final(self).operations@ == old(self).operations@.push(op),
            final(self).id == old(self).id,
            final(self).bbox == old(self).bbox,
            final(self).resources == old(self).resources,
    {
        self.operations.push(op);
    }

    /// Appends `ops`, in order.
    pub fn add_operations(&mut self, ops: Vec<Op>)
        ensures
            ops_view(final(self).operations@) == ops_view(old(self).operations@) + ops_view(ops@),
            final(self).id == old(self).id,
            final(self).bbox == old(self).bbox,
            final(self).resources == old(self).resources,
    {
        extend_ops(&mut self.operations, &ops);
    }
}

/// Index of the block named `id`, if any.
pub open spec fn block_index(blocks: Seq<Block>, id: Seq<char>) -> Option<int>
    decreases blocks.len(),
{
    if blocks.len() == 0 {
        None
    } else if blocks.last().id@ == id {
        Some(blocks.len() - 1)
    } else {
        block_index(blocks.drop_last(), id)
    }
}

/// No two blocks share a name.
pub open spec fn names_unique(blocks: Seq<Block>) -> bool {
    forall|i: int, j: int|
        0 <= i < blocks.len() && 0 <= j < blocks.len() && i != j ==> (#[trigger] blocks[i]).id@
            != (#[trigger] blocks[j]).id@
}

proof fn lemma_block_index(blocks: Seq<Block>, id: Seq<char>)
    ensures
        block_index(blocks, id) matches Some(i) ==> 0 <= i < blocks.len() && blocks[i].id@ == id
            && forall|j: int| i < j < blocks.len() ==> blocks[j].id@ != id,
        block_index(blocks, id) is None ==> forall|j: int|
            0 <= j < blocks.len() ==> blocks[j].id@ != id,
    decreases blocks.len(),
{
    if blocks.len() > 0 {
        let init = blocks.drop_last();
        lemma_block_index(init, id);
        assert forall|j: int| 0 <= j < init.len() implies init[j] == blocks[j] by {}
    }
}

/// The operators that draw `block` under the matrix operator `transform`:
/// save the state, apply the matrix, the block's operators, restore.
pub open spec fn instance_view(block: Block, transform: OpView) -> Seq<OpView> {
    seq![bare("q"@), transform] + ops_view(block.operations@) + seq![bare("Q"@)]
}

/// The form object recorded under the name `id`, if any (the first record).
pub open spec fn form_for(forms: Seq<(String, ObjectId)>, id: Seq<char>) -> Option<ObjectId>
    decreases forms.len(),
{
    if forms.len() == 0 {
        None
    } else if forms[0].0@ == id {
        Some(forms[0].1)
    } else {
        form_for(forms.drop_first(), id)
    }
}

proof fn lemma_form_for_push(forms: Seq<(String, ObjectId)>, e: (String, ObjectId), id: Seq<char>)
    ensures
        form_for(forms.push(e), id) == match form_for(forms, id) {
            Some(x) => Some(x),
            None => if e.0@ == id {
                Some(e.1)
            } else {
                None
            },
        },
    decreases forms.len(),
{
    if forms.len() > 0 {
        assert(forms.push(e)[0] == forms[0]);
        assert(forms.push(e).drop_first() =~= forms.drop_first().push(e));
        lemma_form_for_push(forms.drop_first(), e, id);
    } else {
        assert(forms.push(e)[0] == e);
        assert(forms.push(e).drop_first() =~= Seq::<(String, ObjectId)>::empty());
        assert(form_for(Seq::<(String, ObjectId)>::empty(), id) is None);
        assert(forms =~= Seq::<(String, ObjectId)>::empty());
    }
}

proof fn lemma_form_for_absent(forms: Seq<(String, ObjectId)>, id: Seq<char>)
    requires
        forall|k: int| 0 <= k < forms.len() ==> (#[trigger] forms[k]).0@ != id,
    ensures
        form_for(forms, id) is None,
    decreases forms.len(),
{
    if forms.len() > 0 {
        assert(forms[0].0@ != id);
        assert forall|k: int| 0 <= k < forms.drop_first().len() implies (
        #[trigger] forms.drop_first()[k]).0@ != id by {
            assert(forms.drop_first()[k] == forms[k + 1]);
        }
        lemma_form_for_absent(forms.drop_first(), id);
    }
}

/// The instances among `instances` whose block has a form object in
/// `forms`, in order.
pub open spec fn drawn_instances(
    forms: Seq<(String, ObjectId)>,
    instances: Seq<BlockInstance>,
) -> Seq<BlockInstance>
    decreases instances.len(),
{
    if instances.len() == 0 {
        Seq::empty()
    } else {
        drawn_instances(forms, instances.drop_last()) + if form_for(
            forms,
            instances.last().block_id@,
        ) is Some {
            seq![instances.last()]
        } else {
            Seq::empty()
        }
    }
}

/// The key of the form-object name `Blk<n>`.
pub open spec fn blk_key(n: nat) -> Seq<u8> {
    vstd::utf8::encode_utf8(numbered("Blk"@, n))
}

proof fn lemma_blk_key_injective(a: nat, b: nat)
    requires
        blk_key(a) == blk_key(b),
    ensures
        a == b,
{
    vstd::utf8::encode_utf8_decode_utf8(numbered("Blk"@, a));
    vstd::utf8::encode_utf8_decode_utf8(numbered("Blk"@, b));
    lemma_numbered_injective("Blk"@, a, b);
}

/// `ops` draws each of `drawn` through its form object, the `k`-th under
/// the name `Blk<c + k>`: save, its matrix, `Do`, restore.
pub open spec fn xobject_ops(ops: Seq<OpView>, drawn: Seq<BlockInstance>, c: nat) -> bool {
    &&& ops.len() == 4 * drawn.len()
    &&& forall|k: int|
        0 <= k < drawn.len() ==> {
            &&& #[trigger] ops[4 * k] == bare("q"@)
            &&& ops[4 * k + 1] == drawn[k].matrix@
            &&& is_name_op(ops[4 * k + 2], "Do"@, numbered("Blk"@, (c + k) as nat))
            &&& ops[4 * k + 3] == bare("Q"@)
        }
}

/// `x` maps exactly the names `Blk<c>`, ... of `drawn` to the form objects of
/// their blocks.
pub open spec fn xobject_names(
    x: lopdf::Dictionary,
    forms: Seq<(String, ObjectId)>,
    drawn: Seq<BlockInstance>,
    c: nat,
) -> bool {
    &&& forall|b: Seq<u8>|
        #[trigger] dictionary_keys(x).contains(b) <==> exists|k: int|
            0 <= k < drawn.len() && b == #[trigger] blk_key((c + k) as nat)
    &&& forall|k: int|
        0 <= k < drawn.len() ==> reference_value(entry(x, #[trigger] blk_key((c + k) as nat)))
            == form_for(forms, drawn[k].block_id@)
}

/// The registered blocks and the form objects made for them.
pub struct BlockManager {
    blocks: Vec<Block>,
    xobjects: Vec<(String, ObjectId)>,
    xobject_counter: usize,
}

impl Default for BlockManager {
    /// A manager without blocks.
    fn default() -> (r: BlockManager)
        ensures
            r.wf(),
            r.blocks_spec().len() == 0,
            r.forms_spec().len() == 0,
            r.names_used() == 0,
    {
        BlockManager::new()
    }
}

impl BlockManager {
    /// The registered blocks.
    pub closed spec fn blocks_spec(&self) -> Seq<Block> {
        self.blocks@
    }

    /// The form objects made so far, by block name.
    pub closed spec fn forms_spec(&self) -> Seq<(String, ObjectId)> {
        self.xobjects@
    }

    /// How many `Blk<n>` names have been handed out.
    pub closed spec fn names_used(&self) -> nat {
        self.xobject_counter as nat
    }

    /// How many `Blk<n>` names have been handed out.
    pub fn xobject_names_used(&self) -> (r: usize)
        ensures
            r == self.names_used(),
    {
        self.xobject_counter
    }

    /// Names are unique.
    pub closed spec fn wf(&self) -> bool {
        names_unique(self.blocks@)
    }

    /// The block registered under `id`, if any.
    pub open spec fn lookup(&self, id: Seq<char>) -> Option<Block> {
        match block_index(self.blocks_spec(), id) {
            Some(i) => Some(self.blocks_spec()[i]),
            None => None,
        }
    }

    /// A manager without blocks.
    pub fn new() -> (r: BlockManager)
        ensures
            r.wf(),
            r.blocks_spec().len() == 0,
            r.forms_spec().len() == 0,
            r.names_used() == 0,
    {
        BlockManager { blocks: Vec::new(), xobjects: Vec::new(), xobject_counter: 0 }
    }

    fn find(&self, id: &String) -> (r: Option<usize>)
        ensures
            r matches Some(i) ==> i < self.blocks@.len() && block_index(self.blocks@, id@) == Some(
                i as int,
            ),
            r is None ==> block_index(self.blocks@, id@) is None,
    {
        proof {
            lemma_block_index(self.blocks@, id@);
        }
        let mut i: usize = self.blocks.len();
        while i > 0
            invariant
                i <= self.blocks@.len(),
                forall|j: int| i <= j < self.blocks@.len() ==> self.blocks@[j].id@ != id@,
                block_index(self.blocks@, id@) matches Some(k) ==> k < i,
            decreases i,
        {
            proof {
                lemma_block_index(self.blocks@, id@);
            }
            if self.blocks[i - 1].id == *id {
                return Some(i - 1);
            }
            i = i - 1;
        }
        proof {
            lemma_block_index(self.blocks@, id@);
        }
        None
    }

    /// Registers `block` under its name, replacing a block of that name.
    pub fn register(&mut self, block: Block)
        requires
            old(self).wf(),
            old(self).blocks_spec().len() < usize::MAX,
        ensures
            final(self).wf(),
            final(self).lookup(block.id@) == Some(block),
            forall|other: Seq<char>|
                other != block.id@ ==> final(self).lookup(other) == old(self).lookup(other),
            final(self).blocks_spec().len() == old(self).blocks_spec().len() + if old(self).lookup(
                block.id@,
            ) is Some {
                0int
            } else {
                1int
            },
    {
        proof {
            lemma_block_index(self.blocks@, block.id@);
        }
        let ghost before = self.blocks@;
        let ghost name = block.id@;
        match self.find(&block.id) {
            Some(i) => {
                self.blocks.set(i, block);
                proof {
                    assert(self.blocks@ == before.update(i as int, block));
                    assert forall|other: Seq<char>| other != name implies block_index(
                        self.blocks@,
                        other,
                    ) == block_index(before, other) && (block_index(before, other) matches Some(
                        k,
                    ) ==> self.blocks@[k] == before[k]) by {
                        let after = self.blocks@;
                        lemma_block_index(before, other);
                        lemma_block_index(after, other);
                        assert(after[i as int] == block);
                        match block_index(before, other) {
                            Some(k) => {
                                assert(k != i);
                                assert(after[k] == before[k]);
                                match block_index(after, other) {
                                    Some(k2) => {
                                        if k2 < k {
                                            assert(after[k].id@ != other);
                                        } else if k2 > k {
                                            assert(after[k2] == before[k2]);
                                            assert(before[k2].id@ != other);
                                        }
                                    },
                                    None => {
                                        assert(after[k].id@ != other);
                                    },
                                }
                            },
                            None => {
                                match block_index(after, other) {
                                    Some(k2) => {
                                        assert(after[k2] == before[k2]);
                                        assert(before[k2].id@ != other);
                                    },
                                    None => {},
                                }
                            },
                        }
                    }
                    let after = self.blocks@;
                    lemma_block_index(after, name);
                    lemma_block_index(before, name);
                    match block_index(after, name) {
                        Some(k2) => {
                            if k2 < i {
                                assert(after[i as int].id@ == name);
                            } else if k2 > i {
                                assert(after[k2] == before[k2]);
                            }
                        },
                        None => {
                            assert(after[i as int].id@ == name);
                        },
                    }
                    assert forall|a: int, b: int|
                        0 <= a < after.len() && 0 <= b < after.len() && a != b implies (#[trigger] after[a]).id@
                        != (#[trigger] after[b]).id@ by {
                        if a != i && b != i {
                            assert(before[a] == after[a] && before[b] == after[b]);
                        } else if a == i {
                            assert(before[b] == after[b]);
                            assert(before[i as int].id@ == name);
                        } else {
                            assert(before[a] == after[a]);
                            assert(before[i as int].id@ == name);
                        }
                    }
                }
            },
            None => {
                self.blocks.push(block);
                proof {
                    assert(self.blocks@.drop_last() =~= before);
                    assert forall|other: Seq<char>| other != name implies block_index(
                        self.blocks@,
                        other,
                    ) == block_index(before, other) && (block_index(before, other) matches Some(
                        k,
                    ) ==> self.blocks@[k] == before[k]) by {
                        lemma_block_index(before, other);
                    }
                }
            },
        }
    }

    /// Registers each of `blocks` in order.
    pub fn register_blocks(&mut self, blocks: Vec<Block>)
        requires
            old(self).wf(),
            old(self).blocks_spec().len() + blocks@.len() < usize::MAX,
        ensures
            final(self).wf(),
            forall|i: int|
                0 <= i < blocks@.len() && (forall|j: int|
                    i < j < blocks@.len() ==> blocks@[j].id@ != (#[trigger] blocks@[i]).id@)
                    ==> final(self).lookup(blocks@[i].id@) == Some(blocks@[i]),
    {
        let mut rest = blocks;
        let ghost all = rest@;
        let ghost base = self.blocks@.len();
        let mut k: usize = 0;
        while rest.len() > 0
            invariant
                self.wf(),
                k + rest@.len() == all.len(),
                rest@ == all.subrange(k as int, all.len() as int),
                self.blocks@.len() <= base + k,
                base + all.len() < usize::MAX,
                forall|i: int|
                    0 <= i < k && (forall|j: int|
                        i < j < k ==> all[j].id@ != (#[trigger] all[i]).id@) ==> self.lookup(
                        all[i].id@,
                    ) == Some(all[i]),
            decreases rest@.len(),
        {
            let b = rest.remove(0);
            let ghost prev = *self;
            self.register(b);
            proof {
                assert(b == all[k as int]);
                assert forall|i: int|
                    0 <= i < k + 1 && (forall|j: int|
                        i < j < k + 1 ==> all[j].id@ != (#[trigger] all[i]).id@) implies self.lookup(
                    all[i].id@,
                ) == Some(all[i]) by {
                    if i < k {
                        assert(all[k as int].id@ != all[i].id@);
                    }
                }
                assert(rest@ =~= all.subrange(k as int + 1, all.len() as int));
            }
            k = k + 1;
        }
    }

    /// The block registered under `id`.
    pub fn get(&self, id: &str) -> (r: Option<&Block>)
        ensures
            match self.lookup(id@) {
                Some(b) => r == Some(&b),
                None => r is None,
            },
    {
        proof {
            lemma_block_index(self.blocks@, id@);
        }
        let key = String::from_str(id);
        match self.find(&key) {
            Some(i) => Some(&self.blocks[i]),
            None => None,
        }
    }

    /// The block registered under `id`, to change in place; renaming it
    /// through the reference breaks the one-name-per-block rule.
    pub fn get_mut(&mut self, id: &str) -> (r: Option<&mut Block>)
        ensures
            match block_index(old(self).blocks_spec(), id@) {
                Some(i) => r matches Some(b) && *b == old(self).blocks_spec()[i]
                    && final(self).blocks_spec() == old(self).blocks_spec().update(i, *final(b))
                    && final(self).forms_spec() == old(self).forms_spec()
                    && final(self).names_used() == old(self).names_used() && (old(self).wf()
                    && final(b).id@ == b.id@ ==> final(self).wf()),
                None => r is None && *final(self) == *old(self),
            },
    {
        proof {
            lemma_block_index(self.blocks@, id@);
        }
        let key = String::from_str(id);
        match self.find(&key) {
            Some(i) => Some(&mut self.blocks[i]),
            None => None,
        }
    }

    /// Whether a block is registered under `id`.
    pub fn has(&self, id: &str) -> (r: bool)
        ensures
            r == self.lookup(id@) is Some,
    {
        let key = String::from_str(id);
        self.find(&key).is_some()
    }

    /// The number of registered blocks.
    pub fn count(&self) -> (r: usize)
        ensures
            r == self.blocks_spec().len(),
    {
        self.blocks.len()
    }

    /// The operators that draw the block registered under `block_id` under
    /// the matrix operator `transform`; none when no block has that name.
    pub fn render_block(&self, block_id: &str, transform: Op) -> (r: Vec<Op>)
        ensures
            match self.lookup(block_id@) {
                Some(b) => ops_view(r@) == instance_view(b, transform@),
                None => r@.len() == 0,
            },
    {
        proof {
            lemma_block_index(self.blocks@, block_id@);
        }
        let key = String::from_str(block_id);
        match self.find(&key) {
            Some(i) => {
                let block = &self.blocks[i];
                let mut ops: Vec<Op> = Vec::new();
                ops.push(Op::bare("q"));
                let ghost t = transform@;
                ops.push(transform);
                assert(ops_view(ops@) =~= seq![bare("q"@), t]);
                extend_ops(&mut ops, &block.operations);
                let ghost mid = ops@;
                ops.push(Op::bare("Q"));
                assert(ops_view(ops@) =~= ops_view(mid) + seq![bare("Q"@)]);
                ops
            },
            None => Vec::new(),
        }
    }

    /// Removes the block registered under `id` (and forgets its form
    /// object), returning it.
    pub fn remove(&mut self, id: &str) -> (r: Option<Block>)
        requires
            old(self).wf(),
        ensures
            final(self).wf(),
            r == old(self).lookup(id@),
            final(self).lookup(id@) is None,
            form_for(final(self).forms_spec(), id@) is None,
            forall|other: Seq<char>|
                other != id@ ==> final(self).lookup(other) == old(self).lookup(other),
            final(self).blocks_spec().len() == old(self).blocks_spec().len() - if r is Some {
                1int
            } else {
                0int
            },
    {
        proof {
            lemma_block_index(self.blocks@, id@);
        }
        let key = String::from_str(id);
        self.forget_xobject(&key);
        let ghost before = self.blocks@;
        match self.find(&key) {
            Some(i) => {
                let b = self.blocks.remove(i);
                proof {
                    let after = self.blocks@;
                    assert(after == before.remove(i as int));
                    assert forall|a: int, c: int|
                        0 <= a < after.len() && 0 <= c < after.len() && a != c implies (#[trigger] after[a]).id@
                        != (#[trigger] after[c]).id@ by {
                        let a0 = if a < i { a } else { a + 1 };
                        let c0 = if c < i { c } else { c + 1 };
                        assert(after[a] == before[a0] && after[c] == before[c0]);
                    }
                    assert forall|other: Seq<char>| true implies block_index(after, other) == (
                    if other == id@ {
                        None
                    } else {
                        match block_index(before, other) {
                            Some(k) => Some(if k < i { k } else { k - 1 }),
                            None => None,
                        }
                    }) by {
                        lemma_block_index(before, other);
                        lemma_block_index(after, other);
                        match block_index(after, other) {
                            Some(k2) => {
                                let k0 = if k2 < i { k2 } else { k2 + 1 };
                                assert(after[k2] == before[k0]);
                                if other == id@ {
                                    assert(before[i as int].id@ == id@);
                                } else {
                                    match block_index(before, other) {
                                        Some(k) => {
                                            let k1 = if k < i { k } else { k - 1 };
                                            assert(k != i);
                                            assert(after[k1] == before[k]);
                                        },
                                        None => {},
                                    }
                                }
                            },
                            None => {
                                if other != id@ {
                                    match block_index(before, other) {
                                        Some(k) => {
                                            let k1 = if k < i { k } else { k - 1 };
                                            assert(k != i);
                                            assert(after[k1] == before[k]);
                                        },
                                        None => {},
                                    }
                                }
                            },
                        }
                    }
                    assert forall|other: Seq<char>| other != id@ implies self.lookup(other)
                        == old(self).lookup(other) by {
                        lemma_block_index(before, other);
                        match block_index(before, other) {
                            Some(k) => {
                                let k1 = if k < i { k } else { k - 1 };
                                assert(k != i);
                                assert(self.blocks@[k1] == before[k]);
                            },
                            None => {},
                        }
                    }
                }
                Some(b)
            },
            None => None,
        }
    }

    fn forget_xobject(&mut self, id: &String)
        ensures
            final(self).blocks == old(self).blocks,
            form_for(final(self).xobjects@, id@) is None,
    {
        let mut i: usize = 0;
        while i < self.xobjects.len()
            invariant
                i <= self.xobjects@.len(),
                self.blocks == old(self).blocks,
                forall|k: int| 0 <= k < i ==> (#[trigger] self.xobjects@[k]).0@ != id@,
            decreases self.xobjects@.len() - i,
        {
            if self.xobjects[i].0 == *id {
                let ghost before = self.xobjects@;
                self.xobjects.remove(i);
                assert forall|k: int| 0 <= k < i implies (#[trigger] self.xobjects@[k]).0@
                    != id@ by {
                    assert(self.xobjects@[k] == before[k]);
                }
            } else {
                i = i + 1;
            }
        }
        proof {
            lemma_form_for_absent(self.xobjects@, id@);
        }
    }

    /// The operators that draw `instance`: those of its block under its
    /// matrix; none when no block has that name.
    pub fn render_instance(&self, instance: &BlockInstance) -> (r: Vec<Op>)
        ensures
            match self.lookup(instance.block_id@) {
                Some(b) => ops_view(r@) == instance_view(b, instance.matrix@),
                None => r@.len() == 0,
            },
    {
        self.render_block(instance.block_id.as_str(), instance.matrix.duplicate())
    }

    /// The operators that draw each of `instances` in order.
    pub fn render_instances(&self, instances: &Vec<BlockInstance>) -> (r: Vec<Op>)
        ensures
            ops_view(r@) == instances_view(self, instances@),
    {
        let mut out: Vec<Op> = Vec::new();
        let mut i: usize = 0;
        assert(ops_view(out@) =~= Seq::<OpView>::empty());
        while i < instances.len()
            invariant
                i <= instances@.len(),
                ops_view(out@) == instances_view(self, instances@.subrange(0, i as int)),
            decreases instances@.len() - i,
        {
            proof {
                let s = instances@.subrange(0, i as int + 1);
                assert(s.drop_last() =~= instances@.subrange(0, i as int));
            }
            let ops = self.render_instance(&instances[i]);
            extend_ops(&mut out, &ops);
            i = i + 1;
        }
        assert(instances@.subrange(0, instances@.len() as int) =~= instances@);
        out
    }

    fn xobject_of(&self, id: &String) -> (r: Option<ObjectId>)
        ensures
            r == form_for(self.xobjects@, id@),
    {
        let mut i: usize = 0;
        assert(self.xobjects@.subrange(0, self.xobjects@.len() as int) =~= self.xobjects@);
        while i < self.xobjects.len()
            invariant
                i <= self.xobjects@.len(),
                form_for(self.xobjects@, id@) == form_for(
                    self.xobjects@.subrange(i as int, self.xobjects@.len() as int),
                    id@,
                ),
            decreases self.xobjects@.len() - i,
        {
            let ghost rest = self.xobjects@.subrange(i as int, self.xobjects@.len() as int);
            assert(rest[0] == self.xobjects@[i as int]);
            assert(rest.drop_first() =~= self.xobjects@.subrange(
                i as int + 1,
                self.xobjects@.len() as int,
            ));
            if self.xobjects[i].0 == *id {
                return Some(self.xobjects[i].1);
            }
            i = i + 1;
        }
        None
    }

    /// Writes a form object into `doc` for every block that has none yet.
    pub fn create_xobjects(&mut self, doc: &mut lopdf::Document)
        requires
            last_object_number(*old(doc)) + old(self).blocks_spec().len() <= u32::MAX,
        ensures
            final(self).blocks_spec() == old(self).blocks_spec(),
            final(self).wf() == old(self).wf(),
            final(self).names_used() == old(self).names_used(),
            forall|id: Seq<char>|
                (#[trigger] old(self).lookup(id)) is Some ==> form_for(final(self).forms_spec(), id)
                    is Some,
            forall|id: Seq<char>|
                #[trigger] form_for(old(self).forms_spec(), id) is Some ==> form_for(
                    final(self).forms_spec(),
                    id,
                ) == form_for(old(self).forms_spec(), id),
            forall|f: ObjectId|
                #[trigger] stored_objects(*final(doc)).contains_key(f) && !stored_objects(
                    *old(doc),
                ).contains_key(f) ==> exists|j: int|
                    0 <= j < old(self).blocks_spec().len() && form_for(
                        final(self).forms_spec(),
                        (#[trigger] old(self).blocks_spec()[j]).id@,
                    ) == Some(f) && is_block_form(
                        stored_objects(*final(doc))[f],
                        old(self).blocks_spec()[j],
                    ),
    {
        let mut i: usize = 0;
        while i < self.blocks.len()
            invariant
                self.blocks == old(self).blocks,
                self.xobject_counter == old(self).xobject_counter,
                i <= self.blocks@.len(),
                last_object_number(*doc) <= last_object_number(*old(doc)) + i,
                last_object_number(*old(doc)) <= last_object_number(*doc),
                last_object_number(*old(doc)) + self.blocks@.len() <= u32::MAX,
                forall|j: int|
                    0 <= j < i ==> form_for(self.xobjects@, (#[trigger] self.blocks@[j]).id@) is Some,
                forall|id: Seq<char>|
                    #[trigger] form_for(old(self).xobjects@, id) is Some ==> form_for(
                        self.xobjects@,
                        id,
                    ) == form_for(old(self).xobjects@, id),
                forall|f: ObjectId|
                    #[trigger] stored_objects(*doc).contains_key(f) && !stored_objects(
                        *old(doc),
                    ).contains_key(f) ==> last_object_number(*old(doc)) < f.0 <= last_object_number(
                        *doc,
                    ) && exists|j: int|
                        0 <= j < self.blocks@.len() && form_for(
                            self.xobjects@,
                            (#[trigger] self.blocks@[j]).id@,
                        ) == Some(f) && is_block_form(stored_objects(*doc)[f], self.blocks@[j]),
                stored_objects(*old(doc)).dom().subset_of(stored_objects(*doc).dom()),
            decreases self.blocks@.len() - i,
        {
            let id = self.blocks[i].id.clone();
            if self.xobject_of(&id).is_none() {
                let ghost doc_before = *doc;
                let xobject = create_xobject_for_block(doc, &self.blocks[i]);
                let ghost before = self.xobjects@;
                let ghost entry = (id, xobject);
                self.xobjects.push((id, xobject));
                proof {
                    lemma_form_for_push(before, entry, id@);
                    assert forall|f: ObjectId|
                        #[trigger] stored_objects(*doc).contains_key(f) && !stored_objects(
                            *old(doc),
                        ).contains_key(f) implies last_object_number(*old(doc)) < f.0
                        <= last_object_number(*doc) && exists|j: int|
                        0 <= j < self.blocks@.len() && form_for(
                            self.xobjects@,
                            (#[trigger] self.blocks@[j]).id@,
                        ) == Some(f) && is_block_form(stored_objects(*doc)[f], self.blocks@[j]) by {
                        if f == xobject {
                            assert(id@ == self.blocks@[i as int].id@);
                            assert(form_for(self.xobjects@, self.blocks@[i as int].id@) == Some(f));
                            assert(is_block_form(stored_objects(*doc)[f], self.blocks@[i as int]));
                            assert(0 <= i < self.blocks@.len());
                        } else {
                            assert(stored_objects(doc_before).contains_key(f));
                            let j = choose|j: int|
                                0 <= j < self.blocks@.len() && form_for(
                                    before,
                                    (#[trigger] self.blocks@[j]).id@,
                                ) == Some(f) && is_block_form(
                                    stored_objects(doc_before)[f],
                                    self.blocks@[j],
                                );
                            lemma_form_for_push(before, entry, self.blocks@[j].id@);
                            assert(stored_objects(*doc)[f] == stored_objects(doc_before)[f]);
                            assert(form_for(self.xobjects@, self.blocks@[j].id@) == Some(f));
                            assert(is_block_form(stored_objects(*doc)[f], self.blocks@[j]));
                        }
                    }
                    assert forall|name: Seq<char>| true implies form_for(self.xobjects@, name)
                        == match form_for(before, name) {
                        Some(x) => Some(x),
                        None => if entry.0@ == name {
                            Some(entry.1)
                        } else {
                            None
                        },
                    } by {
                        lemma_form_for_push(before, entry, name);
                    }
                }
            }
            i = i + 1;
        }
        proof {
            assert forall|id: Seq<char>| (#[trigger] old(self).lookup(id)) is Some implies form_for(
                self.xobjects@,
                id,
            ) is Some by {
                lemma_block_index(self.blocks@, id);
                let k = block_index(self.blocks@, id)->Some_0;
                assert(self.blocks@[k].id@ == id);
            }
        }
    }

    /// The operators that draw each of `instances` through the form object
    /// of its block, each under a fresh name `Blk<n>`; the names are listed
    /// under `XObject` in `resources` when any instance was drawn. Instances
    /// whose block has no form object are skipped.
    pub fn render_instances_as_xobjects(
        &mut self,
        instances: &Vec<BlockInstance>,
        resources: &mut lopdf::Dictionary,
    ) -> (r: Vec<Op>)
        requires
            old(self).names_used() + instances@.len() <= usize::MAX,
        ensures
            final(self).blocks_spec() == old(self).blocks_spec(),
            final(self).wf() == old(self).wf(),
            final(self).forms_spec() == old(self).forms_spec(),
            final(self).names_used() == old(self).names_used() + drawn_instances(
                old(self).forms_spec(),
                instances@,
            ).len(),
            xobject_ops(
                ops_view(r@),
                drawn_instances(old(self).forms_spec(), instances@),
                old(self).names_used(),
            ),
            drawn_instances(old(self).forms_spec(), instances@).len() == 0 ==> *final(resources)
                == *old(resources),
            drawn_instances(old(self).forms_spec(), instances@).len() > 0 ==> (sets_entry(
                *old(resources),
                *final(resources),
                "XObject".spec_bytes(),
            ) && (dictionary_value(entry(*final(resources), "XObject".spec_bytes())) matches Some(x)
                && xobject_names(
                x,
                old(self).forms_spec(),
                drawn_instances(old(self).forms_spec(), instances@),
                old(self).names_used(),
            ))),
    {
        let ghost forms = self.xobjects@;
        let ghost c = self.xobject_counter as nat;
        let start = self.xobject_counter;
        let mut operations: Vec<Op> = Vec::new();
        let mut names = pdf::new_dictionary();
        let mut i: usize = 0;
        assert(ops_view(operations@) =~= Seq::<OpView>::empty());
        while i < instances.len()
            invariant
                i <= instances@.len(),
                self.blocks == old(self).blocks,
                self.xobjects == old(self).xobjects,
                forms == self.xobjects@,
                c == old(self).xobject_counter,
                self.xobject_counter + (instances@.len() - i) <= usize::MAX,
                self.xobject_counter == c + drawn_instances(forms, instances@.subrange(0, i as int)).len(),
                drawn_instances(forms, instances@.subrange(0, i as int)).len() <= i,
                xobject_ops(
                    ops_view(operations@),
                    drawn_instances(forms, instances@.subrange(0, i as int)),
                    c,
                ),
                xobject_names(names, forms, drawn_instances(forms, instances@.subrange(0, i as int)), c),
                *resources == *old(resources),
            decreases instances@.len() - i,
        {
            let ghost prev = drawn_instances(forms, instances@.subrange(0, i as int));
            let ghost prev_ops = ops_view(operations@);
            let ghost prev_names = names;
            proof {
                let sub = instances@.subrange(0, i as int + 1);
                assert(sub.drop_last() =~= instances@.subrange(0, i as int));
                assert(sub.last() == instances@[i as int]);
            }
            if let Some(xobject) = self.xobject_of(&instances[i].block_id) {
                let n = self.xobject_counter;
                let name = numbered_name("Blk", n);
                self.xobject_counter = self.xobject_counter + 1;
                let name_str = name.as_str();
                pdf::set_reference(&mut names, name_str, xobject);
                operations.push(Op::bare("q"));
                operations.push(instances[i].matrix.duplicate());
                operations.push(Op::with_name("Do", name_str));
                operations.push(Op::bare("Q"));
                proof {
                    let inst = instances@[i as int];
                    let now = prev.push(inst);
                    assert(drawn_instances(forms, instances@.subrange(0, i as int + 1)) =~= now);
                    let ops = ops_view(operations@);
                    assert(ops.len() == prev_ops.len() + 4);
                    assert forall|j: int| 0 <= j < prev_ops.len() implies ops[j] == prev_ops[j] by {
                        assert(ops[j] == operations@[j]@);
                    }
                    let m = prev.len() as int;
                    assert(ops[4 * m] == operations@[4 * m]@);
                    assert(ops[4 * m + 1] == operations@[4 * m + 1]@);
                    assert(ops[4 * m + 2] == operations@[4 * m + 2]@);
                    assert(ops[4 * m + 3] == operations@[4 * m + 3]@);
                    assert forall|k: int| 0 <= k < now.len() implies {
                        &&& #[trigger] ops[4 * k] == bare("q"@)
                        &&& ops[4 * k + 1] == now[k].matrix@
                        &&& is_name_op(ops[4 * k + 2], "Do"@, numbered("Blk"@, (c + k) as nat))
                        &&& ops[4 * k + 3] == bare("Q"@)
                    } by {
                        if k < m {
                            assert(now[k] == prev[k]);
                            assert(prev_ops[4 * k] == bare("q"@));
                        }
                    }
                    assert(name_str@ == numbered("Blk"@, (c + m) as nat));
                    let key = blk_key((c + m) as nat);
                    assert(name_str.spec_bytes() == key);
                    assert forall|k: int| 0 <= k < m implies #[trigger] blk_key((c + k) as nat) != key by {
                        if blk_key((c + k) as nat) == key {
                            lemma_blk_key_injective((c + k) as nat, (c + m) as nat);
                        }
                    }
                    assert forall|b: Seq<u8>|
                        #[trigger] dictionary_keys(names).contains(b) <==> exists|k: int|
                            0 <= k < now.len() && b == #[trigger] blk_key((c + k) as nat) by {
                        if b == key {
                            assert(0 <= m < now.len() && b == blk_key((c + m) as nat));
                        } else if dictionary_keys(prev_names).contains(b) {
                            let k = choose|k: int|
                                0 <= k < prev.len() && b == #[trigger] blk_key((c + k) as nat);
                            assert(0 <= k < now.len() && b == blk_key((c + k) as nat));
                        } else {
                            if exists|k: int| 0 <= k < now.len() && b == #[trigger] blk_key((c + k) as nat) {
                                let k = choose|k: int|
                                    0 <= k < now.len() && b == #[trigger] blk_key((c + k) as nat);
                                assert(k < m);
                                assert(dictionary_keys(prev_names).contains(blk_key((c + k) as nat)));
                            }
                        }
                    }
                    assert forall|k: int| 0 <= k < now.len() implies reference_value(
                        entry(names, #[trigger] blk_key((c + k) as nat)),
                    ) == form_for(forms, now[k].block_id@) by {
                        if k < m {
                            assert(now[k] == prev[k]);
                            assert(reference_value(entry(prev_names, blk_key((c + k) as nat)))
                                == form_for(forms, prev[k].block_id@));
                        }
                    }
                }
            } else {
                proof {
                    assert(drawn_instances(forms, instances@.subrange(0, i as int + 1)) =~= prev);
                }
            }
            i = i + 1;
        }
        assert(instances@.subrange(0, instances@.len() as int) =~= instances@);
        if self.xobject_counter > start {
            pdf::set_dictionary(resources, "XObject", names);
        }
        operations
    }

    /// Removes every block and form object and restarts the naming.
    pub fn clear(&mut self)
        ensures
            final(self).wf(),
            final(self).blocks_spec().len() == 0,
    {
        self.blocks = Vec::new();
        self.xobjects = Vec::new();
        self.xobject_counter = 0;
    }
}

/// One drawing of a block: its name and the matrix operator (`cm`) to draw
/// it under.
#[derive(Debug)]
pub struct BlockInstance {
    pub block_id: String,
    pub matrix: Op,
}

impl BlockInstance {
    /// An instance of the block `block_id` under `matrix`.
    pub fn new(block_id: &str, matrix: Op) -> (r: BlockInstance)
        ensures
            r.block_id@ == block_id@,
            r.matrix == matrix,
    {
        BlockInstance { block_id: String::from_str(block_id), matrix }
    }
}

/// The operators that draw `instances` in order with the blocks of `m`.
pub open spec fn instances_view(m: &BlockManager, instances: Seq<BlockInstance>) -> Seq<OpView>
    decreases instances.len(),
{
    if instances.len() == 0 {
        Seq::empty()
    } else {
        instances_view(m, instances.drop_last()) + match m.lookup(instances.last().block_id@) {
            Some(b) => instance_view(b, instances.last().matrix@),
            None => Seq::empty(),
        }
    }
}

/// The key bytes of a block's form object.
pub open spec fn block_form_keys(with_resources: bool) -> Set<Seq<u8>> {
    set!["Type".spec_bytes(), "Subtype".spec_bytes(), "BBox".spec_bytes(), "Length".spec_bytes()].union(
        key_if(with_resources, "Resources".spec_bytes()),
    )
}

/// `o` is the form object of `b`: a stream whose dictionary holds exactly
/// `/Type /XObject`, `/Subtype /Form`, the block's `/BBox` (`[0 0 100 100]`
/// when it has none), its `/Resources` when it has some, and the `/Length`
/// of the content.
pub open spec fn is_block_form(o: lopdf::Object, b: Block) -> bool {
    &&& stream_content(o) is Some
    &&& stream_dictionary(o) matches Some(sd) && {
        let e = dictionary_entries(sd);
        &&& e.dom() == block_form_keys(b.resources is Some)
        &&& name_value(e["Type".spec_bytes()]) == Some("XObject".spec_bytes())
        &&& name_value(e["Subtype".spec_bytes()]) == Some("Form".spec_bytes())
        &&& match b.bbox {
            Some(x) => e["BBox".spec_bytes()] == x,
            None => is_integer_array(e["BBox".spec_bytes()], seq![0i64, 0, 100, 100]),
        }
        &&& (b.resources matches Some(res) ==> dictionary_value(e["Resources".spec_bytes()])
            == Some(res))
        &&& integer_value(e["Length".spec_bytes()]) == Some(stream_content(o)->Some_0.len() as i64)
    }
}

/// Writes the form object of `block` into `doc`: its bounding box (`[0 0 100
/// 100]` when it has none), its resources, and its operators as content.
fn create_xobject_for_block(doc: &mut lopdf::Document, block: &Block) -> (r: ObjectId)
    requires
        last_object_number(*old(doc)) < u32::MAX,
    ensures
        adds_object(*old(doc), *final(doc), r),
        is_block_form(stored_objects(*final(doc))[r], *block),
{
    proof {
        crate::embed::lemma_form_keys_distinct();
    }
    let mut dict = pdf::new_dictionary();
    pdf::set_name(&mut dict, "Type", "XObject");
    pdf::set_name(&mut dict, "Subtype", "Form");
    let bbox = match &block.bbox {
        Some(b) => b.clone(),
        None => {
            let mut corners: Vec<i64> = Vec::new();
            corners.push(0);
            corners.push(0);
            corners.push(100);
            corners.push(100);
            assert(corners@ =~= seq![0i64, 0, 100, 100]);
            pdf::integer_array(&corners)
        },
    };
    pdf::set_object(&mut dict, "BBox", bbox);
    if let Some(res) = &block.resources {
        pdf::set_dictionary(&mut dict, "Resources", res.clone());
    }
    let content = crate::content::encode(&block.operations);
    let r = pdf::add_stream(doc, dict, content);
    proof {
        let sd = stream_dictionary(stored_objects(*doc)[r])->Some_0;
        assert(dictionary_entries(sd).dom() =~= block_form_keys(block.resources is Some));
    }
    r
}

/// The operators of `blocks`, one block after the other.
pub open spec fn merged_view(blocks: Seq<&Block>) -> Seq<OpView>
    decreases blocks.len(),
{
    if blocks.len() == 0 {
        Seq::empty()
    } else {
        merged_view(blocks.drop_last()) + ops_view(blocks.last().operations@)
    }
}

/// The operators of `blocks`, one block after the other.
pub fn merge_blocks(blocks: &Vec<&Block>) -> (r: Vec<Op>)
    ensures
        ops_view(r@) == merged_view(blocks@),
{
    let mut out: Vec<Op> = Vec::new();
    let mut i: usize = 0;
    assert(ops_view(out@) =~= Seq::<OpView>::empty());
    while i < blocks.len()
        invariant
            i <= blocks@.len(),
            ops_view(out@) == merged_view(blocks@.subrange(0, i as int)),
        decreases blocks@.len() - i,
    {
        proof {
            let s = blocks@.subrange(0, i as int + 1);
            assert(s.drop_last() =~= blocks@.subrange(0, i as int));
        }
        extend_ops(&mut out, &blocks[i].operations);
        i = i + 1;
    }
    assert(blocks@.subrange(0, blocks@.len() as int) =~= blocks@);
    out
}

} // verus!
