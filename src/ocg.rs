//! Optional content groups (layers): their registry, the document entries
//! that declare them, and content marked as belonging to one.

use vstd::prelude::*;
use vstd::string::*;
use crate::content::{Op, OpView, Operand, bare, ops_view, is_name};
use crate::naming::{lemma_numbered_bytes_injective, numbered, numbered_bytes, numbered_name};
use crate::pdf;
use crate::pdf::{
    adds_object, array_items, dictionary_entries, dictionary_keys, dictionary_value, entry,
    is_reference_array, last_object_number, name_value, reference_value, stored_objects, trailer,
};

verus! {

/// Identifier of a PDF object: object number and generation.
pub type ObjectId = (u32, u16);

/// One optional content group (layer).
#[derive(Debug)]
pub struct Layer {
    /// The group's object in the document, `(0, 0)` until initialized.
    pub id: ObjectId,
    /// The name shown to the reader.
    pub name: String,
    /// Whether the layer is shown when the document opens.
    pub default_visible: bool,
    /// The resource tag (`L0`, `L1`, ...) used in content streams, once assigned.
    pub tag: Option<String>,
}

impl Clone for Layer {
    fn clone(&self) -> (r: Layer)
        ensures
            r == *self,
    {
        let tag = match &self.tag {
            Some(t) => Some(t.clone()),
            None => None,
        };
        Layer { id: self.id, name: self.name.clone(), default_visible: self.default_visible, tag }
    }
}

impl Layer {
    /// A layer named `name`, not yet in a document and without a tag.
    pub fn new(name: &str, default_visible: bool) -> (r: Layer)
        ensures
            r.id == (0u32, 0u16),
            r.name@ == name@,
            r.default_visible == default_visible,
            r.tag is None,
    {
        Layer { id: (0, 0), name: String::from_str(name), default_visible, tag: None }
    }

    /// This layer with its visibility set to `visible`.
    pub fn with_visibility(self, visible: bool) -> (r: Layer)
        ensures
            r == (Layer { default_visible: visible, ..self }),
    {
        Layer { default_visible: visible, ..self }
    }
}

/// How the layers are presented.
#[derive(Debug, Clone)]
pub struct OCGConfig {
    /// State of layers that are not listed (`ON`, `OFF`, `Unchanged`); empty
    /// for none written.
    pub base_state: String,
    /// Whether viewers list the layers of all pages in their panel.
    pub create_panel_ui: bool,
    /// Intents of the layers (`View`, `Design`).
    pub intent: Vec<String>,
}

impl Default for OCGConfig {
    /// Base state `ON`, a panel, and the one intent `View`.
    fn default() -> (r: OCGConfig)
        ensures
            r.base_state@ == "ON"@,
            r.create_panel_ui,
            r.intent@.len() == 1,
            r.intent@[0]@ == "View"@,
    {
        let mut intent: Vec<String> = Vec::new();
        intent.push(String::from_str("View"));
        OCGConfig { base_state: String::from_str("ON"), create_panel_ui: true, intent }
    }
}

/// Index of the last layer named `name`: lookups by name find the layer
/// added last under it.
pub open spec fn last_named(layers: Seq<Layer>, name: Seq<char>) -> Option<int>
    decreases layers.len(),
{
    if layers.len() == 0 {
        None
    } else if layers.last().name@ == name {
        Some(layers.len() - 1)
    } else {
        last_named(layers.drop_last(), name)
    }
}

proof fn lemma_last_named_bounds(layers: Seq<Layer>, name: Seq<char>)
    ensures
        last_named(layers, name) matches Some(i) ==> 0 <= i < layers.len() && layers[i].name@
            == name && forall|j: int| i < j < layers.len() ==> layers[j].name@ != name,
        last_named(layers, name) is None ==> forall|j: int|
            0 <= j < layers.len() ==> layers[j].name@ != name,
    decreases layers.len(),
{
    if layers.len() > 0 {
        let init = layers.drop_last();
        lemma_last_named_bounds(init, name);
        assert forall|j: int| 0 <= j < init.len() implies init[j] == layers[j] by {}
    }
}

proof fn lemma_last_named_push(layers: Seq<Layer>, l: Layer, name: Seq<char>)
    ensures
        last_named(layers.push(l), name) == if l.name@ == name {
            Some(layers.len() as int)
        } else {
            last_named(layers, name)
        },
{
    assert(layers.push(l).drop_last() =~= layers);
}

/// The entries that declare the layers to viewers: every group, in order; the
/// visible ones (`ON`) and hidden ones (`OFF`), each written only when not
/// empty; the base state when not empty; the panel mode; the intents when
/// there are any.
pub struct OcPropertiesPlan {
    pub ocgs: Vec<ObjectId>,
    pub on: Option<Vec<ObjectId>>,
    pub off: Option<Vec<ObjectId>>,
    pub base_state: Option<String>,
    pub list_all_pages: bool,
    pub intent: Option<Vec<String>>,
}

/// The identifiers of the layers whose visibility is `visible`, in order.
pub open spec fn ids_with_visibility(layers: Seq<Layer>, visible: bool) -> Seq<ObjectId>
    decreases layers.len(),
{
    if layers.len() == 0 {
        Seq::empty()
    } else {
        ids_with_visibility(layers.drop_last(), visible) + if layers.last().default_visible
            == visible {
            seq![layers.last().id]
        } else {
            Seq::empty()
        }
    }
}

/// Every layer is listed once, among the visible ones or among the hidden ones.
pub proof fn lemma_visibility_partition(layers: Seq<Layer>)
    ensures
        ids_with_visibility(layers, true).len() + ids_with_visibility(layers, false).len()
            == layers.len(),
    decreases layers.len(),
{
    if layers.len() > 0 {
        lemma_visibility_partition(layers.drop_last());
    }
}

/// Main registry of the layers of one document.
pub struct OCGManager {
    pub(crate) layers: Vec<Layer>,
    pub config: OCGConfig,
    pub(crate) oc_properties_id: Option<ObjectId>,
}

impl OCGManager {
    /// The layers, in the order they were added.
    pub closed spec fn layers_spec(&self) -> Seq<Layer> {
        self.layers@
    }

    /// The configuration.
    pub closed spec fn config_spec(&self) -> OCGConfig {
        self.config
    }

    /// The declaring object, once written.
    pub closed spec fn properties_spec(&self) -> Option<ObjectId> {
        self.oc_properties_id
    }

    /// A manager without layers, with the default configuration.
    pub fn new() -> (r: OCGManager)
        ensures
            r.layers_spec().len() == 0,
            r.properties_spec() is None,
            r.config_spec().base_state@ == "ON"@,
            r.config_spec().create_panel_ui,
            r.config_spec().intent@.len() == 1,
            r.config_spec().intent@[0]@ == "View"@,
    {
        OCGManager { layers: Vec::new(), config: OCGConfig::default(), oc_properties_id: None }
    }

    /// A manager without layers, with `config`.
    pub fn with_config(config: OCGConfig) -> (r: OCGManager)
        ensures
            r.layers_spec().len() == 0,
            r.properties_spec() is None,
            r.config_spec() == config,
    {
        OCGManager { layers: Vec::new(), config, oc_properties_id: None }
    }

    /// Adds `layer` last and returns its index.
    pub fn add_layer(&mut self, layer: Layer) -> (r: usize)
        requires
            old(self).layers_spec().len() < usize::MAX,
        ensures
            r == old(self).layers_spec().len(),
            final(self).layers_spec() == old(self).layers_spec().push(layer),
            final(self).config_spec() == old(self).config_spec(),
            final(self).properties_spec() == old(self).properties_spec(),
    {
        let index = self.layers.len();
        self.layers.push(layer);
        index
    }

    fn find(&self, name: &String) -> (r: Option<usize>)
        ensures
            r matches Some(i) ==> i < self.layers@.len() && last_named(self.layers@, name@) == Some(
                i as int,
            ),
            r is None ==> last_named(self.layers@, name@) is None,
    {
        proof {
            lemma_last_named_bounds(self.layers@, name@);
        }
        let mut i: usize = self.layers.len();
        while i > 0
            invariant
                i <= self.layers@.len(),
                forall|j: int| i <= j < self.layers@.len() ==> self.layers@[j].name@ != name@,
                last_named(self.layers@, name@) matches Some(k) ==> k < i,
            decreases i,
        {
            proof {
                lemma_last_named_bounds(self.layers@, name@);
            }
            if self.layers[i - 1].name == *name {
                return Some(i - 1);
            }
            i = i - 1;
        }
        proof {
            lemma_last_named_bounds(self.layers@, name@);
        }
        None
    }

    /// The layer added last under `name`, if any.
    pub fn get_layer(&self, name: &str) -> (r: Option<&Layer>)
        ensures
            match last_named(self.layers_spec(), name@) {
                Some(i) => r == Some(&self.layers_spec()[i]),
                None => r is None,
            },
    {
        proof {
            lemma_last_named_bounds(self.layers@, name@);
        }
        let key = String::from_str(name);
        match self.find(&key) {
            Some(i) => Some(&self.layers[i]),
            None => None,
        }
    }

    /// The layer added last under `name`, to change in place.
    pub fn get_layer_mut(&mut self, name: &str) -> (r: Option<&mut Layer>)
        ensures
            match last_named(old(self).layers_spec(), name@) {
                Some(i) => r matches Some(l) && *l == old(self).layers_spec()[i]
                    && final(self).layers_spec() == old(self).layers_spec().update(i, *final(l))
                    && final(self).config_spec() == old(self).config_spec() && final(self).properties_spec()
                    == old(self).properties_spec(),
                None => r is None && *final(self) == *old(self),
            },
    {
        proof {
            lemma_last_named_bounds(self.layers@, name@);
        }
        let key = String::from_str(name);
        match self.find(&key) {
            Some(i) => Some(&mut self.layers[i]),
            None => None,
        }
    }

    /// The number of layers.
    pub fn len(&self) -> (r: usize)
        ensures
            r == self.layers_spec().len(),
    {
        self.layers.len()
    }

    /// Whether there are no layers.
    pub fn is_empty(&self) -> (r: bool)
        ensures
            r == (self.layers_spec().len() == 0),
    {
        self.layers.len() == 0
    }

    /// Whether the declaring object has been written.
    pub fn has_oc_properties(&self) -> (r: bool)
        ensures
            r == self.properties_spec() is Some,
    {
        self.oc_properties_id.is_some()
    }
}

/// The identifiers of `layers`, in order.
pub open spec fn layer_ids(layers: Seq<Layer>) -> Seq<ObjectId> {
    layers.map_values(|l: Layer| l.id)
}

/// `a` and `b` hold the same layers but for their identifiers.
pub open spec fn same_but_ids(a: Seq<Layer>, b: Seq<Layer>) -> bool {
    &&& a.len() == b.len()
    &&& forall|i: int|
        0 <= i < a.len() ==> (#[trigger] a[i]).name == b[i].name && a[i].default_visible
            == b[i].default_visible && a[i].tag == b[i].tag
}

/// `a` and `b` hold the same layers but for their tags.
pub open spec fn same_but_tags(a: Seq<Layer>, b: Seq<Layer>) -> bool {
    &&& a.len() == b.len()
    &&& forall|i: int|
        0 <= i < a.len() ==> (#[trigger] a[i]).name == b[i].name && a[i].default_visible
            == b[i].default_visible && a[i].id == b[i].id
}

fn ids_with(layers: &Vec<Layer>, visible: bool) -> (r: Vec<ObjectId>)
    ensures
        r@ == ids_with_visibility(layers@, visible),
{
    let mut out: Vec<ObjectId> = Vec::new();
    let mut i: usize = 0;
    while i < layers.len()
        invariant
            i <= layers@.len(),
            out@ == ids_with_visibility(layers@.subrange(0, i as int), visible),
        decreases layers@.len() - i,
    {
        proof {
            let s = layers@.subrange(0, i as int + 1);
            assert(s.drop_last() =~= layers@.subrange(0, i as int));
        }
        if layers[i].default_visible == visible {
            out.push(layers[i].id);
        }
        i = i + 1;
        proof {
            let s = layers@.subrange(0, i as int);
            assert(out@ =~= ids_with_visibility(s, visible));
        }
    }
    assert(layers@.subrange(0, layers@.len() as int) =~= layers@);
    out
}

fn copy_strings(v: &Vec<String>) -> (r: Vec<String>)
    ensures
        r@ == v@,
{
    let mut out: Vec<String> = Vec::new();
    let mut i: usize = 0;
    while i < v.len()
        invariant
            i <= v@.len(),
            out@ == v@.subrange(0, i as int),
        decreases v@.len() - i,
    {
        out.push(v[i].clone());
        i = i + 1;
        assert(out@ =~= v@.subrange(0, i as int));
    }
    assert(out@ =~= v@);
    out
}

impl OCGManager {
    /// What the declaring object holds for the current layers and configuration.
    pub fn oc_properties_plan(&self) -> (r: OcPropertiesPlan)
        ensures
            r.ocgs@ == layer_ids(self.layers_spec()),
            match r.on {
                Some(v) => v@.len() > 0 && v@ == ids_with_visibility(self.layers_spec(), true),
                None => ids_with_visibility(self.layers_spec(), true).len() == 0,
            },
            match r.off {
                Some(v) => v@.len() > 0 && v@ == ids_with_visibility(self.layers_spec(), false),
                None => ids_with_visibility(self.layers_spec(), false).len() == 0,
            },
            match r.base_state {
                Some(b) => b == self.config_spec().base_state && b@.len() > 0,
                None => self.config_spec().base_state@.len() == 0,
            },
            r.list_all_pages == self.config_spec().create_panel_ui,
            match r.intent {
                Some(v) => v@.len() > 0 && v@ == self.config_spec().intent@,
                None => self.config_spec().intent@.len() == 0,
            },
    {
        let mut ocgs: Vec<ObjectId> = Vec::new();
        let mut i: usize = 0;
        while i < self.layers.len()
            invariant
                i <= self.layers@.len(),
                ocgs@ == layer_ids(self.layers@.subrange(0, i as int)),
            decreases self.layers@.len() - i,
        {
            ocgs.push(self.layers[i].id);
            i = i + 1;
            assert(ocgs@ =~= layer_ids(self.layers@.subrange(0, i as int)));
        }
        assert(self.layers@.subrange(0, self.layers@.len() as int) =~= self.layers@);
        let on_ids = ids_with(&self.layers, true);
        let off_ids = ids_with(&self.layers, false);
        let on = if on_ids.len() > 0 {
            Some(on_ids)
        } else {
            None
        };
        let off = if off_ids.len() > 0 {
            Some(off_ids)
        } else {
            None
        };
        let base_state = if self.config.base_state.as_str().is_empty() {
            None
        } else {
            Some(self.config.base_state.clone())
        };
        let intent = if self.config.intent.len() > 0 {
            Some(copy_strings(&self.config.intent))
        } else {
            None
        };
        OcPropertiesPlan {
            ocgs,
            on,
            off,
            base_state,
            list_all_pages: self.config.create_panel_ui,
            intent,
        }
    }
}

impl OCGManager {
    /// Writes one group object per layer into `doc`, records each layer's
    /// identifier, then writes the declaring object.
    pub fn initialize(&mut self, doc: &mut lopdf::Document)
        requires
            last_object_number(*old(doc)) + old(self).layers_spec().len() < u32::MAX,
        ensures
            same_but_ids(final(self).layers_spec(), old(self).layers_spec()),
            forall|i: int|
                0 <= i < final(self).layers_spec().len() ==> (#[trigger] final(self).layers_spec()[i]).id
                    == ((last_object_number(*old(doc)) + i + 1) as u32, 0u16),
            final(self).config_spec() == old(self).config_spec(),
            final(self).properties_spec() == Some(
                (
                    (last_object_number(*old(doc)) + old(self).layers_spec().len() + 1) as u32,
                    0u16,
                ),
            ),
            last_object_number(*final(doc)) == last_object_number(*old(doc))
                + old(self).layers_spec().len() + 1,
            declares_layers(
                stored_objects(*final(doc))[final(self).properties_spec()->Some_0],
                final(self).layers_spec(),
                final(self).config_spec(),
            ),
    {
        let mut i: usize = 0;
        while i < self.layers.len()
            invariant
                i <= self.layers@.len(),
                same_but_ids(self.layers@, old(self).layers@),
                self.config == old(self).config,
                last_object_number(*doc) == last_object_number(*old(doc)) + i,
                last_object_number(*old(doc)) + self.layers@.len() < u32::MAX,
                forall|j: int|
                    0 <= j < i ==> (#[trigger] self.layers@[j]).id == ((last_object_number(
                        *old(doc),
                    ) + j + 1) as u32, 0u16),
            decreases self.layers@.len() - i,
        {
            let mut d = pdf::new_dictionary();
            pdf::set_name(&mut d, "Type", "OCG");
            pdf::set_text(&mut d, "Name", self.layers[i].name.as_str());
            let id = pdf::add_dictionary(doc, d);
            self.layers[i].id = id;
            i = i + 1;
        }
        self.create_oc_properties(doc);
    }

    fn create_oc_properties(&mut self, doc: &mut lopdf::Document)
        requires
            last_object_number(*old(doc)) < u32::MAX,
        ensures
            final(self).layers@ == old(self).layers@,
            final(self).config == old(self).config,
            final(self).oc_properties_id == Some(
                ((last_object_number(*old(doc)) + 1) as u32, 0u16),
            ),
            adds_object(*old(doc), *final(doc), final(self).oc_properties_id->Some_0),
            declares_layers(
                stored_objects(*final(doc))[final(self).oc_properties_id->Some_0],
                old(self).layers@,
                old(self).config,
            ),
    {
        let plan = self.oc_properties_plan();
        let id = write_oc_properties(doc, &plan, Ghost(self.layers@), Ghost(self.config));
        self.oc_properties_id = Some(id);
    }

    /// Assigns the tags `L0`, `L1`, ... to the layers in order, lists them
    /// under `Properties` in `resources`, and returns each layer's name with
    /// its tag (for two layers of one name, the later tag is the one looked up
    /// by name).
    pub fn setup_page_resources(&mut self, resources: &mut lopdf::Dictionary) -> (r: Vec<
        (String, String),
    >)
        ensures
            same_but_tags(final(self).layers_spec(), old(self).layers_spec()),
            dictionary_keys(*final(resources)) == dictionary_keys(*old(resources)).insert(
                "Properties".spec_bytes(),
            ),
            final(self).config_spec() == old(self).config_spec(),
            final(self).properties_spec() == old(self).properties_spec(),
            dictionary_value(entry(*final(resources), "Properties".spec_bytes())) matches Some(p)
                && tags_listed(p, old(self).layers_spec()),
            r@.len() == old(self).layers_spec().len(),
            forall|i: int|
                0 <= i < r@.len() ==> {
                    &&& (#[trigger] r@[i]).0 == old(self).layers_spec()[i].name
                    &&& r@[i].1@ == numbered("L"@, i as nat)
                    &&& final(self).layers_spec()[i].tag == Some(r@[i].1)
                },
    {
        let mut properties = pdf::new_dictionary();
        assert(dictionary_keys(properties) =~= tag_keys(0).to_set());
        let mut tags: Vec<(String, String)> = Vec::new();
        let mut i: usize = 0;
        while i < self.layers.len()
            invariant
                i <= self.layers@.len(),
                same_but_tags(self.layers@, old(self).layers@),
                self.config == old(self).config,
                self.oc_properties_id == old(self).oc_properties_id,
                tags@.len() == i,
                forall|j: int|
                    0 <= j < i ==> {
                        &&& (#[trigger] tags@[j]).0 == old(self).layers@[j].name
                        &&& tags@[j].1@ == numbered("L"@, j as nat)
                        &&& self.layers@[j].tag == Some(tags@[j].1)
                    },
                tags_listed(properties, old(self).layers@.subrange(0, i as int)),
            decreases self.layers@.len() - i,
        {
            let tag = numbered_name("L", i);
            let ghost before = properties;
            let tag_str = tag.as_str();
            pdf::set_reference(&mut properties, tag_str, self.layers[i].id);
            proof {
                let ls = old(self).layers@.subrange(0, i as int + 1);
                let key = numbered_bytes("L"@, i as nat);
                assert(tag_str.spec_bytes() == key);
                assert(self.layers@[i as int].id == old(self).layers@[i as int].id);
                assert forall|j: int| 0 <= j < i implies #[trigger] numbered_bytes("L"@, j as nat)
                    != key by {
                    if numbered_bytes("L"@, j as nat) == key {
                        lemma_numbered_bytes_injective("L"@, j as nat, i as nat);
                    }
                }
                let prev = old(self).layers@.subrange(0, i as int);
                assert(tag_keys(ls.len()) =~= tag_keys(i as nat).push(key));
                tag_keys(i as nat).lemma_push_to_set_commute(key);
                assert(dictionary_keys(properties) =~= tag_keys(ls.len()).to_set());
                assert forall|j: int| 0 <= j < ls.len() implies reference_value(
                    entry(properties, #[trigger] numbered_bytes("L"@, j as nat)),
                ) == Some(ls[j].id) by {
                    if j < i {
                        assert(ls[j] == old(self).layers@.subrange(0, i as int)[j]);
                    }
                }
            }
            let name = self.layers[i].name.clone();
            self.layers[i].tag = Some(tag.clone());
            tags.push((name, tag));
            i = i + 1;
        }
        assert(old(self).layers@.subrange(0, i as int) =~= old(self).layers@);
        pdf::set_dictionary(resources, "Properties", properties);
        tags
    }

    /// Points the document catalog's `OCProperties` entry at the declaring
    /// object, when that object has been written and the trailer names a
    /// catalog.
    pub fn update_catalog(&self, doc: &mut lopdf::Document)
        ensures
            stored_objects(*final(doc)).dom() == stored_objects(*old(doc)).dom(),
            last_object_number(*final(doc)) == last_object_number(*old(doc)),
            catalog_points_at(*old(doc), *final(doc), self.properties_spec()),
    {
        if let Some(props) = self.oc_properties_id {
            if let Some(catalog) = pdf::catalog_id(doc) {
                pdf::set_reference_in(doc, catalog, "OCProperties", props);
            }
        }
    }
}

/// `key` when `present`, as a set.
pub open spec fn key_if(present: bool, key: Seq<u8>) -> Set<Seq<u8>> {
    if present {
        set![key]
    } else {
        Set::empty()
    }
}

/// `o` is the object that declares `layers` under `config`: a dictionary
/// with `/OCGs`, references to every layer in order; `/D`, a dictionary with
/// `/Order` (the same references), `/BaseState` (when the base state is not
/// empty), `/ON` and `/OFF` (references to the visible and to the hidden
/// layers, each when there are any) and `/ListMode /AllPages` (with a
/// panel); and `/Intent`, the intents as names, when there are any.
pub open spec fn declares_layers(o: lopdf::Object, layers: Seq<Layer>, config: OCGConfig) -> bool {
    let on = ids_with_visibility(layers, true);
    let off = ids_with_visibility(layers, false);
    dictionary_value(o) matches Some(p) && {
        let pe = dictionary_entries(p);
        &&& pe.dom() == set!["OCGs".spec_bytes(), "D".spec_bytes()].union(
            key_if(config.intent@.len() > 0, "Intent".spec_bytes()),
        )
        &&& is_reference_array(pe["OCGs".spec_bytes()], layer_ids(layers))
        &&& (config.intent@.len() > 0 ==> (array_items(pe["Intent".spec_bytes()]) matches Some(
            items,
        ) && items.len() == config.intent@.len() && forall|i: int|
            0 <= i < items.len() ==> name_value(#[trigger] items[i]) == Some(
                vstd::utf8::encode_utf8(config.intent@[i]@),
            )))
        &&& dictionary_value(pe["D".spec_bytes()]) matches Some(dd) && {
            let de = dictionary_entries(dd);
            &&& de.dom() == set!["Order".spec_bytes()].union(
                key_if(config.base_state@.len() > 0, "BaseState".spec_bytes()),
            ).union(key_if(on.len() > 0, "ON".spec_bytes())).union(
                key_if(off.len() > 0, "OFF".spec_bytes()),
            ).union(key_if(config.create_panel_ui, "ListMode".spec_bytes()))
            &&& is_reference_array(de["Order".spec_bytes()], layer_ids(layers))
            &&& (config.base_state@.len() > 0 ==> name_value(de["BaseState".spec_bytes()])
                == Some(vstd::utf8::encode_utf8(config.base_state@)))
            &&& (on.len() > 0 ==> is_reference_array(de["ON".spec_bytes()], on))
            &&& (off.len() > 0 ==> is_reference_array(de["OFF".spec_bytes()], off))
            &&& (config.create_panel_ui ==> name_value(de["ListMode".spec_bytes()]) == Some(
                "AllPages".spec_bytes(),
            ))
        }
    }
}

proof fn lemma_property_keys_distinct()
    ensures
        "OCGs".spec_bytes() != "D".spec_bytes(),
        "OCGs".spec_bytes() != "Intent".spec_bytes(),
        "D".spec_bytes() != "Intent".spec_bytes(),
        "Order".spec_bytes() != "BaseState".spec_bytes(),
        "Order".spec_bytes() != "ON".spec_bytes(),
        "Order".spec_bytes() != "OFF".spec_bytes(),
        "Order".spec_bytes() != "ListMode".spec_bytes(),
        "BaseState".spec_bytes() != "ON".spec_bytes(),
        "BaseState".spec_bytes() != "OFF".spec_bytes(),
        "BaseState".spec_bytes() != "ListMode".spec_bytes(),
        "ON".spec_bytes() != "OFF".spec_bytes(),
        "ON".spec_bytes() != "ListMode".spec_bytes(),
        "OFF".spec_bytes() != "ListMode".spec_bytes(),
{
    broadcast use vstd::string::is_ascii_spec_bytes;

    reveal_strlit("OCGs");
    reveal_strlit("D");
    reveal_strlit("Intent");
    reveal_strlit("Order");
    reveal_strlit("BaseState");
    reveal_strlit("ON");
    reveal_strlit("OFF");
    reveal_strlit("ListMode");
    assert(is_ascii("OCGs"));
    assert(is_ascii("D"));
    assert(is_ascii("Intent"));
    assert(is_ascii("Order"));
    assert(is_ascii("BaseState"));
    assert(is_ascii("ON"));
    assert(is_ascii("OFF"));
    assert(is_ascii("ListMode"));
    assert("OCGs".spec_bytes()[0] == 79u8);
    assert("D".spec_bytes()[0] == 68u8);
    assert("Intent".spec_bytes()[0] == 73u8);
    assert("Order".spec_bytes()[1] == 114u8);
    assert("BaseState".spec_bytes()[0] == 66u8);
    assert("ON".spec_bytes()[1] == 78u8);
    assert("OFF".spec_bytes()[1] == 70u8);
    assert("ListMode".spec_bytes()[0] == 76u8);
    assert("Order".spec_bytes()[0] == 79u8);
    assert("ON".spec_bytes()[0] == 79u8);
    assert("OFF".spec_bytes()[0] == 79u8);
}

/// Writes the declaring object described by `plan` into `doc` and returns its
/// identifier.
fn write_oc_properties(
    doc: &mut lopdf::Document,
    plan: &OcPropertiesPlan,
    Ghost(layers): Ghost<Seq<Layer>>,
    Ghost(config): Ghost<OCGConfig>,
) -> (r: ObjectId)
    requires
        last_object_number(*old(doc)) < u32::MAX,
        plan.ocgs@ == layer_ids(layers),
        match plan.on {
            Some(v) => v@.len() > 0 && v@ == ids_with_visibility(layers, true),
            None => ids_with_visibility(layers, true).len() == 0,
        },
        match plan.off {
            Some(v) => v@.len() > 0 && v@ == ids_with_visibility(layers, false),
            None => ids_with_visibility(layers, false).len() == 0,
        },
        match plan.base_state {
            Some(b) => b == config.base_state && b@.len() > 0,
            None => config.base_state@.len() == 0,
        },
        plan.list_all_pages == config.create_panel_ui,
        match plan.intent {
            Some(v) => v@.len() > 0 && v@ == config.intent@,
            None => config.intent@.len() == 0,
        },
    ensures
        adds_object(*old(doc), *final(doc), r),
        declares_layers(stored_objects(*final(doc))[r], layers, config),
{
    proof {
        lemma_property_keys_distinct();
    }
    let mut default_config = pdf::new_dictionary();
    pdf::set_references(&mut default_config, "Order", &plan.ocgs);
    if let Some(b) = &plan.base_state {
        pdf::set_name(&mut default_config, "BaseState", b.as_str());
    }
    if let Some(on) = &plan.on {
        pdf::set_references(&mut default_config, "ON", on);
    }
    if let Some(off) = &plan.off {
        pdf::set_references(&mut default_config, "OFF", off);
    }
    if plan.list_all_pages {
        pdf::set_name(&mut default_config, "ListMode", "AllPages");
    }
    let ghost dd = default_config;
    let mut props = pdf::new_dictionary();
    pdf::set_references(&mut props, "OCGs", &plan.ocgs);
    pdf::set_dictionary(&mut props, "D", default_config);
    if let Some(intent) = &plan.intent {
        pdf::set_names(&mut props, "Intent", intent);
    }
    proof {
        let on = ids_with_visibility(layers, true);
        let off = ids_with_visibility(layers, false);
        let de = dictionary_entries(dd);
        assert(de.dom() =~= set!["Order".spec_bytes()].union(
            key_if(config.base_state@.len() > 0, "BaseState".spec_bytes()),
        ).union(key_if(on.len() > 0, "ON".spec_bytes())).union(
            key_if(off.len() > 0, "OFF".spec_bytes()),
        ).union(key_if(config.create_panel_ui, "ListMode".spec_bytes())));
        assert(dictionary_entries(props).dom() =~= set!["OCGs".spec_bytes(), "D".spec_bytes()].union(
            key_if(config.intent@.len() > 0, "Intent".spec_bytes()),
        ));
    }
    pdf::add_dictionary(doc, props)
}

/// The catalog named by the trailer's `Root` reference, if any.
pub open spec fn catalog_of(doc: lopdf::Document) -> Option<ObjectId> {
    if dictionary_keys(trailer(doc)).contains("Root".spec_bytes()) {
        reference_value(entry(trailer(doc), "Root".spec_bytes()))
    } else {
        None
    }
}

/// When `props` is set and `before` has a catalog dictionary, the catalog of
/// `after` has `/OCProperties` referring to `props`.
pub open spec fn catalog_points_at(
    before: lopdf::Document,
    after: lopdf::Document,
    props: Option<ObjectId>,
) -> bool {
    props is Some && catalog_of(before) is Some && stored_objects(before).contains_key(
        catalog_of(before)->Some_0,
    ) && dictionary_value(stored_objects(before)[catalog_of(before)->Some_0]) is Some ==> (
    dictionary_value(stored_objects(after)[catalog_of(before)->Some_0]) matches Some(c)
        && reference_value(entry(c, "OCProperties".spec_bytes())) == props)
}

/// The key bytes of the tags `L0` to `L<n - 1>`.
pub open spec fn tag_keys(n: nat) -> Seq<Seq<u8>> {
    Seq::new(n, |j: int| numbered_bytes("L"@, j as nat))
}

/// `p` maps exactly the tags `L0`, `L1`, ... to the objects of `layers`, in
/// order.
pub open spec fn tags_listed(p: lopdf::Dictionary, layers: Seq<Layer>) -> bool {
    &&& dictionary_keys(p) == tag_keys(layers.len()).to_set()
    &&& forall|j: int|
        0 <= j < layers.len() ==> reference_value(entry(p, #[trigger] numbered_bytes("L"@, j as nat)))
            == Some(layers[j].id)
}

/// `v` opens content of the layer tagged `tag`: `/OC /tag BDC`.
pub open spec fn is_layer_begin(v: OpView, tag: Seq<char>) -> bool {
    &&& v.0 == "BDC"@
    &&& v.1.len() == 2
    &&& is_name(v.1[0], "OC"@)
    &&& is_name(v.1[1], tag)
}

/// `ops`, followed by the end of the open layer's content when one is open.
pub open spec fn closed_ops(ops: Seq<OpView>, open: bool) -> Seq<OpView> {
    if open {
        ops.push(bare("EMC"@))
    } else {
        ops
    }
}

/// Builds a content stream whose parts belong to layers.
pub struct LayerContentBuilder {
    operations: Vec<Op>,
    current_layer: Option<String>,
}

impl LayerContentBuilder {
    /// The operators so far.
    pub closed spec fn ops_spec(&self) -> Seq<OpView> {
        ops_view(self.operations@)
    }

    /// The tag of the open layer, if any.
    pub closed spec fn open_spec(&self) -> Option<Seq<char>> {
        match self.current_layer {
            Some(t) => Some(t@),
            None => None,
        }
    }

    /// An empty builder with no layer open.
    pub fn new() -> (r: LayerContentBuilder)
        ensures
            r.ops_spec().len() == 0,
            r.open_spec() is None,
    {
        let r = LayerContentBuilder { operations: Vec::new(), current_layer: None };
        assert(r.ops_spec() =~= Seq::<OpView>::empty());
        r
    }

    /// Closes the open layer, if any, and opens the layer tagged `layer_tag`.
    pub fn begin_layer(&mut self, layer_tag: &str) -> (r: &mut Self)
        ensures
            r.ops_spec().drop_last() == closed_ops(old(self).ops_spec(), old(self).open_spec() is Some),
            r.ops_spec().len() > 0,
            is_layer_begin(r.ops_spec().last(), layer_tag@),
            r.open_spec() == Some(layer_tag@),
            *final(self) == *final(r),
    {
        self.end_layer();
        let ghost mid = ops_view(self.operations@);
        let mut operands: Vec<Operand> = Vec::new();
        operands.push(Operand::Name(String::from_str("OC")));
        operands.push(Operand::Name(String::from_str(layer_tag)));
        self.operations.push(Op::new("BDC", operands));
        assert(ops_view(self.operations@).drop_last() =~= mid);
        self.current_layer = Some(String::from_str(layer_tag));
        self
    }

    /// Closes the open layer, if any.
    pub fn end_layer(&mut self) -> (r: &mut Self)
        ensures
            r.ops_spec() == closed_ops(old(self).ops_spec(), old(self).open_spec() is Some),
            r.open_spec() is None,
            *final(self) == *final(r),
    {
        if self.current_layer.is_some() {
            let ghost before = self.operations@;
            self.operations.push(Op::bare("EMC"));
            assert(ops_view(self.operations@) =~= ops_view(before).push(bare("EMC"@)));
            self.current_layer = None;
        }
        self
    }

    /// Appends `op`.
    pub fn add_operation(&mut self, op: Op) -> (r: &mut Self)
        ensures
            r.ops_spec() == old(self).ops_spec().push(op@),
            r.open_spec() == old(self).open_spec(),
            *final(self) == *final(r),
    {
        let ghost before = self.operations@;
        self.operations.push(op);
        assert(ops_view(self.operations@) =~= ops_view(before).push(op@));
        self
    }

    /// Appends `ops`, in order.
    pub fn add_operations(&mut self, ops: Vec<Op>) -> (r: &mut Self)
        ensures
            r.ops_spec() == old(self).ops_spec() + ops_view(ops@),
            r.open_spec() == old(self).open_spec(),
            *final(self) == *final(r),
    {
        crate::content::extend_ops(&mut self.operations, &ops);
        self
    }

    /// The operators, with the open layer closed.
    pub fn build(self) -> (r: Vec<Op>)
        ensures
            ops_view(r@) == closed_ops(self.ops_spec(), self.open_spec() is Some),
    {
        let mut b = self;
        b.end_layer();
        b.operations
    }
}

/// Operators without numeric operands for content inside layers.
pub struct LayerOperations;

impl LayerOperations {
    /// Fills the current path: `f`.
    pub fn fill() -> (r: Op)
        ensures
            r@ == bare("f"@),
    {
        Op::bare("f")
    }

    /// Strokes the current path: `S`.
    pub fn stroke() -> (r: Op)
        ensures
            r@ == bare("S"@),
    {
        Op::bare("S")
    }

    /// Begins a text object: `BT`.
    pub fn begin_text() -> (r: Op)
        ensures
            r@ == bare("BT"@),
    {
        Op::bare("BT")
    }

    /// Ends a text object: `ET`.
    pub fn end_text() -> (r: Op)
        ensures
            r@ == bare("ET"@),
    {
        Op::bare("ET")
    }

    /// Shows `text`: `(text) Tj`.
    pub fn show_text(text: &str) -> (r: Op)
        ensures
            r@.0 == "Tj"@,
            r@.1.len() == 1,
            r@.1[0] matches Operand::Text(t) && t@ == text@,
    {
        let mut operands: Vec<Operand> = Vec::new();
        operands.push(Operand::Text(String::from_str(text)));
        Op::new("Tj", operands)
    }
}

} // verus!
