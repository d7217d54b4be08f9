use hipdf::content::{Op, Operand};
use hipdf::lopdf::{Dictionary, Document, Object};
use hipdf::ocg::{Layer, LayerContentBuilder, LayerOperations as Ops, OCGConfig, OCGManager};

fn num(v: f32) -> Operand {
    Operand::Number(Object::Real(v))
}

fn rectangle(x: f32, y: f32, w: f32, h: f32) -> Op {
    Op::new("re", vec![num(x), num(y), num(w), num(h)])
}

#[test]
fn test_ocg_manager_creation() {
    let config = OCGConfig::default();
    let manager = OCGManager::with_config(config);

    assert!(!manager.has_oc_properties());
    assert!(manager.is_empty());
}

#[test]
fn test_layer_creation() {
    let layer = Layer::new("Test Layer", false);

    assert_eq!(layer.name, "Test Layer");
    assert!(!layer.default_visible);
    assert!(layer.tag.is_none());
}

#[test]
fn test_layer_content_builder() {
    let mut builder = LayerContentBuilder::new();

    builder
        .begin_layer("L0")
        .add_operation(rectangle(0.0, 0.0, 100.0, 100.0))
        .end_layer();

    let operations = builder.build();
    assert!(!operations.is_empty());
    assert_eq!(operations.len(), 3); // BDC, Operation, EMC
}

#[test]
fn test_layer_operations() {
    let rect_op = rectangle(10.0, 20.0, 100.0, 200.0);
    let fill_op = Ops::fill();
    let stroke_op = Ops::stroke();

    assert_eq!(
        format!("{:?}", rect_op),
        format!("{:?}", rectangle(10.0, 20.0, 100.0, 200.0))
    );
    assert_eq!(format!("{:?}", fill_op), format!("{:?}", Ops::fill()));
    assert_eq!(format!("{:?}", stroke_op), format!("{:?}", Ops::stroke()));

    let text_op = Ops::show_text("Test Text");
    assert_eq!(
        format!("{:?}", text_op),
        format!("{:?}", Ops::show_text("Test Text"))
    );
    assert_eq!(fill_op.operator, "f");
    assert_eq!(stroke_op.operator, "S");
    assert_eq!(text_op.operator, "Tj");
    assert!(matches!(&text_op.operands[0], Operand::Text(t) if t == "Test Text"));
}

#[test]
fn test_ocg_configuration() {
    let configs = vec![
        OCGConfig {
            base_state: "OFF".to_string(),
            create_panel_ui: false,
            intent: vec!["View".to_string()],
        },
        OCGConfig {
            base_state: "ON".to_string(),
            create_panel_ui: true,
            intent: vec!["View".to_string(), "Design".to_string()],
        },
    ];

    for config in configs {
        let manager = OCGManager::with_config(config.clone());
        assert_eq!(manager.config.base_state, config.base_state);
        assert_eq!(manager.config.create_panel_ui, config.create_panel_ui);
        assert_eq!(manager.config.intent, config.intent);
    }
}

#[test]
fn test_ocg_performance() {
    let mut manager = OCGManager::new();
    let start = std::time::Instant::now();
    for i in 0..50 {
        manager.add_layer(Layer::new(&format!("Layer {}", i), true));
    }
    let duration = start.elapsed();

    let avg_time = duration.as_nanos() as f64 / 50_000_000.0;
    println!("Layer creation: {:.2}ms per layer", avg_time);

    assert!(avg_time < 1.0, "Layer creation should be fast");
}

#[test]
fn test_layer_retrieval() {
    let mut manager = OCGManager::new();

    let layer1 = Layer::new("Test Layer 1", true);
    let layer2 = Layer::new("Test Layer 2", false);

    let idx1 = manager.add_layer(layer1);
    let idx2 = manager.add_layer(layer2);

    assert_eq!(idx1, 0);
    assert_eq!(idx2, 1);
    assert_eq!(manager.len(), 2);

    let retrieved = manager.get_layer("Test Layer 1");
    assert!(retrieved.is_some());
    assert_eq!(retrieved.unwrap().name, "Test Layer 1");
    assert!(retrieved.unwrap().default_visible);

    let retrieved2 = manager.get_layer("Nonexistent");
    assert!(retrieved2.is_none());

    let mut_layer = manager.get_layer_mut("Test Layer 2");
    assert!(mut_layer.is_some());
    mut_layer.unwrap().default_visible = true;
    assert!(manager.get_layer("Test Layer 2").unwrap().default_visible);
}

#[test]
fn test_complex_content_building() {
    let mut builder = LayerContentBuilder::new();

    builder
        .begin_layer("L0")
        .add_operation(Ops::begin_text())
        .add_operation(Op::new("Tf", vec![Operand::Name("F1".to_string()), num(12.0)]))
        .add_operation(Op::new("Td", vec![num(10.0), num(20.0)]))
        .add_operation(Ops::show_text("Layer 0 content"))
        .add_operation(Ops::end_text())
        .add_operation(rectangle(10.0, 10.0, 100.0, 50.0))
        .add_operation(Ops::fill())
        .end_layer()
        .begin_layer("L1")
        .add_operation(Op::new("rg", vec![num(1.0), num(0.0), num(0.0)]))
        .add_operation(rectangle(20.0, 20.0, 80.0, 40.0))
        .add_operation(Ops::stroke())
        .end_layer();

    let operations = builder.build();
    assert!(!operations.is_empty());

    // BDC, BT, Tf, Td, Tj, ET, re, f, EMC, BDC, rg, re, S, EMC
    assert_eq!(operations.len(), 14);
}

#[test]
fn test_ocg_config_variations() {
    let configs = vec![
        OCGConfig {
            base_state: "OFF".to_string(),
            create_panel_ui: false,
            intent: vec!["View".to_string()],
        },
        OCGConfig {
            base_state: "ON".to_string(),
            create_panel_ui: true,
            intent: vec!["View".to_string(), "Design".to_string(), "Print".to_string()],
        },
        OCGConfig {
            base_state: "Unchanged".to_string(),
            create_panel_ui: true,
            intent: vec![],
        },
    ];

    for config in configs {
        let manager = OCGManager::with_config(config.clone());
        assert_eq!(manager.config.base_state, config.base_state);
        assert_eq!(manager.config.create_panel_ui, config.create_panel_ui);
        assert_eq!(manager.config.intent, config.intent);
    }
}

#[test]
fn test_layer_tags_and_resources() {
    let mut doc = Document::with_version("1.5");
    let mut manager = OCGManager::new();

    manager.add_layer(Layer::new("Layer A", true));
    manager.add_layer(Layer::new("Layer B", false));
    manager.initialize(&mut doc);

    let mut font = Dictionary::new();
    font.set("Type", "Font");
    font.set("Subtype", "Type1");
    font.set("BaseFont", "Helvetica");
    let mut fonts = Dictionary::new();
    fonts.set("F1", doc.add_object(font));
    let mut resources = Dictionary::new();
    resources.set("Font", fonts);

    let layer_tags = manager.setup_page_resources(&mut resources);

    let tag_of = |name: &str| {
        layer_tags
            .iter()
            .rev()
            .find(|(n, _)| n == name)
            .map(|(_, t)| t.clone())
    };
    assert_eq!(layer_tags.len(), 2);
    assert_eq!(tag_of("Layer A"), Some("L0".to_string()));
    assert_eq!(tag_of("Layer B"), Some("L1".to_string()));

    assert!(resources.has(b"Properties"));
}

#[test]
fn layers_get_distinct_ids_and_properties_on_initialize() {
    let mut doc = Document::with_version("1.5");
    let mut manager = OCGManager::new();
    manager.add_layer(Layer::new("A", true));
    manager.add_layer(Layer::new("B", false));
    manager.add_layer(Layer::new("C", true));
    manager.initialize(&mut doc);
    assert!(manager.has_oc_properties());

    let a = manager.get_layer("A").unwrap().id;
    let b = manager.get_layer("B").unwrap().id;
    let c = manager.get_layer("C").unwrap().id;
    assert_eq!((a, b, c), ((1, 0), (2, 0), (3, 0)));
    assert_eq!(hipdf::document::object_numbers_left(&doc), u32::MAX - 4);

    let plan = manager.oc_properties_plan();
    assert_eq!(plan.ocgs.len(), 3);
    assert_eq!(plan.on.as_ref().unwrap().len(), 2);
    assert_eq!(plan.off.as_ref().unwrap(), &vec![b]);
    assert_eq!(plan.base_state.as_deref(), Some("ON"));
    assert!(plan.list_all_pages);
    assert_eq!(plan.intent.as_ref().unwrap(), &vec!["View".to_string()]);
}

#[test]
fn properties_plan_omits_empty_entries() {
    let mut manager = OCGManager::with_config(OCGConfig {
        base_state: String::new(),
        create_panel_ui: false,
        intent: vec![],
    });
    manager.add_layer(Layer::new("Only", true));
    let plan = manager.oc_properties_plan();
    assert!(plan.off.is_none());
    assert!(plan.on.is_some());
    assert!(plan.base_state.is_none());
    assert!(!plan.list_all_pages);
    assert!(plan.intent.is_none());
}

#[test]
fn lookup_by_name_finds_the_layer_added_last() {
    let mut manager = OCGManager::new();
    manager.add_layer(Layer::new("Same", true));
    manager.add_layer(Layer::new("Same", false));
    assert!(!manager.get_layer("Same").unwrap().default_visible);
}

#[test]
fn begin_layer_closes_the_open_layer() {
    let mut builder = LayerContentBuilder::new();
    builder.begin_layer("L0").begin_layer("L1");
    let ops = builder.build();
    let names: Vec<&str> = ops.iter().map(|o| o.operator.as_str()).collect();
    assert_eq!(names, vec!["BDC", "EMC", "BDC", "EMC"]);
    assert!(matches!(&ops[2].operands[1], Operand::Name(n) if n == "L1"));
}

#[test]
fn tags_are_numbered_from_zero() {
    let mut manager = OCGManager::new();
    for i in 0..12 {
        manager.add_layer(Layer::new(&format!("layer{}", i), true));
    }
    let mut resources = Dictionary::new();
    let tags = manager.setup_page_resources(&mut resources);
    assert_eq!(tags[11].1, "L11");
    assert_eq!(manager.get_layer("layer10").unwrap().tag.as_deref(), Some("L10"));
}

#[test]
fn with_visibility_changes_only_visibility() {
    let layer = Layer::new("X", true).with_visibility(false);
    assert_eq!(layer.name, "X");
    assert!(!layer.default_visible);
}

#[test]
fn catalog_points_at_the_properties_object() {
    let mut doc = Document::with_version("1.5");
    let mut catalog = Dictionary::new();
    catalog.set("Type", "Catalog");
    let catalog_id = doc.add_object(catalog);
    doc.trailer.set("Root", catalog_id);

    let mut manager = OCGManager::new();
    manager.add_layer(Layer::new("A", false));
    manager.initialize(&mut doc);
    manager.update_catalog(&mut doc);

    let catalog = doc.get_object(catalog_id).unwrap().as_dict().unwrap();
    assert_eq!(catalog.get(b"OCProperties").unwrap(), &Object::Reference((3, 0)));
    let props = doc.get_object((3, 0)).unwrap().as_dict().unwrap();
    assert!(props.has(b"OCGs"));
    let d = props.get(b"D").unwrap().as_dict().unwrap();
    assert!(d.has(b"OFF"));
    assert!(!d.has(b"ON"));
    assert_eq!(d.get(b"BaseState").unwrap(), &Object::Name(b"ON".to_vec()));
    let group = doc.get_object((2, 0)).unwrap().as_dict().unwrap();
    assert_eq!(group.get(b"Name").unwrap(), &Object::string_literal("A"));
}

#[test]
fn properties_map_tags_to_layer_objects() {
    let mut doc = Document::with_version("1.5");
    let mut manager = OCGManager::new();
    manager.add_layer(Layer::new("A", true));
    manager.add_layer(Layer::new("B", true));
    manager.initialize(&mut doc);
    let mut resources = Dictionary::new();
    manager.setup_page_resources(&mut resources);
    let props = resources.get(b"Properties").unwrap().as_dict().unwrap();
    assert_eq!(props.len(), 2);
    assert_eq!(props.get(b"L0").unwrap(), &Object::Reference((1, 0)));
    assert_eq!(props.get(b"L1").unwrap(), &Object::Reference((2, 0)));
}
