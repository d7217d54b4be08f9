use hipdf::blocks::{merge_blocks, Block, BlockInstance, BlockManager};
use hipdf::content::{Op, Operand};
use hipdf::lopdf::{Dictionary, Document, Object};

fn num(v: f32) -> Operand {
    Operand::Number(Object::Real(v))
}

fn translate(x: f32, y: f32) -> Op {
    Op::new("cm", vec![num(1.0), num(0.0), num(0.0), num(1.0), num(x), num(y)])
}

#[test]
fn test_block_creation() {
    let ops = vec![
        Op::new("rg", vec![num(1.0), num(0.0), num(0.0)]),
        Op::new("re", vec![num(0.0), num(0.0), num(50.0), num(50.0)]),
        Op::bare("f"),
    ];

    let block = Block::new("test_block", ops.clone());
    assert_eq!(block.id, "test_block");
    assert_eq!(block.operations.len(), 3);
    assert!(block.bbox.is_none());
}

#[test]
fn test_block_manager() {
    let mut manager = BlockManager::new();

    let rect_ops = vec![
        Op::new("re", vec![num(0.0), num(0.0), num(30.0), num(30.0)]),
        Op::bare("f"),
    ];
    let circle_ops = vec![
        Op::new("m", vec![num(25.0), num(0.0)]),
        Op::new(
            "c",
            vec![num(25.0), num(13.807), num(13.807), num(25.0), num(0.0), num(25.0)],
        ),
        Op::bare("f"),
    ];

    manager.register(Block::new("rect", rect_ops));
    manager.register(Block::new("circle", circle_ops));

    assert_eq!(manager.count(), 2);
    assert!(manager.has("rect"));
    assert!(manager.has("circle"));
    assert!(!manager.has("nonexistent"));

    let rect_block = manager.get("rect");
    assert!(rect_block.is_some());
    assert_eq!(rect_block.unwrap().id, "rect");

    let removed = manager.remove("circle");
    assert!(removed.is_some());
    assert_eq!(manager.count(), 1);
}

#[test]
fn test_render_instance() {
    let mut manager = BlockManager::new();

    let ops = vec![
        Op::new("rg", vec![num(0.0), num(1.0), num(0.0)]),
        Op::new("re", vec![num(0.0), num(0.0), num(20.0), num(20.0)]),
        Op::bare("f"),
    ];
    manager.register(Block::new("green_square", ops));

    let instance = BlockInstance::new("green_square", translate(100.0, 100.0));
    let rendered_ops = manager.render_instance(&instance);

    // q, cm, the block's 3 ops, Q
    assert_eq!(rendered_ops.len(), 6);
}

#[test]
fn test_render_multiple_instances() {
    let mut manager = BlockManager::new();

    let ops = vec![
        Op::new("re", vec![num(0.0), num(0.0), num(10.0), num(10.0)]),
        Op::bare("S"),
    ];
    manager.register(Block::new("small_rect", ops));

    let instances = vec![
        BlockInstance::new("small_rect", translate(10.0, 10.0)),
        BlockInstance::new("small_rect", translate(30.0, 10.0)),
        BlockInstance::new("small_rect", translate(50.0, 10.0)),
        BlockInstance::new(
            "small_rect",
            Op::new("cm", vec![num(2.0), num(0.0), num(0.0), num(2.0), num(10.0), num(30.0)]),
        ),
    ];

    let rendered_ops = manager.render_instances(&instances);
    // q, cm, 2 ops, Q for each instance
    assert_eq!(rendered_ops.len(), 20);
}

#[test]
fn test_merge_blocks() {
    let block1 = Block::new("b1", vec![Op::bare("q"), Op::bare("Q")]);
    let block2 = Block::new("b2", vec![Op::bare("f")]);

    let merged = merge_blocks(&vec![&block1, &block2]);
    assert_eq!(merged.len(), 3);
}

#[test]
fn test_xobject_creation() {
    let mut doc = Document::with_version("1.7");
    let mut manager = BlockManager::new();

    let ops = vec![
        Op::new("rg", vec![num(1.0), num(0.0), num(1.0)]),
        Op::new("re", vec![num(0.0), num(0.0), num(50.0), num(50.0)]),
        Op::bare("f"),
    ];
    let mut block = Block::new("magenta_square", ops);
    block.bbox = Some(Object::Array(vec![0.into(), 0.into(), 50.into(), 50.into()]));
    manager.register(block);

    manager.create_xobjects(&mut doc);

    let instances = vec![
        BlockInstance::new("magenta_square", translate(10.0, 10.0)),
        BlockInstance::new(
            "magenta_square",
            Op::new("cm", vec![num(2.0), num(0.0), num(0.0), num(2.0), num(70.0), num(10.0)]),
        ),
    ];

    let mut resources = Dictionary::new();
    let ops = manager.render_instances_as_xobjects(&instances, &mut resources);

    assert!(resources.has(b"XObject"));
    // q, cm, Do, Q for each instance
    assert_eq!(ops.len(), 8);
    assert!(matches!(&ops[2].operands[0], Operand::Name(n) if n == "Blk0"));
    assert!(matches!(&ops[6].operands[0], Operand::Name(n) if n == "Blk1"));
}

#[test]
fn test_block_with_resources() {
    let mut font_dict = Dictionary::new();
    font_dict.set("F1", Object::Name(b"Helvetica".to_vec()));
    let mut resources = Dictionary::new();
    resources.set("Font", font_dict);

    let ops = vec![
        Op::bare("BT"),
        Op::new("Tf", vec![Operand::Name("F1".to_string()), num(12.0)]),
        Op::new("Tj", vec![Operand::Text("Text".to_string())]),
        Op::bare("ET"),
    ];

    let block = Block::new("text_block", ops).with_resources(resources.clone());

    assert!(block.resources.is_some());
    assert_eq!(block.resources.unwrap(), resources);
}

#[test]
fn registering_a_name_again_replaces_the_block() {
    let mut manager = BlockManager::new();
    manager.register(Block::new("a", vec![Op::bare("f")]));
    manager.register(Block::new("a", vec![Op::bare("S"), Op::bare("f")]));
    assert_eq!(manager.count(), 1);
    assert_eq!(manager.get("a").unwrap().operations.len(), 2);
}

#[test]
fn rendering_an_unknown_block_gives_nothing() {
    let manager = BlockManager::new();
    assert!(manager.render_instance(&BlockInstance::new("none", translate(0.0, 0.0))).is_empty());
}

#[test]
fn instances_without_form_objects_are_skipped() {
    let mut manager = BlockManager::new();
    manager.register(Block::new("a", vec![Op::bare("f")]));
    let mut resources = Dictionary::new();
    let ops = manager
        .render_instances_as_xobjects(&vec![BlockInstance::new("a", translate(0.0, 0.0))], &mut resources);
    assert!(ops.is_empty());
    assert!(!resources.has(b"XObject"));
}

#[test]
fn clear_empties_the_manager() {
    let mut manager = BlockManager::new();
    manager.register_blocks(vec![
        Block::new("a", vec![Op::bare("f")]),
        Block::new("b", vec![Op::bare("f")]),
    ]);
    assert_eq!(manager.count(), 2);
    manager.clear();
    assert_eq!(manager.count(), 0);
    assert!(!manager.has("a"));
}

#[test]
fn form_objects_hold_the_encoded_operators() {
    let mut doc = Document::with_version("1.7");
    let mut manager = BlockManager::new();
    manager.register(Block::new(
        "dot",
        vec![
            Op::new("re", vec![Operand::Integer(0), Operand::Integer(0), Operand::Integer(5), Operand::Integer(5)]),
            Op::bare("f"),
        ],
    ));
    manager.create_xobjects(&mut doc);
    manager.create_xobjects(&mut doc);
    assert_eq!(doc.objects.len(), 1);
    let stream = doc.get_object((1, 0)).unwrap().as_stream().unwrap();
    let text = String::from_utf8_lossy(&stream.content).to_string();
    assert!(text.contains("0 0 5 5 re"));
    assert!(text.contains('f'));
    assert_eq!(
        stream.dict.get(b"BBox").unwrap(),
        &Object::Array(vec![0.into(), 0.into(), 100.into(), 100.into()])
    );
    assert_eq!(stream.dict.get(b"Subtype").unwrap(), &Object::Name(b"Form".to_vec()));
}

#[test]
fn get_mut_changes_the_registered_block() {
    let mut manager = BlockManager::default();
    manager.register(Block::new("a", vec![Op::bare("f")]));
    manager.get_mut("a").unwrap().add_operation(Op::bare("S"));
    assert_eq!(manager.get("a").unwrap().operations.len(), 2);
    assert!(manager.get_mut("b").is_none());
}

#[test]
fn xobject_names_map_to_the_form_objects() {
    let mut doc = Document::with_version("1.7");
    let mut manager = BlockManager::new();
    manager.register(Block::new("a", vec![Op::bare("f")]));
    manager.register(Block::new("b", vec![Op::bare("S")]));
    manager.create_xobjects(&mut doc);
    let mut resources = Dictionary::new();
    let ops = manager.render_instances_as_xobjects(
        &vec![
            BlockInstance::new("b", translate(0.0, 0.0)),
            BlockInstance::new("zzz", translate(0.0, 0.0)),
            BlockInstance::new("a", translate(1.0, 1.0)),
        ],
        &mut resources,
    );
    let names: Vec<&str> = ops.iter().map(|o| o.operator.as_str()).collect();
    assert_eq!(names, vec!["q", "cm", "Do", "Q", "q", "cm", "Do", "Q"]);
    let x = resources.get(b"XObject").unwrap().as_dict().unwrap();
    assert_eq!(x.len(), 2);
    assert_eq!(x.get(b"Blk0").unwrap(), &Object::Reference((2, 0)));
    assert_eq!(x.get(b"Blk1").unwrap(), &Object::Reference((1, 0)));
    assert_eq!(manager.xobject_names_used(), 2);
}
