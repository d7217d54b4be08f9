use hipdf::content::{Op, Operand};
use hipdf::hatching::{CustomPatternBuilder, HatchingManager, PatternCell, PatternOperations};
use hipdf::lopdf::{Dictionary, Object};

fn num(v: f32) -> Operand {
    Operand::Number(Object::Real(v))
}

fn operators(ops: &[Op]) -> Vec<&str> {
    ops.iter().map(|o| o.operator.as_str()).collect()
}

#[test]
fn pattern_names_count_up_from_one() {
    let mut manager = HatchingManager::new();
    for n in 1..=12 {
        assert_eq!(manager.next_pattern_name(), format!("P{}", n));
    }
}

#[test]
fn pattern_operators() {
    let cs = PatternOperations::set_pattern_fill_colorspace();
    assert_eq!(cs.operator, "cs");
    assert!(matches!(&cs.operands[0], Operand::Name(n) if n == "Pattern"));
    assert_eq!(PatternOperations::set_pattern_stroke_colorspace().operator, "CS");
    let scn = PatternOperations::set_fill_pattern("Dots");
    assert_eq!(scn.operator, "scn");
    assert!(matches!(&scn.operands[0], Operand::Name(n) if n == "Dots"));
    assert_eq!(PatternOperations::set_stroke_pattern("Dots").operator, "SCN");
}

#[test]
fn pattern_is_added_to_resources() {
    let manager = HatchingManager::new();
    let mut resources = Dictionary::new();
    manager.add_pattern_to_resources(&mut resources, "Grid", (5, 0));
    manager.add_pattern_to_resources(&mut resources, "Wave", (6, 0));
    let patterns = resources.get(b"Pattern").unwrap().as_dict().unwrap();
    assert_eq!(patterns.get(b"Grid").unwrap(), &Object::Reference((5, 0)));
    assert_eq!(patterns.get(b"Wave").unwrap(), &Object::Reference((6, 0)));
}

#[test]
fn path_waits_until_painted() {
    let mut b = CustomPatternBuilder::new();
    b.path_segment(Op::new("m", vec![num(0.0), num(0.0)]))
        .path_segment(Op::new("l", vec![num(5.0), num(5.0)]))
        .add_operation(Op::new("w", vec![num(1.0)]))
        .stroke();
    assert_eq!(operators(&b.build()), vec!["w", "m", "l", "S"]);
}

#[test]
fn build_writes_a_pending_path_last() {
    let mut b = CustomPatternBuilder::new();
    b.path_segment(Op::new("m", vec![num(0.0), num(0.0)])).close_path();
    b.add_operation(Op::bare("q"));
    assert_eq!(operators(&b.build()), vec!["q", "m", "h"]);
}

#[test]
fn transforms_nest_and_extra_pops_are_ignored() {
    let mut b = CustomPatternBuilder::new();
    let cm = Op::new("cm", vec![num(1.0), num(0.0), num(0.0), num(1.0), num(2.0), num(3.0)]);
    b.push_transform(cm).fill().fill_stroke().pop_transform().pop_transform();
    assert_eq!(operators(&b.build()), vec!["q", "cm", "f", "B", "Q"]);
}

#[test]
fn added_patterns_are_tiling_streams_under_fresh_names() {
    let mut doc = hipdf::lopdf::Document::with_version("1.5");
    let mut manager = HatchingManager::new();
    let cell = PatternCell {
        bbox: Object::Array(vec![0.into(), 0.into(), 10.into(), 10.into()]),
        x_step: Object::Real(10.0),
        y_step: Object::Real(10.0),
        operations: vec![Op::new("w", vec![Operand::Integer(2)]), Op::bare("S")],
    };
    let (id, name) = manager.add_pattern(&mut doc, cell);
    assert_eq!(id, (1, 0));
    assert_eq!(name, format!("P{}", 1));
    let stream = doc.get_object(id).unwrap().as_stream().unwrap();
    assert_eq!(stream.dict.get(b"PatternType").unwrap(), &Object::Integer(1));
    assert_eq!(stream.dict.get(b"Type").unwrap(), &Object::Name(b"Pattern".to_vec()));
    assert!(String::from_utf8_lossy(&stream.content).contains("2 w"));
    assert_eq!(manager.pattern_count(), 1);
}

#[test]
fn defaults_start_empty() {
    let mut manager = HatchingManager::default();
    assert_eq!(manager.pattern_count(), 0);
    assert_eq!(manager.next_pattern_name(), format!("P{}", 1));
    let b = CustomPatternBuilder::default();
    assert!(b.build().is_empty());
}
