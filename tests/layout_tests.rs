use hipdf::content::{Op, Operand};
use hipdf::embed::{
    check_pages, embed_operations, grid_cell, placement_ops, EmbedError, Placement,
    ResourceCounter,
};
use hipdf::layout::{determine_pages, requested, GridFillOrder, LayoutKind, PageRange};
use hipdf::lopdf::Object;

fn num(v: f32) -> Operand {
    Operand::Number(Object::Real(v))
}

fn operators(ops: &[Op]) -> Vec<&str> {
    ops.iter().map(|o| o.operator.as_str()).collect()
}

fn placement(name: &str) -> Placement {
    Placement {
        name: name.to_string(),
        matrix: vec![num(0.5), num(0.0), num(0.0), num(0.5), num(10.0), num(20.0)],
    }
}

#[test]
fn first_page_only_yields_one_page_whatever_the_range() {
    for range in [
        None,
        Some(PageRange::All),
        Some(PageRange::Range(2, 7)),
        Some(PageRange::Pages(vec![4, 1, 9])),
        Some(PageRange::Single(3)),
    ] {
        let pages = determine_pages(&range, LayoutKind::FirstPageOnly, 10);
        assert_eq!(pages.len(), 1);
    }
    assert_eq!(determine_pages(&None, LayoutKind::FirstPageOnly, 10), vec![0]);
    assert_eq!(
        determine_pages(&Some(PageRange::Pages(vec![4, 1, 9])), LayoutKind::FirstPageOnly, 10),
        vec![4]
    );
}

#[test]
fn first_page_only_of_an_empty_request_is_empty() {
    let pages = determine_pages(&Some(PageRange::Pages(vec![])), LayoutKind::FirstPageOnly, 10);
    assert!(pages.is_empty());
}

#[test]
fn single_page_selection() {
    let pages = determine_pages(&Some(PageRange::Single(2)), LayoutKind::Vertical, 5);
    assert_eq!(pages, vec![2]);
    assert_eq!(check_pages(&pages, 5), Ok(()));

    let out_of_range = determine_pages(&Some(PageRange::Single(10)), LayoutKind::Vertical, 5);
    assert_eq!(out_of_range, vec![10]);
    assert_eq!(check_pages(&out_of_range, 5), Err(EmbedError::PageNotFound(10)));
}

#[test]
fn check_pages_reports_the_first_missing_page() {
    assert_eq!(check_pages(&vec![0, 7, 3, 9], 5), Err(EmbedError::PageNotFound(7)));
    assert_eq!(check_pages(&vec![], 0), Ok(()));
}

#[test]
fn range_end_is_clamped_to_the_last_page() {
    assert_eq!(requested(&PageRange::Range(2, 100), 5), vec![2, 3, 4]);
    assert_eq!(requested(&PageRange::Range(1, 3), 10), vec![1, 2, 3]);
    assert!(requested(&PageRange::Range(4, 2), 10).is_empty());
    assert!(requested(&PageRange::Range(0, 3), 0).is_empty());
    assert_eq!(requested(&PageRange::All, 3), vec![0, 1, 2]);
    assert!(requested(&PageRange::All, 0).is_empty());
}

#[test]
fn explicit_pages_keep_order_and_repeats() {
    let pages = determine_pages(&Some(PageRange::Pages(vec![3, 1, 3])), LayoutKind::Horizontal, 5);
    assert_eq!(pages, vec![3, 1, 3]);
}

#[test]
fn specific_page_replaces_the_selection_or_selects_nothing() {
    let range = Some(PageRange::Range(0, 3));
    assert_eq!(determine_pages(&range, LayoutKind::SpecificPage(4), 5), vec![4]);
    assert!(determine_pages(&range, LayoutKind::SpecificPage(5), 5).is_empty());
    assert!(determine_pages(&None, LayoutKind::SpecificPage(7), 5).is_empty());
}

#[test]
fn grid_cells_row_first_and_column_first() {
    for idx in 0..10usize {
        assert_eq!(grid_cell(idx, 3, GridFillOrder::RowFirst), (idx / 3, idx % 3));
        assert_eq!(grid_cell(idx, 3, GridFillOrder::ColumnFirst), (idx % 3, idx / 3));
    }
    assert_eq!(grid_cell(7, 3, GridFillOrder::RowFirst), (2, 1));
    assert_eq!(grid_cell(7, 3, GridFillOrder::ColumnFirst), (1, 2));
}

#[test]
fn one_placement_without_clip_is_four_operators() {
    let ops = embed_operations(&vec![placement("XO1")], &None);
    assert_eq!(operators(&ops), vec!["q", "cm", "Do", "Q"]);
    assert_eq!(ops[1].operands.len(), 6);
    assert!(matches!(&ops[2].operands[0], Operand::Name(n) if n == "XO1"));
}

#[test]
fn one_placement_with_clip_is_wrapped_once() {
    let clip = Some(vec![num(0.0), num(0.0), num(100.0), num(50.0)]);
    let ops = embed_operations(&vec![placement("XO1")], &clip);
    assert_eq!(operators(&ops), vec!["q", "re", "W", "n", "q", "cm", "Do", "Q", "Q"]);
}

#[test]
fn clip_wraps_all_placements_not_each() {
    let clip = Some(vec![num(0.0), num(0.0), num(100.0), num(50.0)]);
    let ps = vec![placement("XO1"), placement("XO2"), placement("XO3")];
    let ops = embed_operations(&ps, &clip);
    assert_eq!(ops.len(), 4 * 3 + 5);
    assert_eq!(operators(&ops).iter().filter(|o| **o == "re").count(), 1);
    assert!(matches!(&ops[14].operands[0], Operand::Name(n) if n == "XO3"));
    assert!(embed_operations(&vec![], &None).is_empty());
}

#[test]
fn placement_ops_carry_the_matrix() {
    let ops = placement_ops(&placement("XO9"));
    assert_eq!(format!("{:?}", ops[1].operands), format!("{:?}", placement("XO9").matrix));
}

#[test]
fn resource_names_count_up_from_one() {
    let mut counter = ResourceCounter::new();
    assert_eq!(counter.next_name(), "XO1");
    assert_eq!(counter.next_name(), "XO2");
    for _ in 0..7 {
        counter.next_name();
    }
    assert_eq!(counter.next_name(), "XO10");
    assert_eq!(counter.count, 10);
}
