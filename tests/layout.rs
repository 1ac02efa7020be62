use termracer::coord::Coord;
use termracer::layout::{Layout, SplitNode};
use termracer::rect::{HorizontalSplitKind, Rect, VerticalSplitKind};

fn rect(row: u16, col: u16, width: u16, height: u16) -> Rect {
    Rect { coord: Coord { row, col }, width, height }
}

#[test]
fn layout_it_splits_vertically() {
    let mut layout = Layout::new(rect(0, 0, 100, 50));
    let (left, right) = layout.vertical_split(VerticalSplitKind::CellsInLeft(30), 0);

    assert_eq!((left, right), (0, 1));
    assert_eq!(layout.regions()[left].width, 30);
    assert_eq!(layout.regions()[right].width, 70);
}

#[test]
fn layout_it_splits_horizontally() {
    let mut layout = Layout::new(rect(0, 0, 100, 50));
    let (top, bottom) = layout.horizontal_split(HorizontalSplitKind::CellsInTop(30), 0);

    assert_eq!((top, bottom), (0, 1));
    assert_eq!(layout.regions()[top].height, 30);
    assert_eq!(layout.regions()[bottom].height, 20);
}

#[test]
fn it_gets_split_leaf() {
    let mut layout = Layout::new(rect(0, 0, 100, 50));
    let (top, bottom) = layout.horizontal_split(HorizontalSplitKind::CellsInTop(20), 0);
    let (bottom_left, bottom_right) =
        layout.vertical_split(VerticalSplitKind::CellsInLeft(30), bottom);

    assert_eq!(layout.get_split_leaf(top), Some(&SplitNode::Leaf(top)));
    assert_eq!(layout.get_split_leaf(bottom_left), Some(&SplitNode::Leaf(bottom_left)));
    assert_eq!(layout.get_split_leaf(bottom_right), Some(&SplitNode::Leaf(bottom_right)));
}

#[test]
fn it_resizes() {
    let mut layout = Layout::new(rect(0, 0, 100, 50));
    let (top, bottom) = layout.horizontal_split(HorizontalSplitKind::CellsInTop(20), 0);
    let (bottom_left, bottom_right) =
        layout.vertical_split(VerticalSplitKind::PercentInLeft(40), bottom);

    layout.resize(rect(0, 0, 75, 100));

    assert_eq!(layout.regions()[top], rect(0, 0, 75, 20));
    assert_eq!(layout.regions()[bottom_left], rect(20, 0, 30, 80));
    assert_eq!(layout.regions()[bottom_right], rect(20, 30, 45, 80));
}

#[test]
fn resize_to_same_bounds_changes_nothing() {
    let mut layout = Layout::new(rect(0, 0, 83, 41));
    let (_, right) = layout.vertical_split(VerticalSplitKind::PercentInRight(37), 0);
    let (_, bottom) = layout.horizontal_split(HorizontalSplitKind::PercentInTop(61), right);
    layout.vertical_split(VerticalSplitKind::CellsInRight(9), bottom);
    let before = layout.regions().clone();

    layout.resize(rect(0, 0, 83, 41));
    assert_eq!(layout.regions(), &before);
    layout.resize(rect(0, 0, 83, 41));
    assert_eq!(layout.regions(), &before);
}

#[test]
fn resize_has_no_rounding_drift() {
    let mut layout = Layout::new(rect(0, 0, 100, 10));
    layout.vertical_split(VerticalSplitKind::PercentInLeft(33), 0);
    layout.resize(rect(0, 0, 10, 10));
    assert_eq!(layout.regions()[0].width, 3);
    layout.resize(rect(0, 0, 100, 10));
    assert_eq!(layout.regions()[0].width, 33);
    assert_eq!(layout.regions()[1], rect(0, 33, 67, 10));
}

#[test]
fn region_out_of_range_is_none() {
    let mut layout = Layout::new(rect(0, 0, 10, 10));
    assert_eq!(layout.region(0), Some(&rect(0, 0, 10, 10)));
    assert_eq!(layout.region(1), None);
    layout.horizontal_split(HorizontalSplitKind::CellsInBottom(3), 0);
    assert_eq!(layout.region(1), Some(&rect(7, 0, 10, 3)));
    assert_eq!(layout.region(2), None);
    assert_eq!(layout.get_split_leaf(2), None);
}
