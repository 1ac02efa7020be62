use termracer::coord::Coord;
use termracer::rect::{HorizontalSplitKind, Rect, VerticalSplitKind};

fn rect(row: u16, col: u16, width: u16, height: u16) -> Rect {
    Rect { coord: Coord { row, col }, width, height }
}

#[test]
fn rect_it_splits_vertically_by_cells() {
    let r1 = rect(0, 0, 100, 50);
    let r2 = r1;

    let (r1l, r1r) = r1.vertical_split(VerticalSplitKind::CellsInLeft(30));
    assert_eq!(r1l, rect(0, 0, 30, 50));
    assert_eq!(r1r, rect(0, 30, 70, 50));

    let (r2l, r2r) = r2.vertical_split(VerticalSplitKind::CellsInRight(60));
    assert_eq!(r2l, rect(0, 0, 40, 50));
    assert_eq!(r2r, rect(0, 40, 60, 50));
}

#[test]
fn rect_it_splits_vertically_by_percent() {
    let r1 = rect(0, 0, 100, 50);
    let r2 = r1;

    let (r1l, r1r) = r1.vertical_split(VerticalSplitKind::PercentInLeft(30));
    assert_eq!(r1l, rect(0, 0, 30, 50));
    assert_eq!(r1r, rect(0, 30, 70, 50));

    let (r2l, r2r) = r2.vertical_split(VerticalSplitKind::PercentInRight(60));
    assert_eq!(r2l, rect(0, 0, 40, 50));
    assert_eq!(r2r, rect(0, 40, 60, 50));
}

#[test]
fn rect_it_splits_vertically_overflow() {
    let r1 = rect(0, 0, 100, 50);
    let r2 = r1;

    let (r1l, r1r) = r1.vertical_split(VerticalSplitKind::CellsInLeft(150));
    assert_eq!(r1l, rect(0, 0, 100, 50));
    assert_eq!(r1r, rect(0, 100, 0, 50));

    let (r2l, r2r) = r2.vertical_split(VerticalSplitKind::CellsInRight(150));
    assert_eq!(r2l, rect(0, 0, 0, 50));
    assert_eq!(r2r, rect(0, 0, 100, 50));
}

#[test]
fn rect_it_splits_horizontally_by_cells() {
    let r1 = rect(0, 0, 100, 50);
    let r2 = r1;

    let (r1t, r1b) = r1.horizontal_split(HorizontalSplitKind::CellsInTop(30));
    assert_eq!(r1t, rect(0, 0, 100, 30));
    assert_eq!(r1b, rect(30, 0, 100, 20));

    let (r2t, r2b) = r2.horizontal_split(HorizontalSplitKind::CellsInBottom(10));
    assert_eq!(r2t, rect(0, 0, 100, 40));
    assert_eq!(r2b, rect(40, 0, 100, 10));
}

#[test]
fn rect_it_splits_horizontally_by_percent() {
    let r1 = rect(0, 0, 100, 50);
    let r2 = r1;

    let (r1t, r1b) = r1.horizontal_split(HorizontalSplitKind::PercentInTop(60));
    assert_eq!(r1t, rect(0, 0, 100, 30));
    assert_eq!(r1b, rect(30, 0, 100, 20));

    let (r2t, r2b) = r2.horizontal_split(HorizontalSplitKind::PercentInBottom(20));
    assert_eq!(r2t, rect(0, 0, 100, 40));
    assert_eq!(r2b, rect(40, 0, 100, 10));
}

#[test]
fn rect_it_splits_horizontally_overflow() {
    let r1 = rect(0, 0, 100, 50);
    let r2 = r1;

    let (r1t, r1b) = r1.horizontal_split(HorizontalSplitKind::CellsInTop(70));
    assert_eq!(r1t, rect(0, 0, 100, 50));
    assert_eq!(r1b, rect(50, 0, 100, 0));

    let (r2t, r2b) = r2.horizontal_split(HorizontalSplitKind::CellsInBottom(60));
    assert_eq!(r2t, rect(0, 0, 100, 0));
    assert_eq!(r2b, rect(0, 0, 100, 50));
}

#[test]
fn split_conserves_width_for_every_kind() {
    let r = rect(3, 7, 37, 11);
    let kinds = [
        VerticalSplitKind::CellsInLeft(5),
        VerticalSplitKind::CellsInRight(50),
        VerticalSplitKind::PercentInLeft(33),
        VerticalSplitKind::PercentInRight(100),
        VerticalSplitKind::PercentInLeft(0),
    ];
    for kind in kinds {
        let (l, rt) = r.vertical_split(kind);
        assert_eq!(l.width + rt.width, r.width);
        assert_eq!(rt.coord.col, r.coord.col + l.width);
    }
    let hkinds = [
        HorizontalSplitKind::CellsInTop(5),
        HorizontalSplitKind::CellsInBottom(50),
        HorizontalSplitKind::PercentInTop(33),
        HorizontalSplitKind::PercentInBottom(100),
    ];
    for kind in hkinds {
        let (t, b) = r.horizontal_split(kind);
        assert_eq!(t.height + b.height, r.height);
        assert_eq!(b.coord.row, r.coord.row + t.height);
    }
}

#[test]
fn percent_split_rounds_down() {
    let r = rect(0, 0, 37, 11);
    // 33% of 37 is 12.21
    let (l, rt) = r.vertical_split(VerticalSplitKind::PercentInLeft(33));
    assert_eq!(l.width, 12);
    assert_eq!(rt.width, 25);
    // 67% of 37 is 24.79
    let (l, _) = r.vertical_split(VerticalSplitKind::PercentInRight(33));
    assert_eq!(l.width, 24);
    // 50% of 11 is 5.5
    let (t, b) = r.horizontal_split(HorizontalSplitKind::PercentInTop(50));
    assert_eq!(t.height, 5);
    assert_eq!(b, rect(5, 0, 37, 6));
}

#[test]
fn split_of_empty_rect_is_empty() {
    let r = rect(4, 4, 0, 0);
    let (l, rt) = r.vertical_split(VerticalSplitKind::CellsInLeft(10));
    assert_eq!(l, rect(4, 4, 0, 0));
    assert_eq!(rt, rect(4, 4, 0, 0));
    let (t, b) = r.horizontal_split(HorizontalSplitKind::PercentInBottom(40));
    assert_eq!(t, rect(4, 4, 0, 0));
    assert_eq!(b, rect(4, 4, 0, 0));
}

#[test]
fn coord_adds_component_wise() {
    let a = Coord { row: 3, col: 4 };
    let b = Coord { row: 10, col: 20 };
    assert_eq!(a.add(b), Coord { row: 13, col: 24 });
}
