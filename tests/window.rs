use termracer::coord::Coord;
use termracer::rect::{HorizontalSplitKind, Rect, VerticalSplitKind};
use termracer::window::{Color, DisplayOp, DrawError, Window};

fn at(row: u16, col: u16) -> Coord {
    Coord { row, col }
}

fn row_text(window: &Window, row: usize) -> String {
    window.buffer()[row].iter().map(|cell| cell.c.as_str()).collect()
}

#[test]
fn window_it_splits_vertically() {
    let mut window = Window::new(100, 50);
    let (left, right) = window.vertical_split(VerticalSplitKind::CellsInLeft(30), 0);

    assert_eq!((left, right), (0, 1));
    assert_eq!(window.region(left).unwrap().width, 30);
    assert_eq!(window.region(right).unwrap().width, 70);
}

#[test]
fn window_it_splits_horizontally() {
    let mut window = Window::new(100, 50);
    let (top, bottom) = window.horizontal_split(HorizontalSplitKind::CellsInTop(30), 0);

    assert_eq!((top, bottom), (0, 1));
    assert_eq!(window.region(top).unwrap().height, 30);
    assert_eq!(window.region(bottom).unwrap().height, 20);
}

#[test]
fn window_it_draws_within_window() {
    let mut window = Window::new(3, 2);
    window.draw("abcd", Color::Reset, Color::Reset, at(0, 0), 0).unwrap();
    window.draw("ef", Color::Reset, Color::Reset, at(1, 1), 0).unwrap();

    assert_eq!(window.buffer()[0][0].c, "a");
    assert_eq!(window.buffer()[0][1].c, "b");
    assert_eq!(window.buffer()[0][2].c, "c");

    assert_eq!(window.buffer()[1][0].c, " ");
    assert_eq!(window.buffer()[1][1].c, "e");
    assert_eq!(window.buffer()[1][2].c, "f");

    assert_eq!(row_text(&window, 0), "abc");
    assert_eq!(row_text(&window, 1), " ef");
}

#[test]
fn window_it_draws_overlap() {
    let mut window = Window::new(3, 2);
    window.draw("abcd", Color::Reset, Color::Reset, at(0, 0), 0).unwrap();
    window.draw("ef", Color::Reset, Color::Reset, at(0, 1), 0).unwrap();

    assert_eq!(window.buffer()[0][0].c, "a");
    assert_eq!(window.buffer()[0][1].c, "e");
    assert_eq!(window.buffer()[0][2].c, "f");

    assert_eq!(window.buffer()[1][0].c, " ");
    assert_eq!(window.buffer()[1][1].c, " ");
    assert_eq!(window.buffer()[1][2].c, " ");
}

#[test]
fn window_it_draws_within_region() {
    let mut window = Window::new(3, 3);
    let (left, right) = window.vertical_split(VerticalSplitKind::CellsInLeft(1), 0);
    let (right_top, right_bottom) =
        window.horizontal_split(HorizontalSplitKind::CellsInTop(1), right);

    window.draw("abc", Color::Reset, Color::Reset, at(0, 0), left).unwrap();
    window.draw("def", Color::Reset, Color::Reset, at(1, 0), right_bottom).unwrap();
    window.draw("xyz", Color::Reset, Color::Reset, at(0, 0), right_top).unwrap();

    assert_eq!(window.buffer()[0][0].c, "a");
    assert_eq!(window.buffer()[0][1].c, "x");
    assert_eq!(window.buffer()[0][2].c, "y");

    assert_eq!(window.buffer()[1][0].c, " ");
    assert_eq!(window.buffer()[1][1].c, " ");
    assert_eq!(window.buffer()[1][2].c, " ");

    assert_eq!(window.buffer()[2][0].c, " ");
    assert_eq!(window.buffer()[2][1].c, "d");
    assert_eq!(window.buffer()[2][2].c, "e");
}

#[test]
fn window_it_sets_dirty_bit() {
    let mut window = Window::new(3, 2);

    window.draw("abcd", Color::Reset, Color::Reset, at(0, 0), 0).unwrap();

    assert_eq!(window.buffer()[0][0].c, "a");
    assert_eq!(window.buffer()[0][1].c, "b");
    assert_eq!(window.buffer()[0][2].c, "c");

    assert_eq!(window.dirty()[0][0], true);
    assert_eq!(window.dirty()[0][1], true);
    assert_eq!(window.dirty()[0][2], true);

    window.display();

    assert_eq!(window.dirty()[0][0], false);
    assert_eq!(window.dirty()[0][1], false);
    assert_eq!(window.dirty()[0][2], false);
}

#[test]
fn window_it_doesnt_set_dirty_bit() {
    let mut window = Window::new(3, 2);

    window.draw("abcd", Color::Reset, Color::Reset, at(0, 0), 0).unwrap();

    assert_eq!(window.buffer()[0][0].c, "a");
    assert_eq!(window.buffer()[0][1].c, "b");
    assert_eq!(window.buffer()[0][2].c, "c");

    assert_eq!(window.dirty()[0][0], true);
    assert_eq!(window.dirty()[0][1], true);
    assert_eq!(window.dirty()[0][2], true);

    window.display();

    window.draw("abd", Color::Reset, Color::Reset, at(0, 0), 0).unwrap();

    assert_eq!(window.dirty()[0][0], false);
    assert_eq!(window.dirty()[0][1], false);
    assert_eq!(window.dirty()[0][2], true);
}

#[test]
fn it_clears_region() {
    let mut window = Window::new(3, 3);
    let (left, right) = window.vertical_split(VerticalSplitKind::CellsInLeft(1), 0);
    let (right_top, right_bottom) =
        window.horizontal_split(HorizontalSplitKind::CellsInTop(1), right);

    window.draw("abc", Color::Reset, Color::Reset, at(0, 0), left).unwrap();
    window.draw("def", Color::Reset, Color::Reset, at(1, 1), right_bottom).unwrap();
    window.draw("xyz", Color::Reset, Color::Reset, at(0, 0), right_top).unwrap();

    window.clear_region(right_bottom);

    assert_eq!(window.buffer()[0][0].c, "a");
    assert_eq!(window.buffer()[0][1].c, "x");
    assert_eq!(window.buffer()[0][2].c, "y");

    assert_eq!(window.buffer()[1][0].c, " ");
    assert_eq!(window.buffer()[1][1].c, " ");
    assert_eq!(window.buffer()[1][2].c, " ");

    assert_eq!(window.buffer()[2][0].c, " ");
    assert_eq!(window.buffer()[2][1].c, " ");
    assert_eq!(window.buffer()[2][2].c, " ");
}

#[test]
fn redraw_after_flush_marks_nothing() {
    let mut window = Window::new(6, 2);
    window.draw("hello", Color::Green, Color::Reset, at(1, 0), 0).unwrap();
    window.display();
    window.draw("hello", Color::Green, Color::Reset, at(1, 0), 0).unwrap();
    assert!(window.dirty().iter().all(|row| row.iter().all(|d| !d)));
    assert_eq!(window.display(), vec![DisplayOp::MoveTo { row: 0, col: 0 }]);
}

#[test]
fn changed_color_marks_cell_dirty() {
    let mut window = Window::new(3, 1);
    window.draw("abc", Color::White, Color::Reset, at(0, 0), 0).unwrap();
    window.display();
    window.draw("b", Color::Red, Color::Reset, at(0, 1), 0).unwrap();
    assert_eq!(window.dirty()[0], vec![false, true, false]);
    assert_eq!(window.buffer()[0][1].fg, Color::Red);
}

#[test]
fn drawing_outside_region_is_clipped() {
    let mut window = Window::new(6, 3);
    let (left, right) = window.vertical_split(VerticalSplitKind::CellsInLeft(2), 0);
    window.draw("abcd", Color::Reset, Color::Reset, at(0, 1), left).unwrap();
    window.draw("zz", Color::Reset, Color::Reset, at(5, 0), left).unwrap();
    window.draw("qq", Color::Reset, Color::Reset, at(0, 9), right).unwrap();
    assert_eq!(row_text(&window, 0), " a    ");
    assert_eq!(row_text(&window, 1), "      ");
    assert_eq!(row_text(&window, 2), "      ");
    assert_eq!(window.dirty()[0], vec![false, true, false, false, false, false]);
}

#[test]
fn wide_grapheme_is_refused() {
    let mut window = Window::new(4, 1);
    let r = window.draw("a\u{4e2d}", Color::Reset, Color::Reset, at(0, 0), 0);
    assert_eq!(r, Err(DrawError::NotSingleColumn));
    assert_eq!(row_text(&window, 0), "    ");
    assert!(window.dirty()[0].iter().all(|d| !d));
}

#[test]
fn combining_grapheme_takes_one_cell() {
    let mut window = Window::new(4, 1);
    window.draw("e\u{301}x", Color::Reset, Color::Reset, at(0, 0), 0).unwrap();
    assert_eq!(window.buffer()[0][0].c, "e\u{301}");
    assert_eq!(window.buffer()[0][1].c, "x");
    assert_eq!(window.buffer()[0][2].c, " ");
}

#[test]
fn display_coalesces_moves_and_colors() {
    let mut window = Window::new(5, 2);
    window.draw("ab", Color::Red, Color::Reset, at(0, 0), 0).unwrap();
    window.draw("c", Color::Green, Color::Reset, at(0, 3), 0).unwrap();
    window.draw("d", Color::Green, Color::Blue, at(1, 0), 0).unwrap();
    window.set_cursor(at(1, 2), 0);
    let ops = window.display();
    assert_eq!(
        ops,
        vec![
            DisplayOp::MoveTo { row: 0, col: 0 },
            DisplayOp::SetForeground(Color::Red),
            DisplayOp::SetBackground(Color::Reset),
            DisplayOp::Print("a".to_string()),
            DisplayOp::Print("b".to_string()),
            DisplayOp::MoveTo { row: 0, col: 3 },
            DisplayOp::SetForeground(Color::Green),
            DisplayOp::Print("c".to_string()),
            DisplayOp::MoveTo { row: 1, col: 0 },
            DisplayOp::SetBackground(Color::Blue),
            DisplayOp::Print("d".to_string()),
            DisplayOp::MoveTo { row: 1, col: 2 },
        ]
    );
    assert!(window.dirty().iter().all(|row| row.iter().all(|d| !d)));
}

#[test]
fn resize_marks_everything_dirty() {
    let mut window = Window::new(4, 4);
    let (top, bottom) = window.horizontal_split(HorizontalSplitKind::PercentInTop(50), 0);
    window.draw("abcd", Color::Reset, Color::Reset, at(0, 0), top).unwrap();
    window.resize(6, 2);
    assert_eq!(window.buffer().len(), 2);
    assert_eq!(row_text(&window, 0), "      ");
    assert!(window.dirty().iter().all(|row| row.len() == 6 && row.iter().all(|d| *d)));
    assert_eq!(
        window.region(top),
        Some(&Rect { coord: at(0, 0), width: 6, height: 1 })
    );
    assert_eq!(
        window.region(bottom),
        Some(&Rect { coord: at(1, 0), width: 6, height: 1 })
    );
}

#[test]
fn clear_blanks_every_region() {
    let mut window = Window::new(4, 2);
    let (top, bottom) = window.horizontal_split(HorizontalSplitKind::CellsInTop(1), 0);
    window.draw("abcd", Color::Reset, Color::Reset, at(0, 0), top).unwrap();
    window.draw("efgh", Color::Reset, Color::Reset, at(0, 0), bottom).unwrap();
    window.display();
    window.clear();
    assert_eq!(row_text(&window, 0), "    ");
    assert_eq!(row_text(&window, 1), "    ");
    assert!(window.dirty().iter().all(|row| row.iter().all(|d| *d)));
}

#[test]
fn cursor_is_region_relative() {
    let mut window = Window::new(10, 10);
    let (_, bottom) = window.horizontal_split(HorizontalSplitKind::CellsInTop(4), 0);
    let (_, right) = window.vertical_split(VerticalSplitKind::CellsInLeft(3), bottom);
    window.set_cursor(at(1, 2), right);
    assert_eq!(window.display(), vec![DisplayOp::MoveTo { row: 5, col: 5 }]);
}
