use termracer::line::{Key, Line};
use termracer::line_block::LineBlock;
use termracer::progress::Progress;
use termracer::window::{Color, Window};
use unicode_segmentation::UnicodeSegmentation;

fn graphemes(text: &str) -> Vec<String> {
    text.graphemes(true).map(String::from).collect()
}

#[test]
fn it_processes_characters() {
    let mut line = Line::new(graphemes("text"), 0, 0);

    line.process_character('t');
    line.process_character('a');
    line.process_character('x');
    line.process_character('t');

    assert_eq!(line.correct(), &vec![Some(true), Some(false), Some(true), Some(true)]);
    assert_eq!(line.index(), line.text().len());

    line.process_character('t');

    assert_eq!(line.correct(), &vec![Some(true), Some(false), Some(true), Some(true)]);
    assert_eq!(line.index(), line.text().len());
}

#[test]
fn it_processes_backspaces() {
    let mut line = Line::new(graphemes("text"), 0, 0);

    line.process_backspace();

    assert_eq!(line.correct(), &vec![None; line.text().len()]);
    assert_eq!(line.index(), 0);

    line.process_character('t');
    line.process_character('a');
    line.process_character('x');
    line.process_character('t');
    line.process_character('t');
    line.process_backspace();
    line.process_backspace();

    assert_eq!(line.correct(), &vec![Some(true), Some(false), None, None]);
    assert_eq!(line.index(), line.text().len() - 2);
}

#[test]
fn it_checks_correctness() {
    let mut line = Line::new(graphemes("text"), 0, 0);

    line.process_character('t');
    line.process_character('e');
    line.process_character('a');
    line.process_character('t');
    line.process_character('t');

    assert!(!line.done());

    line.process_backspace();
    line.process_backspace();
    line.process_character('x');
    line.process_character('t');

    assert!(line.done());

    line.process_character('z');

    assert!(line.done());
}

#[test]
fn it_goes_to_next_line() {
    let text = "ab\ncd".to_owned();
    let text_lines = text.split('\n').map(graphemes).collect();
    let mut block = LineBlock::new(text_lines, 0);

    block.handle_key_event(Key::Char('a'));
    block.handle_key_event(Key::Char('c'));
    block.handle_key_event(Key::Backspace);
    block.handle_key_event(Key::Char('b'));
    block.handle_key_event(Key::Enter);

    assert_eq!(block.index(), 1);

    block.handle_key_event(Key::Char('c'));
    block.handle_key_event(Key::Char('d'));
    block.handle_key_event(Key::Enter);

    assert_eq!(block.index(), 2);
}

#[test]
fn enter_on_a_wrong_line_stays() {
    let mut block = LineBlock::new(vec![graphemes("ab"), graphemes("c")], 0);
    block.handle_key_event(Key::Char('a'));
    block.handle_key_event(Key::Char('x'));
    block.handle_key_event(Key::Enter);
    assert_eq!(block.index(), 0);
    assert!(!block.done());
    assert_eq!(block.progress(), Progress { correct: 1, incorrect: 1, total: 3 });
}

#[test]
fn line_progress_counts_marks() {
    let mut line = Line::new(graphemes("abcd"), 0, 0);
    line.handle_key_event(Key::Char('a'));
    line.handle_key_event(Key::Char('x'));
    line.handle_key_event(Key::Char('c'));
    line.handle_key_event(Key::Other);
    assert_eq!(line.progress(), Progress { correct: 2, incorrect: 1, total: 4 });
    line.handle_key_event(Key::Backspace);
    assert_eq!(line.progress(), Progress { correct: 1, incorrect: 1, total: 4 });
}

#[test]
fn block_progress_sums_lines() {
    let mut block = LineBlock::new(vec![graphemes("ab"), graphemes("cde")], 0);
    block.handle_key_event(Key::Char('a'));
    block.handle_key_event(Key::Char('b'));
    block.handle_key_event(Key::Enter);
    block.handle_key_event(Key::Char('c'));
    block.handle_key_event(Key::Char('c'));
    assert_eq!(block.progress(), Progress { correct: 3, incorrect: 1, total: 5 });
    block.handle_key_event(Key::Backspace);
    block.handle_key_event(Key::Char('d'));
    block.handle_key_event(Key::Char('e'));
    assert!(block.done());
}

#[test]
fn line_draws_with_marks() {
    let mut window = Window::new(6, 3);
    let mut line = Line::new(graphemes("ab c"), 0, 1);
    line.process_character('a');
    line.process_character('x');
    line.process_character('y');
    line.draw(&mut window).unwrap();
    let row = &window.buffer()[1];
    assert_eq!(row[0].c, "a");
    assert_eq!(row[0].fg, Color::Green);
    assert_eq!(row[1].fg, Color::Red);
    assert_eq!(row[1].bg, Color::Reset);
    assert_eq!(row[2].c, " ");
    assert_eq!(row[2].fg, Color::White);
    assert_eq!(row[2].bg, Color::Red);
    assert_eq!(row[3].c, "c");
    assert_eq!(row[3].fg, Color::White);
    assert_eq!(window.buffer()[0][0].c, " ");
}

#[test]
fn block_cursor_follows_typing() {
    let mut window = Window::new(10, 4);
    let (_, bottom) = window.horizontal_split(termracer::rect::HorizontalSplitKind::CellsInTop(1), 0);
    let mut block = LineBlock::new(vec![graphemes("ab"), graphemes("cd")], bottom);
    block.handle_key_event(Key::Char('a'));
    block.reset_cursor(&mut window);
    let ops = window.display();
    assert_eq!(ops.last(), Some(&termracer::window::DisplayOp::MoveTo { row: 1, col: 1 }));
    block.handle_key_event(Key::Char('b'));
    block.handle_key_event(Key::Enter);
    block.handle_key_event(Key::Char('c'));
    block.handle_key_event(Key::Char('d'));
    block.handle_key_event(Key::Enter);
    block.reset_cursor(&mut window);
    block.draw(&mut window).unwrap();
    let ops = window.display();
    assert_eq!(ops.last(), Some(&termracer::window::DisplayOp::MoveTo { row: 2, col: 2 }));
}
