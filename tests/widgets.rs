use termracer::line::Key;
use termracer::text::grapheme_lines;
use termracer::widgets::{Coord, LineBlockWidget, LineWidget, ViewableWidgetProps};
use termracer::words::{generate_words, lines_of_words, words_per_line};

fn props(row: usize, col: usize) -> ViewableWidgetProps {
    ViewableWidgetProps { offset: Coord { row, col } }
}

#[test]
fn line_widget_tracks_typing() {
    let mut line = LineWidget::new("ab c".to_string(), props(2, 3));
    assert_eq!(line.get_dimensions(), Coord { row: 1, col: 4 });
    line.process_key_code(Key::Char('a'));
    line.process_key_code(Key::Char('x'));
    assert_eq!(line.get_num_correct(), 1);
    assert!(!line.is_all_correct());
    line.process_key_code(Key::Backspace);
    line.process_key_code(Key::Char('b'));
    line.process_key_code(Key::Char(' '));
    line.process_key_code(Key::Char('c'));
    line.process_key_code(Key::Char('z'));
    assert_eq!(line.get_num_correct(), 4);
    assert!(line.is_all_correct());
    assert_eq!(line.get_offset(), Coord { row: 2, col: 3 });
}

#[test]
fn line_block_widget_moves_through_lines() {
    let mut block = LineBlockWidget::new(props(1, 0));
    assert_eq!(block.get_num_correct_characters(), 0);
    block.new_line("ab".to_string());
    block.new_line("cde".to_string());
    assert_eq!(block.get_dimensions(), Coord { row: 2, col: 3 });

    block.process_key_code(Key::Char('a'));
    block.process_key_code(Key::Char('b'));
    assert_eq!(block.get_num_correct_characters(), 2);
    block.process_key_code(Key::Enter);
    block.process_key_code(Key::Char('c'));
    block.process_key_code(Key::Char('d'));
    block.process_key_code(Key::Enter);
    assert!(!block.is_all_correct());
    block.process_key_code(Key::Char('e'));
    assert_eq!(block.get_num_correct_characters(), 5);
    block.process_key_code(Key::Enter);
    assert!(block.is_all_correct());
    block.process_key_code(Key::Backspace);
    assert_eq!(block.get_num_correct_characters(), 5);
}

#[test]
fn words_are_laid_out_in_lines() {
    let words: Vec<String> = ["a", "bb", "ccc", "d", "ee"].iter().map(|w| w.to_string()).collect();
    assert_eq!(lines_of_words(&words, 2), vec!["a bb", "ccc d", "ee"]);
    assert_eq!(lines_of_words(&words, 5), vec!["a bb ccc d ee"]);
    assert_eq!(lines_of_words(&words, 7), vec!["a bb ccc d ee"]);
    assert_eq!(lines_of_words(&Vec::new(), 3), Vec::<String>::new());
}

#[test]
fn words_per_line_fits_width() {
    assert_eq!(words_per_line(80), 7);
    assert_eq!(words_per_line(100), 9);
    assert_eq!(words_per_line(11), 0);
}

#[test]
fn generated_words_come_from_the_list() {
    let list: Vec<String> = ["red", "green", "blue"].iter().map(|w| w.to_string()).collect();
    let words = generate_words(&list, 50);
    assert_eq!(words.len(), 50);
    assert!(words.iter().all(|w| list.contains(w)));
}

#[test]
fn lines_split_into_graphemes() {
    let lines = vec!["ab c".to_string(), "e\u{301}f".to_string()];
    let g = grapheme_lines(&lines);
    assert_eq!(g[0], vec!["a", "b", " ", "c"]);
    assert_eq!(g[1], vec!["e\u{301}", "f"]);
}
