use termracer::command::{parse, parse_string, Command};
use termracer::progress::Progress;
use termracer::progress_bar::ProgressBar;
use termracer::throttler::Throttler;
use termracer::window::{Color, Window};

#[test]
fn parses_commands() {
    assert_eq!(parse("start 25"), Some(Command::Start(25)));
    assert_eq!(parse("  start\t7  extra"), Some(Command::Start(7)));
    assert_eq!(parse("start +12"), Some(Command::Start(12)));
    assert_eq!(parse("quit"), Some(Command::Quit));
    assert_eq!(parse(" help me"), Some(Command::Help));
    assert_eq!(parse("start"), None);
    assert_eq!(parse("start -1"), None);
    assert_eq!(parse("start 1x"), None);
    assert_eq!(parse("start +"), None);
    assert_eq!(parse("start 99999999999999999999999"), None);
    assert_eq!(parse(""), None);
    assert_eq!(parse("stop"), None);
    assert_eq!(parse("Quit"), None);
    assert_eq!(parse_string("start 3".to_string()), Some(Command::Start(3)));
    assert_eq!(
        parse(&format!("start {}", usize::MAX)),
        Some(Command::Start(usize::MAX))
    );
}

#[test]
fn throttler_runs_first_then_every_length_ticks() {
    let mut t = Throttler::new(3);
    let runs: Vec<bool> = (0..7).map(|_| t.try_run()).collect();
    assert_eq!(runs, vec![true, false, false, true, false, false, true]);
}

#[test]
fn throttler_of_one_always_runs() {
    let mut t = Throttler::new(1);
    assert!((0..4).all(|_| t.try_run()));
}

#[test]
fn progress_adds_counts() {
    let a = Progress { correct: 1, incorrect: 2, total: 5 };
    let b = Progress { correct: 3, incorrect: 0, total: 4 };
    assert_eq!(a.add(b), Progress { correct: 4, incorrect: 2, total: 9 });
}

#[test]
fn progress_bar_draws_shares() {
    let mut window = Window::new(10, 2);
    let (top, _) = window.horizontal_split(termracer::rect::HorizontalSplitKind::CellsInTop(1), 0);
    let mut bar = ProgressBar::new(top);
    bar.set_progress(Progress { correct: 1, incorrect: 1, total: 3 });
    bar.draw(&mut window);
    let colors: Vec<Color> = window.buffer()[0].iter().map(|c| c.fg).collect();
    assert_eq!(
        colors,
        vec![
            Color::Green,
            Color::Green,
            Color::Green,
            Color::Red,
            Color::Red,
            Color::Red,
            Color::White,
            Color::White,
            Color::White,
            Color::White
        ]
    );
    assert!(window.buffer()[0].iter().all(|c| c.c == "\u{2591}"));
    assert_eq!(window.buffer()[1][0].c, " ");
}

#[test]
fn progress_bar_full_when_done() {
    let mut window = Window::new(4, 1);
    let mut bar = ProgressBar::new(0);
    bar.set_progress(Progress { correct: 5, incorrect: 0, total: 5 });
    bar.draw(&mut window);
    assert!(window.buffer()[0].iter().all(|c| c.fg == Color::Green && c.bg == Color::Green));
}
