use vstd::math::min;
use vstd::prelude::*;

use crate::coord::Coord;
use crate::progress::Progress;
use crate::text::{all_single_column, chars_of, graphemes_of, is_whitespace, white_space};
use crate::window::{Color, DrawError, Window, WindowView};

verus! {

/// A key press, as the typing views see it.
#[derive(Clone, Copy, PartialEq, Eq, Debug, Structural)]
pub enum Key {
    Char(char),
    Backspace,
    Enter,
    Other,
}

/// How many entries of `s` equal `v`.
pub open spec fn count(s: Seq<Option<bool>>, v: Option<bool>) -> nat
    decreases s.len(),
{
    if s.len() == 0 {
        0
    } else {
        count(s.drop_last(), v) + if s.last() == v {
            1nat
        } else {
            0nat
        }
    }
}

/// Whether some character of `g` is white space.
pub open spec fn has_white_space(g: Seq<char>) -> bool {
    exists|k: int| 0 <= k < g.len() && white_space(#[trigger] g[k])
}

/// The color of a typed character: green if right, red if wrong.
pub open spec fn mark_color(mark: Option<bool>, untyped: Color) -> Color {
    match mark {
        Some(true) => Color::Green,
        Some(false) => Color::Red,
        None => untyped,
    }
}

/// The foreground of a grapheme: white space stays white, other graphemes
/// show whether they were typed right.
pub open spec fn grapheme_fg(g: Seq<char>, mark: Option<bool>) -> Color {
    if has_white_space(g) {
        Color::White
    } else {
        mark_color(mark, Color::White)
    }
}

/// The background of a grapheme: white space shows whether it was typed
/// right, since its foreground cannot be seen.
pub open spec fn grapheme_bg(g: Seq<char>, mark: Option<bool>) -> Color {
    if has_white_space(g) {
        mark_color(mark, Color::Reset)
    } else {
        Color::Reset
    }
}

/// Whether some character of `g` is white space.
fn contains_white_space(g: &str) -> (r: bool)
    ensures
        r == has_white_space(g@),
{
    let chars = chars_of(g);
    let mut k: usize = 0;
    while k < chars.len()
        invariant
            k <= chars@.len(),
            chars@ == g@,
            forall|j: int| 0 <= j < k ==> !white_space(#[trigger] g@[j]),
        decreases chars@.len() - k,
    {
        if is_whitespace(chars[k]) {
            return true;
        }
        k += 1;
    }
    false
}

/// One line of text to be typed, one grapheme at a time, and how each typed
/// grapheme compares with the text.
pub struct Line {
    text: Vec<String>,
    region_index: usize,
    line_index: usize,
    index: usize,
    correct: Vec<Option<bool>>,
}

impl Line {
    /// The graphemes of the line.
    pub closed spec fn text_view(&self) -> Seq<Seq<char>> {
        self.text@.map_values(|g: String| g@)
    }

    /// The region the line is drawn in.
    pub closed spec fn region(&self) -> usize {
        self.region_index
    }

    /// The row of the region the line is drawn on.
    pub closed spec fn row(&self) -> usize {
        self.line_index
    }

    /// The number of graphemes typed so far: the next one goes there.
    pub closed spec fn typed(&self) -> nat {
        self.index as nat
    }

    /// For each grapheme: `None` if not yet typed, else whether it was typed right.
    pub closed spec fn marks(&self) -> Seq<Option<bool>> {
        self.correct@
    }

    /// Exactly the graphemes before the typing position carry a mark.
    pub closed spec fn wf(&self) -> bool {
        &&& self.correct@.len() == self.text@.len()
        &&& self.index <= self.text@.len()
        &&& forall|i: int| 0 <= i < self.correct@.len() ==> (#[trigger] self.correct@[i] is Some <==> i < self.index)
    }

    /// What well-formedness tells callers.
    pub proof fn lemma_wf(&self)
        requires
            self.wf(),
        ensures
            self.marks().len() == self.text_view().len(),
            self.typed() <= self.text_view().len(),
            forall|i: int| 0 <= i < self.marks().len() ==> (#[trigger] self.marks()[i] is Some <==> i < self.typed()),
    {
    }

    /// The cursor position that the line asks for: its row, at the typing
    /// position.
    pub open spec fn cursor_at(&self) -> Coord {
        Coord { row: self.row() as u16, col: self.typed() as u16 }
    }

    /// How many graphemes of the line can show: a row or a column beyond the
    /// 16-bit range lies outside every region.
    pub open spec fn visible_len(&self) -> int {
        if self.row() <= u16::MAX {
            min(self.text_view().len() as int, u16::MAX + 1)
        } else {
            0
        }
    }

    /// The window after the first `n` graphemes of the line are drawn, each
    /// in its own column, colored by its mark.
    pub open spec fn drawn(&self, w: WindowView, n: int) -> WindowView
        decreases n,
    {
        if n <= 0 {
            w
        } else {
            let k = n - 1;
            let g = self.text_view()[k];
            self.drawn(w, k).draw(
                graphemes_of(g),
                grapheme_fg(g, self.marks()[k]),
                grapheme_bg(g, self.marks()[k]),
                Coord { row: self.row() as u16, col: k as u16 },
                self.region() as int,
            )
        }
    }

    /// Whether the first `n` graphemes of the line each split into graphemes
    /// one column wide.
    pub open spec fn drawable(&self, n: int) -> bool {
        forall|k: int| 0 <= k < n ==> all_single_column(graphemes_of(#[trigger] self.text_view()[k]))
    }

    /// A line with nothing typed yet.
    pub fn new(text: Vec<String>, region_index: usize, line_index: usize) -> (r: Line)
        ensures
            r.wf(),
            r.text_view() == text@.map_values(|g: String| g@),
            r.region() == region_index,
            r.row() == line_index,
            r.typed() == 0,
            r.marks() == Seq::new(text@.len(), |i: int| None::<bool>),
    {
        let length = text.len();
        let correct: Vec<Option<bool>> = vec![None; length];
        let r = Line { text, region_index, line_index, index: 0, correct };
        assert(r.correct@ =~= Seq::new(length as nat, |i: int| None::<bool>));
        r
    }

    /// The graphemes of the line.
    pub fn text(&self) -> (r: &Vec<String>)
        ensures
            r@.map_values(|g: String| g@) == self.text_view(),
    {
        &self.text
    }

    /// The number of graphemes typed so far.
    pub fn index(&self) -> (r: usize)
        ensures
            r == self.typed(),
    {
        self.index
    }

    /// For each grapheme: `None` if not yet typed, else whether it was typed right.
    pub fn correct(&self) -> (r: &Vec<Option<bool>>)
        ensures
            r@ == self.marks(),
    {
        &self.correct
    }

    /// The region the line is drawn in.
    pub fn get_region_index(&self) -> (r: usize)
        ensures
            r == self.region(),
    {
        self.region_index
    }

    /// Types `c` at the typing position: marks the grapheme there right if it
    /// is exactly `c`, else wrong, and moves on. Past the end of the line
    /// nothing happens.
    pub fn process_character(&mut self, c: char)
        requires
            old(self).wf(),
        ensures
            final(self).wf(),
            final(self).text_view() == old(self).text_view(),
            final(self).region() == old(self).region(),
            final(self).row() == old(self).row(),
            old(self).typed() < old(self).text_view().len() ==> {
                &&& final(self).typed() == old(self).typed() + 1
                &&& final(self).marks() == old(self).marks().update(
                    old(self).typed() as int,
                    Some(old(self).text_view()[old(self).typed() as int] == seq![c]),
                )
            },
            old(self).typed() == old(self).text_view().len() ==> *final(self) == *old(self),
    {
        if self.index < self.text.len() {
            let chars = chars_of(self.text[self.index].as_str());
            let right = chars.len() == 1 && chars[0] == c;
            proof {
                let g = self.text@[self.index as int]@;
                assert(self.text_view()[self.index as int] == g);
                if right {
                    assert(g =~= seq![c]);
                }
                if g == seq![c] {
                    assert(chars@.len() == 1);
                }
            }
            self.correct.set(self.index, Some(right));
            self.index += 1;
        }
    }

    /// Takes back the last typed grapheme: the typing position moves back one
    /// and the grapheme there loses its mark. At the start nothing happens.
    pub fn process_backspace(&mut self)
        requires
            old(self).wf(),
        ensures
            final(self).wf(),
            final(self).text_view() == old(self).text_view(),
            final(self).region() == old(self).region(),
            final(self).row() == old(self).row(),
            old(self).typed() > 0 ==> {
                &&& final(self).typed() == old(self).typed() - 1
                &&& final(self).marks() == old(self).marks().update(
                    old(self).typed() - 1,
                    None,
                )
            },
            old(self).typed() == 0 ==> *final(self) == *old(self),
    {
        if self.index > 0 {
            self.index -= 1;
            self.correct.set(self.index, None);
        }
    }

    /// The typing position after `key` is pressed.
    pub open spec fn typed_after(&self, key: Key) -> nat {
        match key {
            Key::Char(_) => if self.typed() < self.text_view().len() {
                self.typed() + 1
            } else {
                self.typed()
            },
            Key::Backspace => if self.typed() > 0 {
                (self.typed() - 1) as nat
            } else {
                self.typed()
            },
            _ => self.typed(),
        }
    }

    /// The marks after `key` is pressed.
    pub open spec fn marks_after(&self, key: Key) -> Seq<Option<bool>> {
        match key {
            Key::Char(c) => if self.typed() < self.text_view().len() {
                self.marks().update(
                    self.typed() as int,
                    Some(self.text_view()[self.typed() as int] == seq![c]),
                )
            } else {
                self.marks()
            },
            Key::Backspace => if self.typed() > 0 {
                self.marks().update(self.typed() - 1, None)
            } else {
                self.marks()
            },
            _ => self.marks(),
        }
    }

    /// Reacts to a key: a character is typed, a backspace takes one back,
    /// other keys do nothing.
    pub fn handle_key_event(&mut self, key: Key)
        requires
            old(self).wf(),
        ensures
            final(self).wf(),
            final(self).text_view() == old(self).text_view(),
            final(self).region() == old(self).region(),
            final(self).row() == old(self).row(),
            final(self).typed() == old(self).typed_after(key),
            final(self).marks() == old(self).marks_after(key),
    {
        match key {
            Key::Char(c) => self.process_character(c),
            Key::Backspace => self.process_backspace(),
            _ => {},
        }
    }

    /// Places the window's cursor at the typing position of the line.
    pub fn reset_cursor(&self, window: &mut Window)
        requires
            old(window).wf(),
            self.region() < old(window)@.regions.len(),
            self.row() <= u16::MAX,
            self.typed() <= u16::MAX,
            old(window)@.regions[self.region() as int].coord.can_add(self.cursor_at()),
        ensures
            final(window).wf(),
            final(window)@ == (WindowView {
                cursor: old(window)@.regions[self.region() as int].coord.plus(self.cursor_at()),
                ..old(window)@
            }),
    {
        window.set_cursor(
            Coord { row: self.line_index as u16, col: self.index as u16 },
            self.region_index,
        );
    }

    /// Draws the line on its row of its region, one grapheme per column:
    /// white space is colored in the background, other graphemes in the
    /// foreground, green if typed right, red if wrong. Stops with an error at
    /// the first grapheme that is not one column wide.
    pub fn draw(&self, window: &mut Window) -> (r: Result<(), DrawError>)
        requires
            self.wf(),
            old(window).wf(),
            self.region() < old(window)@.regions.len(),
        ensures
            final(window).wf(),
            final(window)@.regions == old(window)@.regions,
            r.is_ok() == self.drawable(self.visible_len()),
            r.is_ok() ==> final(window)@ == self.drawn(old(window)@, self.visible_len()),
            r.is_err() ==> exists|k: int|
                0 <= k < self.visible_len() && self.drawable(k) && !all_single_column(
                    graphemes_of(#[trigger] self.text_view()[k]),
                ) && final(window)@ == self.drawn(old(window)@, k),
    {
        if self.line_index > u16::MAX as usize {
            return Ok(());
        }
        let n: usize = if self.text.len() <= u16::MAX as usize {
            self.text.len()
        } else {
            u16::MAX as usize + 1
        };
        let mut i: usize = 0;
        while i < n
            invariant
                i <= n,
                n == self.visible_len(),
                self.wf(),
                window.wf(),
                window@.regions == old(window)@.regions,
                self.region() < old(window)@.regions.len(),
                self.drawable(i as int),
                window@ == self.drawn(old(window)@, i as int),
            decreases n - i,
        {
            let g = &self.text[i];
            proof {
                assert(self.text_view()[i as int] == g@);
            }
            let ws = contains_white_space(g.as_str());
            let mark = self.correct[i];
            let typed_color = match mark {
                Some(true) => Color::Green,
                Some(false) => Color::Red,
                None => Color::White,
            };
            let typed_back = match mark {
                Some(true) => Color::Green,
                Some(false) => Color::Red,
                None => Color::Reset,
            };
            let fg = if ws {
                Color::White
            } else {
                typed_color
            };
            let bg = if ws {
                typed_back
            } else {
                Color::Reset
            };
            let res = window.draw(
                g.as_str(),
                fg,
                bg,
                Coord { row: self.line_index as u16, col: i as u16 },
                self.region_index,
            );
            if res.is_err() {
                return Err(DrawError::NotSingleColumn);
            }
            proof {
                assert forall|k: int| 0 <= k < i + 1 implies all_single_column(
                    graphemes_of(#[trigger] self.text_view()[k]),
                ) by {
                    if k < i {
                        assert(self.drawable(i as int));
                    }
                }
            }
            i += 1;
        }
        Ok(())
    }

    /// How far the typist has come through the line.
    pub fn progress(&self) -> (r: Progress)
        ensures
            r.correct == count(self.marks(), Some(true)),
            r.incorrect == count(self.marks(), Some(false)),
            r.total == self.text_view().len(),
    {
        let mut correct: usize = 0;
        let mut incorrect: usize = 0;
        let mut i: usize = 0;
        let n = self.correct.len();
        while i < n
            invariant
                i <= n,
                n == self.correct@.len(),
                correct == count(self.correct@.take(i as int), Some(true)),
                incorrect == count(self.correct@.take(i as int), Some(false)),
                correct <= i,
                incorrect <= i,
            decreases n - i,
        {
            proof {
                assert(self.correct@.take(i + 1).drop_last() =~= self.correct@.take(i as int));
            }
            if self.correct[i] == Some(true) {
                correct += 1;
            } else if self.correct[i] == Some(false) {
                incorrect += 1;
            }
            i += 1;
        }
        proof {
            assert(self.correct@.take(n as int) =~= self.correct@);
        }
        Progress { correct, incorrect, total: self.text.len() }
    }

    /// Whether every grapheme of the line was typed right.
    pub fn done(&self) -> (r: bool)
        ensures
            r == (count(self.marks(), Some(true)) == self.text_view().len()),
    {
        let p = self.progress();
        p.correct == p.total
    }
}

} // verus!
