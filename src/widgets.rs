//! The typing widgets of the line-prompt front end: a line and a block of
//! lines that track what was typed, placed by offsets on the terminal.

use vstd::prelude::*;

use crate::line::{count, Key};
use crate::line_block::sum;
use crate::text::chars_of;

verus! {

/// A terminal position or extent, in rows and columns.
#[derive(Clone, Copy, PartialEq, Eq, Debug, Structural)]
pub struct Coord {
    pub row: usize,
    pub col: usize,
}

/// Where a widget is drawn on the terminal.
#[derive(Clone, Copy, PartialEq, Eq, Debug, Structural)]
pub struct ViewableWidgetProps {
    pub offset: Coord,
}

/// Where a widget is drawn, as row and column offsets.
#[derive(Clone, Copy, PartialEq, Eq, Debug, Structural)]
pub struct WidgetProps {
    pub row_offset: usize,
    pub column_offset: usize,
}

/// One line of text to be typed character by character.
pub struct LineWidget {
    text: Vec<char>,
    length: usize,
    is_correct: Vec<Option<bool>>,
    user_column: usize,
    viewable_widget_props: ViewableWidgetProps,
}

impl LineWidget {
    /// The characters of the line.
    pub closed spec fn chars(&self) -> Seq<char> {
        self.text@
    }

    /// For each character: `None` if not yet typed, else whether it was typed right.
    pub closed spec fn marks(&self) -> Seq<Option<bool>> {
        self.is_correct@
    }

    /// The column the next character is typed in.
    pub closed spec fn column(&self) -> nat {
        self.user_column as nat
    }

    /// Where the line is drawn.
    pub closed spec fn props(&self) -> ViewableWidgetProps {
        self.viewable_widget_props
    }

    /// Exactly the characters before the typing column carry a mark.
    pub closed spec fn wf(&self) -> bool {
        &&& self.length == self.text@.len()
        &&& self.is_correct@.len() == self.text@.len()
        &&& self.user_column <= self.length
        &&& forall|i: int| 0 <= i < self.is_correct@.len() ==> (#[trigger] self.is_correct@[i] is Some <==> i < self.user_column)
    }

    /// What well-formedness tells callers.
    pub proof fn lemma_wf(&self)
        requires
            self.wf(),
        ensures
            self.marks().len() == self.chars().len(),
            self.column() <= self.chars().len(),
    {
    }

    /// A line of `text` with nothing typed yet, drawn where the props say.
    pub fn new(text: String, viewable_widget_props: ViewableWidgetProps) -> (r: LineWidget)
        ensures
            r.wf(),
            r.chars() == text@,
            r.marks() == Seq::new(text@.len(), |i: int| None::<bool>),
            r.column() == 0,
            r.props() == viewable_widget_props,
    {
        let chars = chars_of(text.as_str());
        let length = chars.len();
        let is_correct: Vec<Option<bool>> = vec![None; length];
        let r = LineWidget {
            text: chars,
            length,
            is_correct,
            user_column: 0,
            viewable_widget_props,
        };
        assert(r.is_correct@ =~= Seq::new(text@.len(), |i: int| None::<bool>));
        r
    }

    /// The number of characters typed right.
    pub fn get_num_correct(&self) -> (r: usize)
        requires
            self.wf(),
        ensures
            r == count(self.marks(), Some(true)),
    {
        let mut n: usize = 0;
        let mut i: usize = 0;
        while i < self.is_correct.len()
            invariant
                i <= self.is_correct@.len(),
                n == count(self.is_correct@.take(i as int), Some(true)),
                n <= i,
            decreases self.is_correct@.len() - i,
        {
            proof {
                assert(self.is_correct@.take(i + 1).drop_last() =~= self.is_correct@.take(i as int));
            }
            if self.is_correct[i] == Some(true) {
                n += 1;
            }
            i += 1;
        }
        assert(self.is_correct@.take(i as int) =~= self.is_correct@);
        n
    }

    /// Types `c` at the typing column: marks the character there right if it
    /// is `c`, else wrong, and moves on. Past the end nothing happens.
    pub fn process_character(&mut self, c: char)
        requires
            old(self).wf(),
        ensures
            final(self).wf(),
            final(self).chars() == old(self).chars(),
            final(self).props() == old(self).props(),
            old(self).column() < old(self).chars().len() ==> {
                &&& final(self).column() == old(self).column() + 1
                &&& final(self).marks() == old(self).marks().update(
                    old(self).column() as int,
                    Some(old(self).chars()[old(self).column() as int] == c),
                )
            },
            old(self).column() >= old(self).chars().len() ==> *final(self) == *old(self),
    {
        if self.user_column >= self.length {
            return;
        }
        let right = self.text[self.user_column] == c;
        self.is_correct.set(self.user_column, Some(right));
        self.user_column += 1;
    }

    /// Takes back the last typed character. At the start nothing happens.
    pub fn process_backspace(&mut self)
        requires
            old(self).wf(),
        ensures
            final(self).wf(),
            final(self).chars() == old(self).chars(),
            final(self).props() == old(self).props(),
            old(self).column() > 0 ==> {
                &&& final(self).column() == old(self).column() - 1
                &&& final(self).marks() == old(self).marks().update(old(self).column() - 1, None)
            },
            old(self).column() == 0 ==> final(self).column() == 0
                && final(self).marks() == old(self).marks(),
    {
        if self.user_column > 0 {
            self.user_column -= 1;
        }
        if self.user_column < self.length {
            self.is_correct.set(self.user_column, None);
        }
        proof {
            if old(self).user_column == 0 && self.user_column < self.length {
                assert(self.is_correct@ =~= old(self).is_correct@);
            }
        }
    }

    /// Reacts to a key: a character is typed, a backspace takes one back,
    /// other keys do nothing.
    pub fn process_key_code(&mut self, key: Key)
        requires
            old(self).wf(),
        ensures
            final(self).wf(),
            final(self).chars() == old(self).chars(),
            final(self).props() == old(self).props(),
            key matches Key::Char(c) ==> (old(self).column() < old(self).chars().len() ==> {
                &&& final(self).column() == old(self).column() + 1
                &&& final(self).marks() == old(self).marks().update(
                    old(self).column() as int,
                    Some(old(self).chars()[old(self).column() as int] == c),
                )
            }),
            key is Backspace && old(self).column() > 0 ==> {
                &&& final(self).column() == old(self).column() - 1
                &&& final(self).marks() == old(self).marks().update(old(self).column() - 1, None)
            },
            (key is Enter || key is Other || (key is Backspace && old(self).column() == 0) || (
            key is Char && old(self).column() >= old(self).chars().len())) ==> final(self).column()
                == old(self).column() && final(self).marks() == old(self).marks(),
    {
        match key {
            Key::Char(c) => self.process_character(c),
            Key::Backspace => self.process_backspace(),
            _ => {},
        }
    }

    /// Whether the whole line was typed, and typed right.
    pub fn is_all_correct(&self) -> (r: bool)
        requires
            self.wf(),
        ensures
            r == (self.column() == self.chars().len() && forall|i: int|
                0 <= i < self.marks().len() ==> #[trigger] self.marks()[i] == Some(true)),
    {
        if self.user_column != self.length {
            return false;
        }
        let mut i: usize = 0;
        while i < self.is_correct.len()
            invariant
                i <= self.is_correct@.len(),
                forall|j: int| 0 <= j < i ==> #[trigger] self.is_correct@[j] == Some(true),
            decreases self.is_correct@.len() - i,
        {
            if self.is_correct[i] != Some(true) {
                return false;
            }
            i += 1;
        }
        true
    }

    /// One row, as many columns as the line has characters.
    pub fn get_dimensions(&self) -> (r: Coord)
        requires
            self.wf(),
        ensures
            r == (Coord { row: 1, col: self.chars().len() as usize }),
    {
        Coord { row: 1, col: self.length }
    }

    /// Where the line is drawn.
    pub fn get_viewable_widget_props(&self) -> (r: ViewableWidgetProps)
        ensures
            r == self.props(),
    {
        self.viewable_widget_props
    }

    /// The position of the line's first character.
    pub fn get_offset(&self) -> (r: Coord)
        ensures
            r == self.props().offset,
    {
        self.viewable_widget_props.offset
    }
}

/// The number of characters of each line.
pub open spec fn widget_lengths(lines: Seq<LineWidget>) -> Seq<int> {
    lines.map_values(|l: LineWidget| l.chars().len() as int)
}

/// The number of characters typed right on each line.
pub open spec fn widget_corrects(lines: Seq<LineWidget>) -> Seq<int> {
    lines.map_values(|l: LineWidget| count(l.marks(), Some(true)) as int)
}

/// A block of lines typed one after the other. Enter on a line typed right
/// moves on to the next; on the last line it decides whether the whole
/// block was typed right.
pub struct LineBlockWidget {
    lines: Vec<LineWidget>,
    current_line_index: Option<usize>,
    line_lengths_prefix_sums: Vec<usize>,
    is_all_correct: bool,
    viewable_widget_props: ViewableWidgetProps,
}

impl LineBlockWidget {
    /// The lines of the block.
    pub closed spec fn lines_view(&self) -> Seq<LineWidget> {
        self.lines@
    }

    /// The line being typed, once the block has a line.
    pub closed spec fn current(&self) -> Option<usize> {
        self.current_line_index
    }

    /// Whether the block was found typed right in full.
    pub closed spec fn finished(&self) -> bool {
        self.is_all_correct
    }

    /// Where the block is drawn.
    pub closed spec fn props(&self) -> ViewableWidgetProps {
        self.viewable_widget_props
    }

    /// Entry `i` of the prefix sums counts the characters of lines `0 ..= i`;
    /// line `i` is drawn `i` rows below the block.
    pub closed spec fn wf(&self) -> bool {
        &&& self.line_lengths_prefix_sums@.len() == self.lines@.len()
        &&& forall|i: int|
            0 <= i < self.lines@.len() ==> #[trigger] self.line_lengths_prefix_sums@[i] == sum(
                widget_lengths(self.lines@.take(i + 1)),
            )
        &&& forall|i: int|
            0 <= i < self.lines@.len() ==> {
                &&& (#[trigger] self.lines@[i]).wf()
                &&& self.lines@[i].props().offset == (Coord {
                    row: (self.viewable_widget_props.offset.row + i) as usize,
                    col: self.viewable_widget_props.offset.col,
                })
            }
        &&& self.viewable_widget_props.offset.row + self.lines@.len() <= usize::MAX
        &&& (self.current_line_index is None <==> self.lines@.len() == 0)
        &&& (self.current_line_index matches Some(ci) ==> ci < self.lines@.len())
    }

    /// The characters of all lines.
    pub open spec fn total(&self) -> int {
        sum(widget_lengths(self.lines_view()))
    }

    /// An empty block drawn where the props say.
    pub fn new(viewable_widget_props: ViewableWidgetProps) -> (r: LineBlockWidget)
        ensures
            r.wf(),
            r.lines_view().len() == 0,
            r.current() is None,
            !r.finished(),
            r.props() == viewable_widget_props,
    {
        LineBlockWidget {
            lines: Vec::new(),
            current_line_index: None,
            line_lengths_prefix_sums: Vec::new(),
            is_all_correct: false,
            viewable_widget_props,
        }
    }

    /// The number of characters typed right on the lines up to the current one.
    pub fn get_num_correct_characters(&self) -> (r: usize)
        requires
            self.wf(),
        ensures
            r == match self.current() {
                Some(ci) => sum(widget_corrects(self.lines_view().take(ci + 1))),
                None => 0,
            },
    {
        match self.current_line_index {
            Some(ci) => {
                let mut n: usize = 0;
                let mut i: usize = 0;
                while i <= ci
                    invariant
                        self.wf(),
                        self.current_line_index == Some(ci),
                        i <= ci + 1,
                        n == sum(widget_corrects(self.lines@.take(i as int))),
                        n <= sum(widget_lengths(self.lines@.take(i as int))),
                    decreases ci + 1 - i,
                {
                    let c = self.lines[i].get_num_correct();
                    proof {
                        let pre = self.lines@.take(i as int);
                        let next = self.lines@.take(i + 1);
                        assert(widget_corrects(next).drop_last() =~= widget_corrects(pre));
                        assert(widget_lengths(next).drop_last() =~= widget_lengths(pre));
                        assert(self.lines@[i as int].wf());
                        self.lines@[i as int].lemma_wf();
                        lemma_count_bound(self.lines@[i as int].marks(), Some(true));
                        assert(self.line_lengths_prefix_sums@[i as int] == sum(widget_lengths(next)));
                    }
                    n = n + c;
                    i += 1;
                }
                n
            },
            None => 0,
        }
    }

    /// Appends a line of `text` below the others. The first line becomes the
    /// current one.
    pub fn new_line(&mut self, text: String)
        requires
            old(self).wf(),
            old(self).total() + text@.len() <= usize::MAX,
            old(self).props().offset.row + old(self).lines_view().len() < usize::MAX,
        ensures
            final(self).wf(),
            final(self).props() == old(self).props(),
            final(self).finished() == old(self).finished(),
            final(self).lines_view().len() == old(self).lines_view().len() + 1,
            final(self).lines_view().take(old(self).lines_view().len() as int) == old(self).lines_view(),
            final(self).lines_view().last().chars() == text@,
            final(self).lines_view().last().column() == 0,
            final(self).current() == match old(self).current() {
                Some(ci) => Some(ci),
                None => Some(0usize),
            },
    {
        let row = self.lines.len();
        let offset = self.viewable_widget_props.offset;
        let line = LineWidget::new(
            text,
            ViewableWidgetProps { offset: Coord { row: offset.row + row, col: offset.col } },
        );
        let line_length = line.get_dimensions().col;
        let ghost old_lines = self.lines@;
        proof {
            let next = old_lines.push(line);
            assert(widget_lengths(next).drop_last() =~= widget_lengths(old_lines));
            assert(next.take(next.len() as int) =~= next);
            assert(old_lines.take(old_lines.len() as int) =~= old_lines);
            if row > 0 {
                assert(self.line_lengths_prefix_sums@[row - 1] == sum(widget_lengths(old_lines)));
            }
        }
        if self.line_lengths_prefix_sums.len() > 0 {
            let last_prefix_sum = self.line_lengths_prefix_sums[self.line_lengths_prefix_sums.len() - 1];
            self.line_lengths_prefix_sums.push(last_prefix_sum + line_length);
        } else {
            self.line_lengths_prefix_sums.push(line_length);
        }
        self.lines.push(line);
        if self.current_line_index.is_none() {
            self.current_line_index = Some(0);
        }
        proof {
            assert forall|i: int| 0 <= i < self.lines@.len() implies #[trigger] self.line_lengths_prefix_sums@[i]
                == sum(widget_lengths(self.lines@.take(i + 1))) by {
                if i < row {
                    assert(self.lines@.take(i + 1) =~= old_lines.take(i + 1));
                } else {
                    assert(self.lines@.take(i + 1) =~= old_lines.push(line));
                }
            }
            assert(self.lines@.take(row as int) =~= old_lines);
        }
    }

    /// Whether the block was found typed right in full.
    pub fn is_all_correct(&self) -> (r: bool)
        ensures
            r == self.finished(),
    {
        self.is_all_correct
    }

    /// Enter: once the current line is typed right, moves on to the next
    /// line; on the last line, the block counts as typed right if every
    /// character of it was.
    pub fn process_enter(&mut self)
        requires
            old(self).wf(),
        ensures
            final(self).wf(),
            final(self).lines_view() == old(self).lines_view(),
            final(self).props() == old(self).props(),
            match old(self).current() {
                Some(ci) => {
                    let line = old(self).lines_view()[ci as int];
                    let line_done = line.column() == line.chars().len() && forall|i: int|
                        0 <= i < line.marks().len() ==> #[trigger] line.marks()[i] == Some(true);
                    if line_done && ci + 1 < old(self).lines_view().len() {
                        final(self).current() == Some((ci + 1) as usize) && final(self).finished()
                            == old(self).finished()
                    } else if line_done {
                        final(self).current() == old(self).current() && final(self).finished() == (
                        sum(widget_corrects(old(self).lines_view())) == old(self).total())
                    } else {
                        final(self).current() == old(self).current() && final(self).finished()
                            == old(self).finished()
                    }
                },
                None => final(self).current() is None && final(self).finished() == old(
                    self,
                ).finished(),
            },
    {
        match self.current_line_index {
            Some(ci) => {
                if self.lines[ci].is_all_correct() {
                    if ci + 1 < self.lines.len() {
                        self.current_line_index = Some(ci + 1);
                    } else {
                        let correct = self.get_num_correct_characters();
                        let last = self.line_lengths_prefix_sums[self.line_lengths_prefix_sums.len() - 1];
                        proof {
                            assert(self.lines@.take(ci + 1) =~= self.lines@);
                        }
                        self.is_all_correct = correct == last;
                    }
                }
            },
            None => {},
        }
    }

    /// Reacts to a key, until the block is typed right: Enter as
    /// `process_enter` says, other keys go to the current line.
    pub fn process_key_code(&mut self, key: Key)
        requires
            old(self).wf(),
        ensures
            final(self).wf(),
            final(self).props() == old(self).props(),
            final(self).lines_view().len() == old(self).lines_view().len(),
            old(self).finished() || old(self).current() is None ==> final(self).lines_view()
                == old(self).lines_view() && final(self).current() == old(self).current()
                && final(self).finished() == old(self).finished(),
            !old(self).finished() && !(key is Enter) ==> final(self).current() == old(self).current()
                && final(self).finished() == old(self).finished(),
            !old(self).finished() && !(key is Enter) ==> forall|i: int|
                0 <= i < old(self).lines_view().len() && Some(i as usize) != old(self).current()
                    ==> #[trigger] final(self).lines_view()[i] == old(self).lines_view()[i],
    {
        if !self.is_all_correct {
            if let Some(ci) = self.current_line_index {
                match key {
                    Key::Enter => self.process_enter(),
                    _ => {
                        let ghost old_lines = self.lines@;
                        self.lines[ci].process_key_code(key);
                        proof {
                            assert forall|i: int| 0 <= i < self.lines@.len() implies #[trigger] self.line_lengths_prefix_sums@[i]
                                == sum(widget_lengths(self.lines@.take(i + 1))) by {
                                assert(widget_lengths(self.lines@.take(i + 1)) =~= widget_lengths(old_lines.take(i + 1)));
                            }
                        }
                    },
                }
            }
        }
    }

    /// As many rows as lines, as many columns as the longest line.
    pub fn get_dimensions(&self) -> (r: Coord)
        requires
            self.wf(),
        ensures
            r.row == self.lines_view().len(),
            forall|i: int| 0 <= i < self.lines_view().len() ==> #[trigger] self.lines_view()[i].chars().len() <= r.col,
            self.lines_view().len() == 0 ==> r.col == 0,
            self.lines_view().len() > 0 ==> exists|i: int|
                0 <= i < self.lines_view().len() && #[trigger] self.lines_view()[i].chars().len() == r.col,
    {
        let mut width: usize = 0;
        let mut i: usize = 0;
        while i < self.lines.len()
            invariant
                self.wf(),
                i <= self.lines@.len(),
                forall|j: int| 0 <= j < i ==> #[trigger] self.lines@[j].chars().len() <= width,
                i == 0 ==> width == 0,
                i > 0 ==> exists|j: int| 0 <= j < i && #[trigger] self.lines@[j].chars().len() == width,
            decreases self.lines@.len() - i,
        {
            assert(self.lines@[i as int].wf());
            let w = self.lines[i].get_dimensions().col;
            if w > width || i == 0 {
                width = w;
            }
            i += 1;
        }
        Coord { row: self.lines.len(), col: width }
    }

    /// Where the block is drawn.
    pub fn get_viewable_widget_props(&self) -> (r: ViewableWidgetProps)
        ensures
            r == self.props(),
    {
        self.viewable_widget_props
    }

    /// The position of the block's first line.
    pub fn get_offset(&self) -> (r: Coord)
        ensures
            r == self.props().offset,
    {
        self.viewable_widget_props.offset
    }
}

/// A mark count never exceeds the number of marks.
proof fn lemma_count_bound(m: Seq<Option<bool>>, v: Option<bool>)
    ensures
        count(m, v) <= m.len(),
    decreases m.len(),
{
    if m.len() > 0 {
        lemma_count_bound(m.drop_last(), v);
    }
}

} // verus!
