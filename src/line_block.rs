use vstd::prelude::*;

use crate::line::{count, Key, Line};
use crate::progress::Progress;
use crate::window::{DrawError, Window, WindowView};

verus! {

/// The sum of a sequence of integers.
pub open spec fn sum(s: Seq<int>) -> int
    decreases s.len(),
{
    if s.len() == 0 {
        0
    } else {
        sum(s.drop_last()) + s.last()
    }
}

/// The number of graphemes of each line.
pub open spec fn line_lengths(lines: Seq<Line>) -> Seq<int> {
    lines.map_values(|l: Line| l.text_view().len() as int)
}

/// The number of graphemes of each line of text.
pub open spec fn text_lengths(text_lines: Seq<Vec<String>>) -> Seq<int> {
    text_lines.map_values(|t: Vec<String>| t@.len() as int)
}

/// The number of graphemes of each line that carry the mark `v`.
pub open spec fn line_counts(lines: Seq<Line>, v: Option<bool>) -> Seq<int> {
    lines.map_values(|l: Line| count(l.marks(), v) as int)
}

/// A block of lines typed one after the other: Enter moves on to the next
/// line once the current one is typed right.
pub struct LineBlock {
    lines: Vec<Line>,
    region_index: usize,
    index: usize,
}

impl LineBlock {
    /// The lines of the block.
    pub closed spec fn lines_view(&self) -> Seq<Line> {
        self.lines@
    }

    /// The region the block is drawn in.
    pub closed spec fn region(&self) -> usize {
        self.region_index
    }

    /// The line being typed; equal to the number of lines once all are done.
    pub closed spec fn current(&self) -> nat {
        self.index as nat
    }

    /// Line `i` is drawn on row `i` of the block's region, and the block's
    /// grapheme count fits a `usize`.
    pub closed spec fn wf(&self) -> bool {
        &&& self.index <= self.lines@.len()
        &&& forall|i: int|
            0 <= i < self.lines@.len() ==> {
                &&& (#[trigger] self.lines@[i]).wf()
                &&& self.lines@[i].region() == self.region_index
                &&& self.lines@[i].row() == i
            }
        &&& sum(line_lengths(self.lines@)) <= usize::MAX
    }

    /// A block of the given lines of graphemes, drawn in region
    /// `region_index`, with nothing typed yet.
    pub fn new(text_lines: Vec<Vec<String>>, region_index: usize) -> (r: LineBlock)
        requires
            sum(text_lengths(text_lines@)) <= usize::MAX,
        ensures
            r.wf(),
            r.region() == region_index,
            r.current() == 0,
            r.lines_view().len() == text_lines@.len(),
            forall|i: int|
                0 <= i < text_lines@.len() ==> {
                    &&& (#[trigger] r.lines_view()[i]).text_view() == text_lines@[i]@.map_values(
                        |g: String| g@,
                    )
                    &&& r.lines_view()[i].typed() == 0
                    &&& r.lines_view()[i].marks() == Seq::new(
                        text_lines@[i]@.len(),
                        |j: int| None::<bool>,
                    )
                },
    {
        let ghost original = text_lines@;
        let mut text_lines = text_lines;
        let n = text_lines.len();
        let mut lines: Vec<Line> = Vec::new();
        let mut i: usize = 0;
        while i < n
            invariant
                i <= n,
                n == original.len(),
                text_lines@.len() == n,
                forall|j: int| i <= j < n ==> #[trigger] text_lines@[j] == original[j],
                lines@.len() == i,
                line_lengths(lines@) == text_lengths(original.take(i as int)),
                forall|j: int|
                    0 <= j < i ==> {
                        &&& (#[trigger] lines@[j]).wf()
                        &&& lines@[j].region() == region_index
                        &&& lines@[j].row() == j
                        &&& lines@[j].text_view() == original[j]@.map_values(|g: String| g@)
                        &&& lines@[j].typed() == 0
                        &&& lines@[j].marks() == Seq::new(original[j]@.len(), |k: int| None::<bool>)
                    },
            decreases n - i,
        {
            let mut text: Vec<String> = Vec::new();
            text_lines.set_and_swap(i, &mut text);
            let line = Line::new(text, region_index, i);
            lines.push(line);
            proof {
                assert(line_lengths(lines@) =~= text_lengths(original.take(i + 1)));
            }
            i += 1;
        }
        proof {
            assert(original.take(n as int) =~= original);
        }
        LineBlock { lines, region_index, index: 0 }
    }

    /// The line whose typing position the cursor shows: the current line, or
    /// the last one once all are done.
    pub open spec fn cursor_line(&self) -> int {
        if self.current() < self.lines_view().len() {
            self.current() as int
        } else {
            self.lines_view().len() - 1
        }
    }

    /// The window after the first `n` lines are drawn, one after the other.
    pub open spec fn drawn(&self, w: WindowView, n: int) -> WindowView
        decreases n,
    {
        if n <= 0 {
            w
        } else {
            let line = self.lines_view()[n - 1];
            line.drawn(self.drawn(w, n - 1), line.visible_len())
        }
    }

    /// Places the window's cursor at the typing position of the current line.
    pub fn reset_cursor(&self, window: &mut Window)
        requires
            self.wf(),
            old(window).wf(),
            self.region() < old(window)@.regions.len(),
            self.lines_view().len() > 0 ==> {
                let line = self.lines_view()[self.cursor_line()];
                &&& line.row() <= u16::MAX
                &&& line.typed() <= u16::MAX
                &&& old(window)@.regions[self.region() as int].coord.can_add(line.cursor_at())
            },
        ensures
            final(window).wf(),
            self.lines_view().len() == 0 ==> final(window)@ == old(window)@,
            self.lines_view().len() > 0 ==> final(window)@ == (WindowView {
                cursor: old(window)@.regions[self.region() as int].coord.plus(
                    self.lines_view()[self.cursor_line()].cursor_at(),
                ),
                ..old(window)@
            }),
    {
        if self.index < self.lines.len() {
            self.lines[self.index].reset_cursor(window);
        } else if self.lines.len() > 0 {
            self.lines[self.lines.len() - 1].reset_cursor(window);
        }
    }

    /// Draws every line of the block on its row. Stops with an error at the
    /// first grapheme that is not one column wide.
    pub fn draw(&self, window: &mut Window) -> (r: Result<(), DrawError>)
        requires
            self.wf(),
            old(window).wf(),
            self.region() < old(window)@.regions.len(),
        ensures
            final(window).wf(),
            final(window)@.regions == old(window)@.regions,
            r.is_ok() == forall|k: int|
                0 <= k < self.lines_view().len() ==> (#[trigger] self.lines_view()[k]).drawable(
                    self.lines_view()[k].visible_len(),
                ),
            r.is_ok() ==> final(window)@ == self.drawn(old(window)@, self.lines_view().len() as int),
    {
        let n = self.lines.len();
        let mut i: usize = 0;
        while i < n
            invariant
                i <= n,
                n == self.lines@.len(),
                self.wf(),
                window.wf(),
                window@.regions == old(window)@.regions,
                self.region() < old(window)@.regions.len(),
                forall|k: int|
                    0 <= k < i ==> (#[trigger] self.lines@[k]).drawable(self.lines@[k].visible_len()),
                window@ == self.drawn(old(window)@, i as int),
            decreases n - i,
        {
            let res = self.lines[i].draw(window);
            if res.is_err() {
                proof {
                    assert(!self.lines@[i as int].drawable(self.lines@[i as int].visible_len()));
                }
                return res;
            }
            i += 1;
        }
        Ok(())
    }

    /// The lines of the block.
    pub fn lines(&self) -> (r: &Vec<Line>)
        ensures
            r@ == self.lines_view(),
    {
        &self.lines
    }

    /// The line being typed.
    pub fn index(&self) -> (r: usize)
        ensures
            r == self.current(),
    {
        self.index
    }

    /// The region the block is drawn in.
    pub fn get_region_index(&self) -> (r: usize)
        ensures
            r == self.region(),
    {
        self.region_index
    }

    /// How far the typist has come through the whole block: the counts of
    /// all lines summed.
    pub fn progress(&self) -> (r: Progress)
        requires
            self.wf(),
        ensures
            r.correct == sum(line_counts(self.lines_view(), Some(true))),
            r.incorrect == sum(line_counts(self.lines_view(), Some(false))),
            r.total == sum(line_lengths(self.lines_view())),
    {
        let mut acc = Progress { correct: 0, incorrect: 0, total: 0 };
        let n = self.lines.len();
        let mut i: usize = 0;
        while i < n
            invariant
                i <= n,
                n == self.lines@.len(),
                self.wf(),
                acc.correct == sum(line_counts(self.lines@.take(i as int), Some(true))),
                acc.incorrect == sum(line_counts(self.lines@.take(i as int), Some(false))),
                acc.total == sum(line_lengths(self.lines@.take(i as int))),
            decreases n - i,
        {
            let p = self.lines[i].progress();
            proof {
                let pre = self.lines@.take(i as int);
                let next = self.lines@.take(i + 1);
                assert(next.drop_last() =~= pre);
                assert(line_counts(next, Some(true)).drop_last() =~= line_counts(pre, Some(true)));
                assert(line_counts(next, Some(false)).drop_last() =~= line_counts(pre, Some(false)));
                assert(line_lengths(next).drop_last() =~= line_lengths(pre));
                lemma_counts_bounded(self.lines@, i as int + 1);
                lemma_sum_prefix(line_lengths(self.lines@), i as int + 1);
                assert(line_lengths(self.lines@).take(i + 1) =~= line_lengths(next));
            }
            acc = acc.add(p);
            i += 1;
        }
        proof {
            assert(self.lines@.take(n as int) =~= self.lines@);
        }
        acc
    }

    /// Whether every line of the block was typed right.
    pub fn done(&self) -> (r: bool)
        requires
            self.wf(),
        ensures
            r == (sum(line_counts(self.lines_view(), Some(true))) == sum(
                line_lengths(self.lines_view()),
            )),
    {
        let p = self.progress();
        p.correct == p.total
    }

    /// Enter: moves on to the next line if the current one was typed right.
    pub fn process_enter(&mut self)
        requires
            old(self).wf(),
        ensures
            final(self).wf(),
            final(self).lines_view() == old(self).lines_view(),
            final(self).region() == old(self).region(),
            final(self).current() == if old(self).current() < old(self).lines_view().len() && count(
                old(self).lines_view()[old(self).current() as int].marks(),
                Some(true),
            ) == old(self).lines_view()[old(self).current() as int].text_view().len() {
                old(self).current() + 1
            } else {
                old(self).current()
            },
    {
        if self.index < self.lines.len() {
            if self.lines[self.index].done() {
                self.index += 1;
            }
        }
    }

    /// Reacts to a key: Enter moves on to the next line once the current one
    /// is typed right; any other key goes to the current line.
    pub fn handle_key_event(&mut self, key: Key)
        requires
            old(self).wf(),
        ensures
            final(self).wf(),
            final(self).region() == old(self).region(),
            key is Enter ==> final(self).lines_view() == old(self).lines_view()
                && final(self).current() == if old(self).current() < old(self).lines_view().len()
                && count(old(self).lines_view()[old(self).current() as int].marks(), Some(true))
                == old(self).lines_view()[old(self).current() as int].text_view().len() {
                old(self).current() + 1
            } else {
                old(self).current()
            },
            !(key is Enter) ==> final(self).current() == old(self).current(),
            !(key is Enter) ==> final(self).lines_view().len() == old(self).lines_view().len(),
            !(key is Enter) ==> forall|i: int|
                0 <= i < old(self).lines_view().len() && i != old(self).current()
                    ==> #[trigger] final(self).lines_view()[i] == old(self).lines_view()[i],
            !(key is Enter) && old(self).current() < old(self).lines_view().len() ==> {
                let before = old(self).lines_view()[old(self).current() as int];
                let after = final(self).lines_view()[old(self).current() as int];
                &&& after.text_view() == before.text_view()
                &&& after.typed() == before.typed_after(key)
                &&& after.marks() == before.marks_after(key)
            },
    {
        match key {
            Key::Enter => self.process_enter(),
            _ => {
                if self.index < self.lines.len() {
                    let ghost before = self.lines@;
                    let idx = self.index;
                    self.lines[idx].handle_key_event(key);
                    proof {
                        assert(line_lengths(self.lines@) =~= line_lengths(before));
                    }
                }
            },
        }
    }
}

/// The sum of a prefix of nonnegative integers is at most the whole sum.
proof fn lemma_sum_prefix(s: Seq<int>, i: int)
    requires
        0 <= i <= s.len(),
        forall|k: int| 0 <= k < s.len() ==> s[k] >= 0,
    ensures
        sum(s.take(i)) <= sum(s),
    decreases s.len(),
{
    if i < s.len() {
        assert(s.drop_last().take(i) =~= s.take(i));
        lemma_sum_prefix(s.drop_last(), i);
    } else {
        assert(s.take(i) =~= s);
    }
}

/// The sum of a sequence is at most the sum of one that is larger entry by entry.
proof fn lemma_sum_le(a: Seq<int>, b: Seq<int>)
    requires
        a.len() == b.len(),
        forall|k: int| 0 <= k < a.len() ==> a[k] <= b[k],
    ensures
        sum(a) <= sum(b),
    decreases a.len(),
{
    if a.len() > 0 {
        lemma_sum_le(a.drop_last(), b.drop_last());
    }
}

/// A mark count never exceeds the number of marks.
proof fn lemma_count_le(m: Seq<Option<bool>>, v: Option<bool>)
    ensures
        count(m, v) <= m.len(),
    decreases m.len(),
{
    if m.len() > 0 {
        lemma_count_le(m.drop_last(), v);
    }
}

/// Over the first `n` lines, the summed mark counts are at most the summed lengths.
proof fn lemma_counts_bounded(lines: Seq<Line>, n: int)
    requires
        0 <= n <= lines.len(),
        forall|i: int| 0 <= i < lines.len() ==> (#[trigger] lines[i]).wf(),
    ensures
        sum(line_counts(lines.take(n), Some(true))) <= sum(line_lengths(lines.take(n))),
        sum(line_counts(lines.take(n), Some(false))) <= sum(line_lengths(lines.take(n))),
        forall|k: int| 0 <= k < lines.len() ==> line_lengths(lines)[k] >= 0,
{
    let pre = lines.take(n);
    assert forall|k: int| 0 <= k < pre.len() implies line_counts(pre, Some(true))[k]
        <= line_lengths(pre)[k] && line_counts(pre, Some(false))[k] <= line_lengths(pre)[k] by {
        lemma_count_le(pre[k].marks(), Some(true));
        lemma_count_le(pre[k].marks(), Some(false));
        assert(lines[k].wf());
        pre[k].lemma_wf();
    }
    lemma_sum_le(line_counts(pre, Some(true)), line_lengths(pre));
    lemma_sum_le(line_counts(pre, Some(false)), line_lengths(pre));
}

} // verus!
