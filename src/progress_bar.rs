use vstd::prelude::*;

use crate::coord::Coord;
use crate::progress::Progress;
use crate::text::views;
use crate::window::{Color, Window, WindowView};

verus! {

/// The glyph a bar is made of.
pub open spec fn bar_glyph() -> Seq<char> {
    seq!['\u{2591}']
}

/// A bar of `n` glyphs, one grapheme each.
pub open spec fn bar(n: int) -> Seq<Seq<char>> {
    Seq::new(n as nat, |i: int| bar_glyph())
}

/// The length of the part of a bar of `width` cells that stands for `count`
/// out of `total`: the full width when the count is the total, else the
/// proportional share rounded down.
pub open spec fn share(count: int, total: int, width: int) -> int {
    if count == total {
        width
    } else {
        count * width / total
    }
}

/// A one-row bar that shows the share of a text typed right, in green, then
/// the share typed wrong, in red, over a white background.
pub struct ProgressBar {
    region_index: usize,
    progress: Progress,
}

impl ProgressBar {
    /// The region the bar is drawn in.
    pub closed spec fn region(&self) -> usize {
        self.region_index
    }

    /// The progress the bar shows.
    pub closed spec fn shown(&self) -> Progress {
        self.progress
    }

    /// The counts never exceed the total.
    pub closed spec fn wf(&self) -> bool {
        self.progress.correct + self.progress.incorrect <= self.progress.total
    }

    /// A bar in region `region_index` that shows no progress.
    pub fn new(region_index: usize) -> (r: ProgressBar)
        ensures
            r.wf(),
            r.region() == region_index,
            r.shown() == (Progress { correct: 0, incorrect: 0, total: 0 }),
    {
        ProgressBar { region_index, progress: Progress { correct: 0, incorrect: 0, total: 0 } }
    }

    /// Sets the progress the bar shows.
    pub fn set_progress(&mut self, progress: Progress)
        requires
            progress.correct + progress.incorrect <= progress.total,
        ensures
            final(self).wf(),
            final(self).region() == old(self).region(),
            final(self).shown() == progress,
    {
        self.progress = progress;
    }

    /// The region the bar is drawn in.
    pub fn get_region_index(&self) -> (r: usize)
        ensures
            r == self.region(),
    {
        self.region_index
    }

    /// The window after the bar is drawn over region `region_index`.
    pub open spec fn drawn(&self, w: WindowView) -> WindowView {
        let ri = self.region() as int;
        let width = w.regions[ri].width as int;
        let p = self.shown();
        let correct = share(p.correct as int, p.total as int, width);
        let incorrect = share(p.incorrect as int, p.total as int, width);
        w.clear_rects(seq![w.regions[ri]]).draw(
            bar(width),
            Color::White,
            Color::White,
            Coord { row: 0, col: 0 },
            ri,
        ).draw(bar(correct), Color::Green, Color::Green, Coord { row: 0, col: 0 }, ri).draw(
            bar(incorrect),
            Color::Red,
            Color::Red,
            Coord { row: 0, col: correct as u16 },
            ri,
        )
    }

    /// Blanks the bar's region, then draws on its first row a white bar of
    /// its full width, the share typed right in green from the left, and the
    /// share typed wrong in red after it.
    pub fn draw(&self, window: &mut Window)
        requires
            self.wf(),
            old(window).wf(),
            self.region() < old(window)@.regions.len(),
        ensures
            final(window).wf(),
            final(window)@ == self.drawn(old(window)@),
    {
        let width = window.region(self.region_index).unwrap().width;
        let correct = share_of(self.progress.correct, self.progress.total, width);
        let incorrect = share_of(self.progress.incorrect, self.progress.total, width);
        let full_bar = new_bar(width);
        let correct_bar = new_bar(correct);
        let incorrect_bar = new_bar(incorrect);
        window.clear_region(self.region_index);
        window.draw_graphemes(&full_bar, Color::White, Color::White, Coord { row: 0, col: 0 }, self.region_index);
        window.draw_graphemes(&correct_bar, Color::Green, Color::Green, Coord { row: 0, col: 0 }, self.region_index);
        window.draw_graphemes(
            &incorrect_bar,
            Color::Red,
            Color::Red,
            Coord { row: 0, col: correct },
            self.region_index,
        );
    }
}

/// The share of a bar of `width` cells that stands for `count` out of `total`.
fn share_of(count: usize, total: usize, width: u16) -> (r: u16)
    requires
        count <= total,
    ensures
        r == share(count as int, total as int, width as int),
{
    if count == total {
        width
    } else {
        proof {
            let c = count as int;
            let t = total as int;
            let w = width as int;
            assert(c * w / t <= w) by (nonlinear_arith)
                requires
                    0 <= c < t,
                    w >= 0,
            ;
            assert((count as u128) * (width as u128) <= 0xffff_ffff_ffff_ffff * 0xffff) by (nonlinear_arith)
                requires
                    count <= 0xffff_ffff_ffff_ffffu128,
                    width <= 0xffff,
            ;
        }
        ((count as u128) * (width as u128) / (total as u128)) as u16
    }
}

/// A bar of `n` glyphs.
fn new_bar(n: u16) -> (r: Vec<String>)
    ensures
        views(r@) == bar(n as int),
{
    let mut out: Vec<String> = Vec::new();
    let mut i: u16 = 0;
    while i < n
        invariant
            i <= n,
            out@.len() == i,
            forall|k: int| 0 <= k < i ==> (#[trigger] out@[k])@ == bar_glyph(),
        decreases n - i,
    {
        let glyph = "\u{2591}".to_owned();
        proof {
            reveal_strlit("\u{2591}");
            assert(glyph@ =~= bar_glyph());
        }
        out.push(glyph);
        i += 1;
    }
    assert(views(out@) =~= bar(n as int));
    out
}

} // verus!
