use vstd::prelude::*;

use crate::coord::Coord;
use crate::layout::Layout;
use crate::rect::{HorizontalSplitKind, Rect, VerticalSplitKind};
use crate::text::{all_single_column, display_width, graphemes, graphemes_of, views, width};

verus! {

/// A terminal color, as the terminal's control layer names them.
#[derive(Clone, Copy, PartialEq, Eq, Debug, Structural)]
pub enum Color {
    Reset,
    Black,
    DarkGrey,
    Red,
    DarkRed,
    Green,
    DarkGreen,
    Yellow,
    DarkYellow,
    Blue,
    DarkBlue,
    Magenta,
    DarkMagenta,
    Cyan,
    DarkCyan,
    White,
    Grey,
    Rgb { r: u8, g: u8, b: u8 },
    AnsiValue(u8),
}

/// Why a text could not be drawn.
#[derive(Clone, Copy, PartialEq, Eq, Debug, Structural)]
pub enum DrawError {
    /// The text holds a grapheme that does not occupy exactly one column.
    NotSingleColumn,
}

/// What a display cell shows.
pub struct CellView {
    pub content: Seq<char>,
    pub fg: Color,
    pub bg: Color,
}

/// The blank cell: a space in the default colors.
pub open spec fn blank_cell() -> CellView {
    CellView { content: seq![' '], fg: Color::Reset, bg: Color::Reset }
}

/// One display cell: a grapheme one column wide and its colors.
#[derive(Debug)]
pub struct Cell {
    pub c: String,
    pub fg: Color,
    pub bg: Color,
}

impl View for Cell {
    type V = CellView;

    open spec fn view(&self) -> CellView {
        CellView { content: self.c@, fg: self.fg, bg: self.bg }
    }
}

impl Cell {
    /// The blank cell.
    pub fn new() -> (r: Cell)
        ensures
            r@ == blank_cell(),
    {
        let c = " ".to_owned();
        proof {
            reveal_strlit(" ");
            assert(c@ =~= seq![' ']);
        }
        Cell { c, fg: Color::Reset, bg: Color::Reset }
    }
}

/// A grid of `height` rows of `width` blank cells.
pub open spec fn blank_grid(width: int, height: int) -> Seq<Seq<CellView>> {
    Seq::new(height as nat, |r: int| Seq::new(width as nat, |c: int| blank_cell()))
}

/// A grid of `height` rows of `width` flags, all equal to `b`.
pub open spec fn flag_grid(width: int, height: int, b: bool) -> Seq<Seq<bool>> {
    Seq::new(height as nat, |r: int| Seq::new(width as nat, |c: int| b))
}

/// The rectangle of a whole window of the given size.
pub open spec fn screen(width: u16, height: u16) -> Rect {
    Rect { coord: Coord { row: 0, col: 0 }, width, height }
}

/// The state of a window: its bounds, its regions, what each cell shows,
/// which cells changed since the last flush, and where the cursor goes.
pub struct WindowView {
    pub bounds: Rect,
    pub regions: Seq<Rect>,
    pub cells: Seq<Seq<CellView>>,
    pub dirty: Seq<Seq<bool>>,
    pub cursor: Coord,
}

impl WindowView {
    pub open spec fn height(self) -> int {
        self.bounds.height as int
    }

    pub open spec fn width(self) -> int {
        self.bounds.width as int
    }

    /// Whether (`row`, `col`) is a cell of the window.
    pub open spec fn in_window(self, row: int, col: int) -> bool {
        0 <= row < self.height() && 0 <= col < self.width()
    }

    /// The grids have the window's shape, the window sits at the origin, and
    /// every region lies in the coordinate space.
    pub open spec fn wf(self) -> bool {
        &&& self.bounds.coord == Coord { row: 0, col: 0 }
        &&& self.regions.len() >= 1
        &&& self.cells.len() == self.height()
        &&& self.dirty.len() == self.height()
        &&& forall|r: int| 0 <= r < self.height() ==> #[trigger] self.cells[r].len() == self.width()
        &&& forall|r: int| 0 <= r < self.height() ==> #[trigger] self.dirty[r].len() == self.width()
        &&& forall|i: int| 0 <= i < self.regions.len() ==> #[trigger] self.regions[i].fits()
    }

    /// Whether drawing `n` graphemes at `at` in `region` puts one on cell
    /// (`row`, `col`): the grapheme lands inside both the region and the window.
    pub open spec fn hit(self, region: Rect, at: Coord, n: int, row: int, col: int) -> bool {
        let k = col - region.coord.col - at.col;
        &&& self.in_window(row, col)
        &&& row == region.coord.row + at.row
        &&& at.row < region.height
        &&& 0 <= k < n
        &&& at.col + k < region.width
    }

    /// The cell that drawing `gs` at `at` in `region` would put at (`row`, `col`).
    pub open spec fn new_cell(
        gs: Seq<Seq<char>>,
        fg: Color,
        bg: Color,
        at: Coord,
        region: Rect,
        col: int,
    ) -> CellView {
        CellView { content: gs[col - region.coord.col - at.col], fg, bg }
    }

    /// What cell (`row`, `col`) shows after the first `n` graphemes of `gs`
    /// are drawn at `at` in `region`.
    pub open spec fn drawn_cell(
        self,
        gs: Seq<Seq<char>>,
        fg: Color,
        bg: Color,
        at: Coord,
        region: Rect,
        n: int,
        row: int,
        col: int,
    ) -> CellView {
        if self.hit(region, at, n, row, col) {
            Self::new_cell(gs, fg, bg, at, region, col)
        } else {
            self.cells[row][col]
        }
    }

    /// Whether cell (`row`, `col`) is dirty after the first `n` graphemes of
    /// `gs` are drawn at `at` in `region`: it was dirty, or it now shows
    /// something else.
    pub open spec fn drawn_dirty(
        self,
        gs: Seq<Seq<char>>,
        fg: Color,
        bg: Color,
        at: Coord,
        region: Rect,
        n: int,
        row: int,
        col: int,
    ) -> bool {
        self.dirty[row][col] || (self.hit(region, at, n, row, col) && self.cells[row][col]
            != Self::new_cell(gs, fg, bg, at, region, col))
    }

    /// The window after the graphemes `gs` are drawn in a row starting at
    /// `at`, relative to region `region_index`. Graphemes that fall outside the
    /// region or the window are dropped; a cell that already shows the same
    /// grapheme in the same colors stays clean.
    pub open spec fn draw(
        self,
        gs: Seq<Seq<char>>,
        fg: Color,
        bg: Color,
        at: Coord,
        region_index: int,
    ) -> WindowView {
        let region = self.regions[region_index];
        WindowView {
            cells: Seq::new(
                self.height() as nat,
                |r: int|
                    Seq::new(
                        self.width() as nat,
                        |c: int| self.drawn_cell(gs, fg, bg, at, region, gs.len() as int, r, c),
                    ),
            ),
            dirty: Seq::new(
                self.height() as nat,
                |r: int|
                    Seq::new(
                        self.width() as nat,
                        |c: int| self.drawn_dirty(gs, fg, bg, at, region, gs.len() as int, r, c),
                    ),
            ),
            ..self
        }
    }
}

impl WindowView {
    /// Whether cell (`row`, `col`) of the window lies in one of `rects`.
    pub open spec fn covered(self, rects: Seq<Rect>, row: int, col: int) -> bool {
        &&& self.in_window(row, col)
        &&& exists|i: int| 0 <= i < rects.len() && #[trigger] rects[i].contains(row, col)
    }

    /// The window after every cell that lies in one of `rects` is blanked.
    /// Cells that were blank already stay clean.
    pub open spec fn clear_rects(self, rects: Seq<Rect>) -> WindowView {
        WindowView {
            cells: Seq::new(
                self.height() as nat,
                |r: int|
                    Seq::new(
                        self.width() as nat,
                        |c: int|
                            if self.covered(rects, r, c) {
                                blank_cell()
                            } else {
                                self.cells[r][c]
                            },
                    ),
            ),
            dirty: Seq::new(
                self.height() as nat,
                |r: int|
                    Seq::new(
                        self.width() as nat,
                        |c: int|
                            self.dirty[r][c] || (self.covered(rects, r, c) && self.cells[r][c]
                                != blank_cell()),
                    ),
            ),
            ..self
        }
    }
}

/// One instruction to the terminal: move the cursor to an absolute cell, set
/// the foreground or background color, or print a grapheme at the cursor.
#[derive(Debug, PartialEq, Eq)]
pub enum DisplayOp {
    MoveTo { row: u16, col: u16 },
    SetForeground(Color),
    SetBackground(Color),
    Print(String),
}

/// What a terminal instruction does.
pub enum OpView {
    MoveTo { row: u16, col: u16 },
    SetForeground(Color),
    SetBackground(Color),
    Print(Seq<char>),
}

impl View for DisplayOp {
    type V = OpView;

    open spec fn view(&self) -> OpView {
        match self {
            DisplayOp::MoveTo { row, col } => OpView::MoveTo { row: *row, col: *col },
            DisplayOp::SetForeground(c) => OpView::SetForeground(*c),
            DisplayOp::SetBackground(c) => OpView::SetBackground(*c),
            DisplayOp::Print(s) => OpView::Print(s@),
        }
    }
}

/// The views of a sequence of instructions.
pub open spec fn ops_view(ops: Seq<DisplayOp>) -> Seq<OpView> {
    ops.map_values(|o: DisplayOp| o@)
}

/// The last cell that a flush emitted: where it was and its colors.
pub struct Pen {
    pub row: int,
    pub col: int,
    pub fg: Color,
    pub bg: Color,
}

/// The instructions that emit `cell` at (`row`, `col`) after the cell that
/// `prev` describes. The cursor is moved unless it already stands there,
/// right after the previous cell; a color is set unless the previous cell
/// had it.
pub open spec fn emit(cell: CellView, row: int, col: int, prev: Option<Pen>) -> Seq<OpView> {
    let moves = match prev {
        Some(p) => !(p.row == row && p.col + 1 == col),
        None => true,
    };
    let sets_fg = match prev {
        Some(p) => p.fg != cell.fg,
        None => true,
    };
    let sets_bg = match prev {
        Some(p) => p.bg != cell.bg,
        None => true,
    };
    (if moves {
        seq![OpView::MoveTo { row: row as u16, col: col as u16 }]
    } else {
        Seq::empty()
    }) + (if sets_fg {
        seq![OpView::SetForeground(cell.fg)]
    } else {
        Seq::empty()
    }) + (if sets_bg {
        seq![OpView::SetBackground(cell.bg)]
    } else {
        Seq::empty()
    }) + seq![OpView::Print(cell.content)]
}

impl WindowView {
    /// The instructions that a flush emits for the dirty cells before cell
    /// (`row`, `col`) in row-major order, and the last cell it emitted.
    pub open spec fn flush_upto(self, row: nat, col: nat) -> (Seq<OpView>, Option<Pen>)
        decreases row, col,
    {
        if col == 0 {
            if row == 0 {
                (Seq::empty(), None)
            } else {
                self.flush_upto((row - 1) as nat, self.width() as nat)
            }
        } else {
            let before = self.flush_upto(row, (col - 1) as nat);
            let r = row as int;
            let c = col - 1;
            if self.dirty[r][c] {
                let cell = self.cells[r][c];
                (
                    before.0 + emit(cell, r, c, before.1),
                    Some(Pen { row: r, col: c, fg: cell.fg, bg: cell.bg }),
                )
            } else {
                before
            }
        }
    }

    /// The instructions of a flush: every dirty cell in row-major order, then
    /// a move of the cursor to its place.
    pub open spec fn display_ops(self) -> Seq<OpView> {
        self.flush_upto(self.height() as nat, 0).0.push(
            OpView::MoveTo { row: self.cursor.row, col: self.cursor.col },
        )
    }

    /// The window after a flush: every cell is clean.
    pub open spec fn flushed(self) -> WindowView {
        WindowView { dirty: flag_grid(self.width(), self.height(), false), ..self }
    }
}

/// The last emitted cell, as the flush loop tracks it.
pub open spec fn pen_of(p: Option<(u16, u16, Color, Color)>) -> Option<Pen> {
    match p {
        Some((r, c, fg, bg)) => Some(Pen { row: r as int, col: c as int, fg, bg }),
        None => None,
    }
}

/// Blanking the cells of some rectangles and then those of one more is
/// blanking the cells of all of them at once.
proof fn lemma_clear_rects_push(v: WindowView, rects: Seq<Rect>, extra: Rect)
    requires
        v.wf(),
    ensures
        v.clear_rects(rects).clear_rects(seq![extra]) == v.clear_rects(rects.push(extra)),
{
    let a = v.clear_rects(rects).clear_rects(seq![extra]);
    let b = v.clear_rects(rects.push(extra));
    let all = rects.push(extra);
    assert forall|r: int, c: int| v.in_window(r, c) implies v.covered(all, r, c) == (v.covered(
        rects,
        r,
        c,
    ) || extra.contains(r, c)) by {
        if v.covered(rects, r, c) {
            let i = choose|i: int| 0 <= i < rects.len() && #[trigger] rects[i].contains(r, c);
            assert(all[i] == rects[i]);
        }
        if extra.contains(r, c) {
            assert(all[rects.len() as int] == extra);
        }
        if v.covered(all, r, c) {
            let i = choose|i: int| 0 <= i < all.len() && #[trigger] all[i].contains(r, c);
            if i < rects.len() {
                assert(rects[i] == all[i]);
            }
        }
    }
    assert forall|r: int, c: int| v.in_window(r, c) implies v.clear_rects(rects).covered(
        seq![extra],
        r,
        c,
    ) == extra.contains(r, c) by {
        if extra.contains(r, c) {
            assert(seq![extra][0] == extra);
        }
    }
    assert forall|r: int| 0 <= r < v.height() implies #[trigger] a.cells[r] =~= b.cells[r] by {
        assert forall|c: int| 0 <= c < v.width() implies #[trigger] a.cells[r][c] == b.cells[r][c] by {
            assert(v.in_window(r, c));
        }
    }
    assert forall|r: int| 0 <= r < v.height() implies #[trigger] a.dirty[r] =~= b.dirty[r] by {
        assert forall|c: int| 0 <= c < v.width() implies #[trigger] a.dirty[r][c] == b.dirty[r][c] by {
            assert(v.in_window(r, c));
        }
    }
    assert(a.cells =~= b.cells);
    assert(a.dirty =~= b.dirty);
}

/// Blanking the cells of no rectangle changes nothing.
proof fn lemma_clear_no_rects(v: WindowView)
    requires
        v.wf(),
    ensures
        v.clear_rects(Seq::empty()) == v,
{
    let a = v.clear_rects(Seq::empty());
    assert forall|r: int| 0 <= r < v.height() implies #[trigger] a.cells[r] =~= v.cells[r] by {}
    assert forall|r: int| 0 <= r < v.height() implies #[trigger] a.dirty[r] =~= v.dirty[r] by {}
    assert(a.cells =~= v.cells);
    assert(a.dirty =~= v.dirty);
}

/// A terminal screen as a grid of cells addressed through regions. Drawing
/// records which cells changed; a flush emits only those.
pub struct Window {
    bounds: Rect,
    layout: Layout,
    buffer: Vec<Vec<Cell>>,
    dirty: Vec<Vec<bool>>,
    cursor_pos: Coord,
}

impl View for Window {
    type V = WindowView;

    closed spec fn view(&self) -> WindowView {
        WindowView {
            bounds: self.bounds,
            regions: self.layout.rects(),
            cells: self.buffer@.map_values(|row: Vec<Cell>| row@.map_values(|c: Cell| c@)),
            dirty: self.dirty@.map_values(|row: Vec<bool>| row@),
            cursor: self.cursor_pos,
        }
    }
}

impl Window {
    /// The window's state is well formed and its regions were derived from
    /// its bounds.
    pub closed spec fn wf(&self) -> bool {
        &&& self@.wf()
        &&& self.layout.wf()
        &&& self.layout.root() == self.bounds
    }

    /// The layout that carves the window into regions.
    pub closed spec fn layout_state(&self) -> Layout {
        self.layout
    }

    /// A window of `width` columns and `height` rows: one region covering it,
    /// every cell blank and clean, the cursor at the origin.
    pub fn new(width: u16, height: u16) -> (r: Window)
        ensures
            r.wf(),
            r@.bounds == screen(width, height),
            r@.regions == seq![screen(width, height)],
            r@.cells == blank_grid(width as int, height as int),
            r@.dirty == flag_grid(width as int, height as int, false),
            r@.cursor == (Coord { row: 0, col: 0 }),
    {
        let bounds = Rect { coord: Coord { row: 0, col: 0 }, width, height };
        let buffer = new_blank_grid(width, height);
        let dirty = new_flag_grid(width, height, false);
        let r = Window {
            bounds,
            layout: Layout::new(bounds),
            buffer,
            dirty,
            cursor_pos: Coord { row: 0, col: 0 },
        };
        proof {
            r.layout.lemma_wf();
            assert(r@.cells =~= blank_grid(width as int, height as int));
            assert(r@.dirty =~= flag_grid(width as int, height as int, false));
        }
        r
    }

    /// Resizes the window to `new_width` by `new_height`: every region is
    /// derived again from the new bounds, every cell is blank and every cell
    /// is dirty, since the whole screen must be painted again.
    pub fn resize(&mut self, new_width: u16, new_height: u16)
        requires
            old(self).wf(),
        ensures
            final(self).wf(),
            final(self)@.bounds == screen(new_width, new_height),
            final(self)@.regions == old(self).layout_state().tree().rects_for(
                screen(new_width, new_height),
                old(self)@.regions.len(),
            ),
            final(self).layout_state().tree() == old(self).layout_state().tree(),
            final(self)@.cells == blank_grid(new_width as int, new_height as int),
            final(self)@.dirty == flag_grid(new_width as int, new_height as int, true),
            final(self)@.cursor == old(self)@.cursor,
    {
        let new_bounds = Rect { coord: Coord { row: 0, col: 0 }, width: new_width, height: new_height };
        self.layout.resize(new_bounds);
        self.bounds = new_bounds;
        self.buffer = new_blank_grid(new_width, new_height);
        self.dirty = new_flag_grid(new_width, new_height, true);
        proof {
            self.layout.lemma_wf();
            assert(self@.cells =~= blank_grid(new_width as int, new_height as int));
            assert(self@.dirty =~= flag_grid(new_width as int, new_height as int, true));
        }
    }

    /// The rectangle of region `region_index`, or `None` if there is no such region.
    pub fn region(&self, region_index: usize) -> (r: Option<&Rect>)
        ensures
            r.is_some() == (region_index < self@.regions.len()),
            r matches Some(x) ==> *x == self@.regions[region_index as int],
    {
        self.layout.region(region_index)
    }

    /// The cells of the window, row by row.
    pub fn buffer(&self) -> (r: &Vec<Vec<Cell>>)
        ensures
            r@.map_values(|row: Vec<Cell>| row@.map_values(|c: Cell| c@)) == self@.cells,
    {
        &self.buffer
    }

    /// The dirty flags of the window, row by row.
    pub fn dirty(&self) -> (r: &Vec<Vec<bool>>)
        ensures
            r@.map_values(|row: Vec<bool>| row@) == self@.dirty,
    {
        &self.dirty
    }

    /// Cuts region `region_index` into a left and a right part; see
    /// `Layout::vertical_split`.
    pub fn vertical_split(&mut self, split: VerticalSplitKind, region_index: usize) -> (r: (
        usize,
        usize,
    ))
        requires
            old(self).wf(),
            region_index < old(self)@.regions.len(),
            old(self)@.regions.len() < usize::MAX,
            split.valid(),
        ensures
            final(self).wf(),
            r == (region_index, old(self)@.regions.len() as usize),
            final(self)@ == (WindowView {
                regions: old(self)@.regions.update(
                    region_index as int,
                    old(self)@.regions[region_index as int].vertical_parts(split).0,
                ).push(old(self)@.regions[region_index as int].vertical_parts(split).1),
                ..old(self)@
            }),
    {
        let r = self.layout.vertical_split(split, region_index);
        proof {
            self.layout.lemma_wf();
        }
        r
    }

    /// Cuts region `region_index` into a top and a bottom part; see
    /// `Layout::horizontal_split`.
    pub fn horizontal_split(&mut self, split: HorizontalSplitKind, region_index: usize) -> (r: (
        usize,
        usize,
    ))
        requires
            old(self).wf(),
            region_index < old(self)@.regions.len(),
            old(self)@.regions.len() < usize::MAX,
            split.valid(),
        ensures
            final(self).wf(),
            r == (region_index, old(self)@.regions.len() as usize),
            final(self)@ == (WindowView {
                regions: old(self)@.regions.update(
                    region_index as int,
                    old(self)@.regions[region_index as int].horizontal_parts(split).0,
                ).push(old(self)@.regions[region_index as int].horizontal_parts(split).1),
                ..old(self)@
            }),
    {
        let r = self.layout.horizontal_split(split, region_index);
        proof {
            self.layout.lemma_wf();
        }
        r
    }

    /// Places the cursor at `at`, relative to region `region_index`. The
    /// terminal's cursor moves there at the next flush.
    pub fn set_cursor(&mut self, at: Coord, region_index: usize)
        requires
            old(self).wf(),
            region_index < old(self)@.regions.len(),
            old(self)@.regions[region_index as int].coord.can_add(at),
        ensures
            final(self).wf(),
            final(self)@ == (WindowView {
                cursor: old(self)@.regions[region_index as int].coord.plus(at),
                ..old(self)@
            }),
    {
        let origin = self.layout.regions()[region_index].coord;
        self.cursor_pos = origin.add(at);
    }

    /// Draws `text` in a row starting at `at`, relative to region
    /// `region_index`, one grapheme per column. Graphemes outside the region
    /// or the window are dropped; a cell is overwritten and marked dirty only
    /// if it changes. A text with a grapheme that is not one column wide is
    /// refused and nothing is drawn.
    pub fn draw(&mut self, text: &str, fg: Color, bg: Color, at: Coord, region_index: usize) -> (r:
        Result<(), DrawError>)
        requires
            old(self).wf(),
            region_index < old(self)@.regions.len(),
        ensures
            final(self).wf(),
            r.is_ok() == all_single_column(graphemes_of(text@)),
            r.is_ok() ==> final(self)@ == old(self)@.draw(
                graphemes_of(text@),
                fg,
                bg,
                at,
                region_index as int,
            ),
            r.is_err() ==> final(self)@ == old(self)@ && r == Err::<(), _>(
                DrawError::NotSingleColumn,
            ),
    {
        let gs = graphemes(text);
        let mut k: usize = 0;
        while k < gs.len()
            invariant
                0 <= k <= gs@.len(),
                views(gs@) == graphemes_of(text@),
                *self == *old(self),
                self.wf(),
                forall|j: int| 0 <= j < k ==> display_width(#[trigger] views(gs@)[j]) == 1,
            decreases gs@.len() - k,
        {
            if width(gs[k].as_str()) != 1 {
                proof {
                    assert(views(gs@)[k as int] == gs@[k as int]@);
                }
                return Err(DrawError::NotSingleColumn);
            }
            k += 1;
        }
        self.draw_graphemes(&gs, fg, bg, at, region_index);
        Ok(())
    }

    /// Blanks every cell of region `region_index` that lies in the window.
    /// Blanking is drawing, so cells that were blank already stay clean.
    pub fn clear_region(&mut self, region_index: usize)
        requires
            old(self).wf(),
            region_index < old(self)@.regions.len(),
        ensures
            final(self).wf(),
            final(self)@ == old(self)@.clear_rects(seq![old(self)@.regions[region_index as int]]),
    {
        let ghost old_view = self@;
        let region = self.layout.regions()[region_index];
        let ghost rects = seq![region];
        let mut blank: Vec<String> = Vec::new();
        let mut j: u16 = 0;
        while j < region.width
            invariant
                j <= region.width,
                blank@.len() == j,
                forall|c: int| 0 <= c < j ==> (#[trigger] blank@[c])@ == seq![' '],
            decreases region.width - j,
        {
            let space = " ".to_owned();
            proof {
                reveal_strlit(" ");
                assert(space@ =~= seq![' ']);
            }
            blank.push(space);
            j += 1;
        }
        proof {
            self.layout.lemma_wf();
            assert(region == old_view.regions[region_index as int]);
        }
        let mut row: u16 = 0;
        while row < region.height
            invariant
                row <= region.height,
                region == old_view.regions[region_index as int],
                region_index < old_view.regions.len(),
                rects == seq![region],
                blank@.len() == region.width,
                forall|c: int| 0 <= c < region.width ==> (#[trigger] blank@[c])@ == seq![' '],
                self.wf(),
                self@.bounds == old_view.bounds,
                self@.regions == old_view.regions,
                self@.cursor == old_view.cursor,
                forall|r: int, c: int|
                    old_view.in_window(r, c) ==> #[trigger] self@.cells[r][c] == if old_view.covered(
                        rects,
                        r,
                        c,
                    ) && r < region.coord.row + row {
                        blank_cell()
                    } else {
                        old_view.cells[r][c]
                    },
                forall|r: int, c: int|
                    old_view.in_window(r, c) ==> #[trigger] self@.dirty[r][c] == (old_view.dirty[r][c]
                        || (old_view.covered(rects, r, c) && r < region.coord.row + row
                        && old_view.cells[r][c] != blank_cell())),
            decreases region.height - row,
        {
            let ghost before = self@;
            self.draw_graphemes(&blank, Color::Reset, Color::Reset, Coord { row, col: 0 }, region_index);
            proof {
                assert forall|r: int, c: int|
                    #![trigger self@.cells[r][c]]
                    #![trigger self@.dirty[r][c]]
                    old_view.in_window(r, c) implies {
                    &&& self@.cells[r][c] == if old_view.covered(rects, r, c) && r < region.coord.row + row + 1 {
                        blank_cell()
                    } else {
                        old_view.cells[r][c]
                    }
                    &&& self@.dirty[r][c] == (old_view.dirty[r][c] || (old_view.covered(rects, r, c)
                        && r < region.coord.row + row + 1 && old_view.cells[r][c] != blank_cell()))
                } by {
                    let at = Coord { row, col: 0 };
                    let h = before.hit(region, at, region.width as int, r, c);
                    if old_view.covered(rects, r, c) {
                        assert(rects[0].contains(r, c));
                    }
                    if region.contains(r, c) {
                        assert(rects[0].contains(r, c));
                    }
                    if h {
                        assert(views(blank@)[c - region.coord.col] == seq![' ']);
                        assert(WindowView::new_cell(views(blank@), Color::Reset, Color::Reset, at, region, c) == blank_cell());
                        assert(before.cells[r][c] == old_view.cells[r][c]);
                        assert(before.dirty[r][c] == old_view.dirty[r][c]);
                    }
                }
            }
            row += 1;
        }
        proof {
            let target = old_view.clear_rects(rects);
            assert forall|r: int, c: int|
                0 <= r < old_view.height() && 0 <= c < old_view.width() implies #[trigger] self@.cells[r][c]
                == target.cells[r][c] && #[trigger] self@.dirty[r][c] == target.dirty[r][c] by {
                assert(old_view.in_window(r, c));
                if old_view.covered(rects, r, c) {
                    assert(rects[0].contains(r, c));
                }
            }
            assert forall|r: int| 0 <= r < old_view.height() implies #[trigger] self@.cells[r]
                =~= target.cells[r] by {}
            assert forall|r: int| 0 <= r < old_view.height() implies #[trigger] self@.dirty[r]
                =~= target.dirty[r] by {}
            assert(self@.cells =~= target.cells);
            assert(self@.dirty =~= target.dirty);
        }
    }

    /// Blanks every region of the window.
    pub fn clear(&mut self)
        requires
            old(self).wf(),
        ensures
            final(self).wf(),
            final(self)@ == old(self)@.clear_rects(old(self)@.regions),
    {
        let ghost old_view = self@;
        let n = self.layout.regions().len();
        proof {
            lemma_clear_no_rects(old_view);
            assert(old_view.regions.take(0) =~= Seq::<Rect>::empty());
        }
        let mut i: usize = 0;
        while i < n
            invariant
                i <= n,
                n == old_view.regions.len(),
                old_view.wf(),
                self.wf(),
                self@ == old_view.clear_rects(old_view.regions.take(i as int)),
            decreases n - i,
        {
            self.clear_region(i);
            proof {
                lemma_clear_rects_push(old_view, old_view.regions.take(i as int), old_view.regions[i as int]);
                assert(old_view.regions.take(i as int).push(old_view.regions[i as int])
                    =~= old_view.regions.take(i + 1));
            }
            i += 1;
        }
        proof {
            assert(old_view.regions.take(n as int) =~= old_view.regions);
        }
    }

    /// Flushes the changes: returns the instructions that bring the terminal
    /// up to date with the window, and marks every cell clean. Only dirty
    /// cells are emitted, in row-major order; a cursor move is emitted only
    /// where the cell does not follow the previous one on its row, and a color
    /// only where it differs from the previous cell's. The last instruction
    /// moves the cursor to its place.
    pub fn display(&mut self) -> (ops: Vec<DisplayOp>)
        requires
            old(self).wf(),
        ensures
            final(self).wf(),
            final(self)@ == old(self)@.flushed(),
            ops_view(ops@) == old(self)@.display_ops(),
    {
        let ghost old_view = self@;
        let mut ops: Vec<DisplayOp> = Vec::new();
        let mut prev: Option<(u16, u16, Color, Color)> = None;
        let height = self.bounds.height;
        let width = self.bounds.width;
        let mut row: u16 = 0;
        while row < height
            invariant
                row <= height,
                height == old_view.height(),
                width == old_view.width(),
                old_view.wf(),
                self.wf(),
                self@.bounds == old_view.bounds,
                self@.regions == old_view.regions,
                self@.cells == old_view.cells,
                self@.cursor == old_view.cursor,
                self.layout == old(self).layout,
                ops_view(ops@) == old_view.flush_upto(row as nat, 0).0,
                pen_of(prev) == old_view.flush_upto(row as nat, 0).1,
                forall|r: int, c: int|
                    old_view.in_window(r, c) ==> #[trigger] self@.dirty[r][c] == (r >= row
                        && old_view.dirty[r][c]),
            decreases height - row,
        {
            let mut col: u16 = 0;
            while col < width
                invariant
                    row < height,
                    col <= width,
                    height == old_view.height(),
                    width == old_view.width(),
                    old_view.wf(),
                    self.wf(),
                    self@.bounds == old_view.bounds,
                    self@.regions == old_view.regions,
                    self@.cells == old_view.cells,
                    self@.cursor == old_view.cursor,
                    self.layout == old(self).layout,
                    ops_view(ops@) == old_view.flush_upto(row as nat, col as nat).0,
                    pen_of(prev) == old_view.flush_upto(row as nat, col as nat).1,
                    forall|r: int, c: int|
                        old_view.in_window(r, c) ==> #[trigger] self@.dirty[r][c] == (old_view.dirty[r][c]
                            && (r > row || (r == row && c >= col))),
                decreases width - col,
            {
                proof {
                    self.lemma_shape();
                    assert(old_view.in_window(row as int, col as int));
                }
                if self.dirty[row as usize][col as usize] {
                    let ghost ops_before = ops@;
                    let cell = &self.buffer[row as usize][col as usize];
                    let moves = match prev {
                        Some((pr, pc, _, _)) => !(pr == row && (pc as u32) + 1 == col as u32),
                        None => true,
                    };
                    let sets_fg = match prev {
                        Some((_, _, pf, _)) => pf != cell.fg,
                        None => true,
                    };
                    let sets_bg = match prev {
                        Some((_, _, _, pb)) => pb != cell.bg,
                        None => true,
                    };
                    if moves {
                        ops.push(DisplayOp::MoveTo { row, col });
                    }
                    if sets_fg {
                        ops.push(DisplayOp::SetForeground(cell.fg));
                    }
                    if sets_bg {
                        ops.push(DisplayOp::SetBackground(cell.bg));
                    }
                    ops.push(DisplayOp::Print(cell.c.clone()));
                    prev = Some((row, col, cell.fg, cell.bg));
                    proof {
                        let cv = old_view.cells[row as int][col as int];
                        assert(cell@ == cv);
                        assert(ops_view(ops@) =~= ops_view(ops_before) + emit(
                            cv,
                            row as int,
                            col as int,
                            old_view.flush_upto(row as nat, col as nat).1,
                        ));
                    }
                    self.dirty[row as usize][col as usize] = false;
                }
                col += 1;
            }
            row += 1;
        }
        ops.push(DisplayOp::MoveTo { row: self.cursor_pos.row, col: self.cursor_pos.col });
        proof {
            assert(ops_view(ops@) =~= old_view.display_ops());
            let target = old_view.flushed();
            assert forall|r: int| 0 <= r < old_view.height() implies #[trigger] self@.dirty[r]
                =~= target.dirty[r] by {
                assert forall|c: int| 0 <= c < old_view.width() implies #[trigger] self@.dirty[r][c]
                    == target.dirty[r][c] by {
                    assert(old_view.in_window(r, c));
                }
            }
            assert(self@.dirty =~= target.dirty);
        }
        ops
    }

    /// How the buffers' shape and contents show in the view.
    proof fn lemma_shape(&self)
        requires
            self@.wf(),
        ensures
            self.buffer@.len() == self.bounds.height,
            self.dirty@.len() == self.bounds.height,
            forall|r: int| 0 <= r < self.bounds.height ==> #[trigger] self.buffer@[r]@.len() == self.bounds.width,
            forall|r: int| 0 <= r < self.bounds.height ==> #[trigger] self.dirty@[r]@.len() == self.bounds.width,
            forall|r: int, c: int|
                0 <= r < self.bounds.height && 0 <= c < self.bounds.width ==> #[trigger] self.buffer@[r]@[c]@
                    == self@.cells[r][c],
            forall|r: int, c: int|
                0 <= r < self.bounds.height && 0 <= c < self.bounds.width ==> #[trigger] self.dirty@[r]@[c]
                    == self@.dirty[r][c],
    {
        assert forall|r: int| 0 <= r < self.bounds.height implies #[trigger] self.buffer@[r]@.len() == self.bounds.width by {
            assert(self@.cells[r].len() == self.bounds.width);
        }
        assert forall|r: int| 0 <= r < self.bounds.height implies #[trigger] self.dirty@[r]@.len() == self.bounds.width by {
            assert(self@.dirty[r].len() == self.bounds.width);
        }
    }

    /// Draws the graphemes `gs` in a row starting at `at`, relative to region
    /// `region_index`. Graphemes outside the region or the window are dropped;
    /// a cell is overwritten and marked dirty only if it changes.
    pub fn draw_graphemes(
        &mut self,
        gs: &Vec<String>,
        fg: Color,
        bg: Color,
        at: Coord,
        region_index: usize,
    )
        requires
            old(self).wf(),
            region_index < old(self)@.regions.len(),
        ensures
            final(self).wf(),
            final(self)@ == old(self)@.draw(views(gs@), fg, bg, at, region_index as int),
    {
        let ghost old_view = self@;
        let ghost text = views(gs@);
        let region = self.layout.regions()[region_index];
        proof {
            self.layout.lemma_wf();
            assert(region == old_view.regions[region_index as int]);
        }
        let n = gs.len();
        let mut k: usize = 0;
        while k < n
            invariant
                0 <= k <= n,
                n == gs@.len(),
                text == views(gs@),
                self.wf(),
                self.bounds == old_view.bounds,
                self.layout == old(self).layout,
                self.cursor_pos == old_view.cursor,
                region.fits(),
                forall|r: int, c: int|
                    old_view.in_window(r, c) ==> #[trigger] self@.cells[r][c]
                        == old_view.drawn_cell(text, fg, bg, at, region, k as int, r, c),
                forall|r: int, c: int|
                    old_view.in_window(r, c) ==> #[trigger] self@.dirty[r][c]
                        == old_view.drawn_dirty(text, fg, bg, at, region, k as int, r, c),
            decreases n - k,
        {
            proof {
                self.lemma_shape();
            }
            if at.row < region.height && k < region.width as usize && (at.col as usize) + k
                < region.width as usize {
                let row: u16 = region.coord.row + at.row;
                let col: usize = region.coord.col as usize + at.col as usize + k;
                if row < self.bounds.height && col < self.bounds.width as usize {
                    let same = self.buffer[row as usize][col].c == gs[k]
                        && self.buffer[row as usize][col].fg == fg
                        && self.buffer[row as usize][col].bg == bg;
                    proof {
                        let p_r = row as int;
                        let p_c = col as int;
                        assert(old_view.in_window(p_r, p_c));
                        assert(!old_view.hit(region, at, k as int, p_r, p_c));
                        assert(self@.cells[p_r][p_c] == old_view.cells[p_r][p_c]);
                        assert(text[k as int] == gs@[k as int]@);
                        assert(same == (old_view.cells[p_r][p_c] == WindowView::new_cell(
                            text,
                            fg,
                            bg,
                            at,
                            region,
                            p_c,
                        )));
                    }
                    if !same {
                        self.buffer[row as usize][col] = Cell { c: gs[k].clone(), fg, bg };
                        self.dirty[row as usize][col] = true;
                    }
                }
            }
            k += 1;
        }
        proof {
            let target = old_view.draw(text, fg, bg, at, region_index as int);
            assert forall|r: int, c: int|
                0 <= r < old_view.height() && 0 <= c < old_view.width() implies #[trigger] self@.cells[r][c]
                == target.cells[r][c] && #[trigger] self@.dirty[r][c] == target.dirty[r][c] by {
                assert(old_view.in_window(r, c));
            }
            assert forall|r: int| 0 <= r < old_view.height() implies #[trigger] self@.cells[r]
                =~= target.cells[r] by {}
            assert forall|r: int| 0 <= r < old_view.height() implies #[trigger] self@.dirty[r]
                =~= target.dirty[r] by {}
            assert(self@.cells =~= target.cells);
            assert(self@.dirty =~= target.dirty);
        }
    }
}

/// A grid of `height` rows of `width` blank cells.
fn new_blank_grid(width: u16, height: u16) -> (r: Vec<Vec<Cell>>)
    ensures
        r@.map_values(|row: Vec<Cell>| row@.map_values(|c: Cell| c@)) =~= blank_grid(
            width as int,
            height as int,
        ),
{
    let mut grid: Vec<Vec<Cell>> = Vec::new();
    let mut i: u16 = 0;
    while i < height
        invariant
            i <= height,
            grid@.len() == i,
            forall|r: int| 0 <= r < i ==> (#[trigger] grid@[r])@.map_values(|c: Cell| c@) =~= Seq::new(width as nat, |c: int| blank_cell()),
        decreases height - i,
    {
        let mut row: Vec<Cell> = Vec::new();
        let mut j: u16 = 0;
        while j < width
            invariant
                j <= width,
                row@.len() == j,
                forall|c: int| 0 <= c < j ==> (#[trigger] row@[c])@ == blank_cell(),
            decreases width - j,
        {
            row.push(Cell::new());
            j += 1;
        }
        grid.push(row);
        i += 1;
    }
    grid
}

/// A grid of `height` rows of `width` flags, all equal to `b`.
fn new_flag_grid(width: u16, height: u16, b: bool) -> (r: Vec<Vec<bool>>)
    ensures
        r@.map_values(|row: Vec<bool>| row@) =~= flag_grid(width as int, height as int, b),
{
    let mut grid: Vec<Vec<bool>> = Vec::new();
    let mut i: u16 = 0;
    while i < height
        invariant
            i <= height,
            grid@.len() == i,
            forall|r: int| 0 <= r < i ==> (#[trigger] grid@[r])@ =~= Seq::new(width as nat, |c: int| b),
        decreases height - i,
    {
        let row: Vec<bool> = vec![b; width as usize];
        grid.push(row);
        i += 1;
    }
    grid
}

} // verus!

verus! {

/// Drawing the same graphemes in the same colors at the same place twice
/// leaves the window as the first drawing left it: the second drawing
/// changes no cell and marks no cell dirty.
pub proof fn redraw_marks_nothing(
    v: WindowView,
    gs: Seq<Seq<char>>,
    fg: Color,
    bg: Color,
    at: Coord,
    region_index: int,
)
    requires
        v.wf(),
        0 <= region_index < v.regions.len(),
    ensures
        v.draw(gs, fg, bg, at, region_index).draw(gs, fg, bg, at, region_index) == v.draw(
            gs,
            fg,
            bg,
            at,
            region_index,
        ),
{
    let once = v.draw(gs, fg, bg, at, region_index);
    let twice = once.draw(gs, fg, bg, at, region_index);
    assert forall|r: int| 0 <= r < v.height() implies #[trigger] twice.cells[r] =~= once.cells[r] by {}
    assert forall|r: int| 0 <= r < v.height() implies #[trigger] twice.dirty[r] =~= once.dirty[r] by {}
    assert(twice.cells =~= once.cells);
    assert(twice.dirty =~= once.dirty);
}

/// After a flush, drawing a text that differs from the one on screen in a
/// single grapheme marks dirty at most the cell of that grapheme.
pub proof fn one_changed_grapheme_marks_one_cell(
    v: WindowView,
    gs: Seq<Seq<char>>,
    j: int,
    g: Seq<char>,
    fg: Color,
    bg: Color,
    at: Coord,
    region_index: int,
)
    requires
        v.wf(),
        0 <= region_index < v.regions.len(),
        0 <= j < gs.len(),
    ensures
        ({
            let shown = v.draw(gs, fg, bg, at, region_index).flushed();
            let region = v.regions[region_index];
            forall|r: int, c: int|
                v.in_window(r, c) && #[trigger] shown.draw(
                    gs.update(j, g),
                    fg,
                    bg,
                    at,
                    region_index,
                ).dirty[r][c] ==> r == region.coord.row + at.row && c == region.coord.col + at.col + j
        }),
{
}

/// Drawing never touches a cell outside the region drawn in: such a cell
/// keeps what it showed and its dirty bit. Cells outside the window are not
/// held at all.
pub proof fn draw_clips_to_region(
    v: WindowView,
    gs: Seq<Seq<char>>,
    fg: Color,
    bg: Color,
    at: Coord,
    region_index: int,
)
    requires
        v.wf(),
        0 <= region_index < v.regions.len(),
    ensures
        forall|r: int, c: int|
            v.in_window(r, c) && !v.regions[region_index].contains(r, c) ==> {
                &&& #[trigger] v.draw(gs, fg, bg, at, region_index).cells[r][c] == v.cells[r][c]
                &&& v.draw(gs, fg, bg, at, region_index).dirty[r][c] == v.dirty[r][c]
            },
{
}

/// A flush leaves every cell clean, and a drawing after it marks dirty
/// exactly the cells whose contents it changed.
pub proof fn flush_then_draw_marks_changes(
    v: WindowView,
    gs: Seq<Seq<char>>,
    fg: Color,
    bg: Color,
    at: Coord,
    region_index: int,
)
    requires
        v.wf(),
        0 <= region_index < v.regions.len(),
    ensures
        forall|r: int, c: int| v.in_window(r, c) ==> !#[trigger] v.flushed().dirty[r][c],
        forall|r: int, c: int|
            v.in_window(r, c) ==> (#[trigger] v.flushed().draw(gs, fg, bg, at, region_index).dirty[r][c]
                <==> v.flushed().draw(gs, fg, bg, at, region_index).cells[r][c] != v.cells[r][c]),
{
}

} // verus!
