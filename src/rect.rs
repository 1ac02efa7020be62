use vstd::prelude::*;

use vstd::math::min;

use crate::coord::Coord;

verus! {

/// How a rectangle is cut into a left and a right part.
#[derive(Clone, Copy, PartialEq, Eq, Debug, Structural)]
pub enum VerticalSplitKind {
    CellsInLeft(u16),
    CellsInRight(u16),
    PercentInLeft(u8),
    PercentInRight(u8),
}

/// How a rectangle is cut into a top and a bottom part.
#[derive(Clone, Copy, PartialEq, Eq, Debug, Structural)]
pub enum HorizontalSplitKind {
    CellsInTop(u16),
    CellsInBottom(u16),
    PercentInTop(u8),
    PercentInBottom(u8),
}

impl VerticalSplitKind {
    /// A percentage never exceeds one hundred.
    pub open spec fn valid(self) -> bool {
        match self {
            VerticalSplitKind::PercentInLeft(p) => p <= 100,
            VerticalSplitKind::PercentInRight(p) => p <= 100,
            _ => true,
        }
    }

    /// The number of columns that go to the left part of an extent `w`.
    pub open spec fn first_part(self, w: int) -> int {
        match self {
            VerticalSplitKind::CellsInLeft(n) => min(n as int, w),
            VerticalSplitKind::CellsInRight(n) => w - min(n as int, w),
            VerticalSplitKind::PercentInLeft(p) => p * w / 100,
            VerticalSplitKind::PercentInRight(p) => (100 - p) * w / 100,
        }
    }
}

impl HorizontalSplitKind {
    /// A percentage never exceeds one hundred.
    pub open spec fn valid(self) -> bool {
        match self {
            HorizontalSplitKind::PercentInTop(p) => p <= 100,
            HorizontalSplitKind::PercentInBottom(p) => p <= 100,
            _ => true,
        }
    }

    /// The number of rows that go to the top part of an extent `h`.
    pub open spec fn first_part(self, h: int) -> int {
        match self {
            HorizontalSplitKind::CellsInTop(n) => min(n as int, h),
            HorizontalSplitKind::CellsInBottom(n) => h - min(n as int, h),
            HorizontalSplitKind::PercentInTop(p) => p * h / 100,
            HorizontalSplitKind::PercentInBottom(p) => (100 - p) * h / 100,
        }
    }
}

/// An axis-aligned rectangle: its top-left corner and its extent.
#[derive(Clone, Copy, PartialEq, Eq, Debug, Structural)]
pub struct Rect {
    pub coord: Coord,
    pub width: u16,
    pub height: u16,
}

impl Rect {
    /// The rectangle lies inside the 16-bit coordinate space, so that its far
    /// edges can be named.
    pub open spec fn fits(self) -> bool {
        self.coord.row + self.height <= u16::MAX && self.coord.col + self.width <= u16::MAX
    }

    /// Whether the absolute position (`row`, `col`) lies inside the rectangle.
    pub open spec fn contains(self, row: int, col: int) -> bool {
        self.coord.row <= row < self.coord.row + self.height && self.coord.col <= col
            < self.coord.col + self.width
    }

    /// The left part keeps `cells` columns of the rectangle, the right part the rest.
    pub open spec fn cut_columns(self, cells: int) -> (Rect, Rect) {
        (
            Rect { coord: self.coord, width: cells as u16, height: self.height },
            Rect {
                coord: Coord { row: self.coord.row, col: (self.coord.col + cells) as u16 },
                width: (self.width - cells) as u16,
                height: self.height,
            },
        )
    }

    /// The top part keeps `cells` rows of the rectangle, the bottom part the rest.
    pub open spec fn cut_rows(self, cells: int) -> (Rect, Rect) {
        (
            Rect { coord: self.coord, width: self.width, height: cells as u16 },
            Rect {
                coord: Coord { row: (self.coord.row + cells) as u16, col: self.coord.col },
                width: self.width,
                height: (self.height - cells) as u16,
            },
        )
    }

    pub open spec fn vertical_parts(self, kind: VerticalSplitKind) -> (Rect, Rect) {
        self.cut_columns(kind.first_part(self.width as int))
    }

    pub open spec fn horizontal_parts(self, kind: HorizontalSplitKind) -> (Rect, Rect) {
        self.cut_rows(kind.first_part(self.height as int))
    }

    /// Cuts the rectangle into a left and a right part side by side. A cell
    /// count larger than the width is clamped to it.
    pub fn vertical_split(&self, split: VerticalSplitKind) -> (r: (Rect, Rect))
        requires
            self.fits(),
            split.valid(),
        ensures
            r == self.vertical_parts(split),
            0 <= split.first_part(self.width as int) <= self.width,
            r.0.width + r.1.width == self.width,
            r.0.fits(),
            r.1.fits(),
    {
        let cells_in_left: u16 = match split {
            VerticalSplitKind::CellsInLeft(n) => {
                if n < self.width {
                    n
                } else {
                    self.width
                }
            },
            VerticalSplitKind::CellsInRight(n) => {
                if n < self.width {
                    self.width - n
                } else {
                    0
                }
            },
            VerticalSplitKind::PercentInLeft(p) => percent_of(p, self.width),
            VerticalSplitKind::PercentInRight(p) => percent_of(100 - p, self.width),
        };
        let left = Rect { coord: self.coord, width: cells_in_left, height: self.height };
        let right = Rect {
            coord: Coord { row: self.coord.row, col: self.coord.col + cells_in_left },
            width: self.width - cells_in_left,
            height: self.height,
        };
        (left, right)
    }

    /// Cuts the rectangle into a top and a bottom part, one above the other. A
    /// cell count larger than the height is clamped to it.
    pub fn horizontal_split(&self, split: HorizontalSplitKind) -> (r: (Rect, Rect))
        requires
            self.fits(),
            split.valid(),
        ensures
            r == self.horizontal_parts(split),
            0 <= split.first_part(self.height as int) <= self.height,
            r.0.height + r.1.height == self.height,
            r.0.fits(),
            r.1.fits(),
    {
        let cells_in_top: u16 = match split {
            HorizontalSplitKind::CellsInTop(n) => {
                if n < self.height {
                    n
                } else {
                    self.height
                }
            },
            HorizontalSplitKind::CellsInBottom(n) => {
                if n < self.height {
                    self.height - n
                } else {
                    0
                }
            },
            HorizontalSplitKind::PercentInTop(p) => percent_of(p, self.height),
            HorizontalSplitKind::PercentInBottom(p) => percent_of(100 - p, self.height),
        };
        let top = Rect { coord: self.coord, width: self.width, height: cells_in_top };
        let bottom = Rect {
            coord: Coord { row: self.coord.row + cells_in_top, col: self.coord.col },
            width: self.width,
            height: self.height - cells_in_top,
        };
        (top, bottom)
    }
}

/// Splitting conserves the extent: the two parts of a vertical split are as
/// wide together as the rectangle, and the two parts of a horizontal split as
/// high, whatever the kind of split.
pub proof fn split_conserves_extent(r: Rect, v: VerticalSplitKind, h: HorizontalSplitKind)
    requires
        r.fits(),
        v.valid(),
        h.valid(),
    ensures
        r.vertical_parts(v).0.width + r.vertical_parts(v).1.width == r.width,
        r.horizontal_parts(h).0.height + r.horizontal_parts(h).1.height == r.height,
{
    first_part_in_range(r, v, h);
}

/// A cell count at least as large as the extent clamps: one part takes the
/// whole extent and the other is empty.
pub proof fn split_overflow_clamps(r: Rect, n: u16)
    requires
        r.fits(),
    ensures
        n >= r.width ==> r.vertical_parts(VerticalSplitKind::CellsInLeft(n)).0.width == r.width
            && r.vertical_parts(VerticalSplitKind::CellsInLeft(n)).1.width == 0,
        n >= r.width ==> r.vertical_parts(VerticalSplitKind::CellsInRight(n)).0.width == 0
            && r.vertical_parts(VerticalSplitKind::CellsInRight(n)).1.width == r.width,
        n >= r.height ==> r.horizontal_parts(HorizontalSplitKind::CellsInTop(n)).0.height
            == r.height && r.horizontal_parts(HorizontalSplitKind::CellsInTop(n)).1.height == 0,
        n >= r.height ==> r.horizontal_parts(HorizontalSplitKind::CellsInBottom(n)).0.height == 0
            && r.horizontal_parts(HorizontalSplitKind::CellsInBottom(n)).1.height == r.height,
{
}

/// The parts of a rectangle that fits the coordinate space fit it too.
pub proof fn lemma_parts_fit(r: Rect, v: VerticalSplitKind, h: HorizontalSplitKind)
    requires
        r.fits(),
        v.valid(),
        h.valid(),
    ensures
        r.vertical_parts(v).0.fits(),
        r.vertical_parts(v).1.fits(),
        r.horizontal_parts(h).0.fits(),
        r.horizontal_parts(h).1.fits(),
{
    first_part_in_range(r, v, h);
}

/// The resolved size of the first part never exceeds the extent.
pub proof fn first_part_in_range(r: Rect, v: VerticalSplitKind, h: HorizontalSplitKind)
    requires
        v.valid(),
        h.valid(),
    ensures
        0 <= v.first_part(r.width as int) <= r.width,
        0 <= h.first_part(r.height as int) <= r.height,
{
    let w = r.width as int;
    let ht = r.height as int;
    match v {
        VerticalSplitKind::PercentInLeft(p) => {
            assert(0 <= p * w / 100 <= w) by (nonlinear_arith)
                requires
                    0 <= p <= 100,
                    0 <= w,
            ;
        },
        VerticalSplitKind::PercentInRight(p) => {
            assert(0 <= (100 - p) * w / 100 <= w) by (nonlinear_arith)
                requires
                    0 <= p <= 100,
                    0 <= w,
            ;
        },
        _ => {},
    }
    match h {
        HorizontalSplitKind::PercentInTop(p) => {
            assert(0 <= p * ht / 100 <= ht) by (nonlinear_arith)
                requires
                    0 <= p <= 100,
                    0 <= ht,
            ;
        },
        HorizontalSplitKind::PercentInBottom(p) => {
            assert(0 <= (100 - p) * ht / 100 <= ht) by (nonlinear_arith)
                requires
                    0 <= p <= 100,
                    0 <= ht,
            ;
        },
        _ => {},
    }
}

/// `p` percent of `extent`, rounded down.
fn percent_of(p: u8, extent: u16) -> (r: u16)
    requires
        p <= 100,
    ensures
        r == p * extent / 100,
        r <= extent,
{
    proof {
        assert((p as u32) * (extent as u32) <= 100 * 65535) by (nonlinear_arith)
            requires
                p <= 100,
                extent <= 65535,
        ;
    }
    let product: u32 = (p as u32) * (extent as u32);
    proof {
        assert(product <= 100 * extent) by (nonlinear_arith)
            requires
                product == p * extent,
                p <= 100,
        ;
    }
    (product / 100) as u16
}

} // verus!
