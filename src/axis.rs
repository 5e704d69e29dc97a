//! An axis: its configuration, its ticks, and where they go on screen.

use vstd::prelude::*;
use crate::mapping::{to_screen, screen_of, MAP_LIMIT};
use crate::ticks::{fine, plan, is_plan_result, PlanError, TickSet, TICK_SCALE};

verus! {

/// Which screen axis carries the data values.
#[derive(Debug, Clone, Copy, PartialEq, Eq, Structural)]
pub enum Orientation {
    Horizontal,
    Vertical,
}

/// The tick count an axis asks for unless told otherwise.
pub const DEFAULT_TICK_COUNT: usize = 8;

/// A point on screen.
#[derive(Debug, Clone, Copy, PartialEq, Eq, Structural)]
pub struct Point {
    pub x: i128,
    pub y: i128,
}

/// A straight line between two screen points.
#[derive(Debug, Clone, Copy, PartialEq, Eq, Structural)]
pub struct Segment {
    pub start: Point,
    pub end: Point,
}

/// A screen rectangle: x runs from `left` to `right`, y from `bottom` to
/// `top`.
#[derive(Debug, Clone, Copy, PartialEq, Eq, Structural)]
pub struct Rect {
    pub left: i32,
    pub bottom: i32,
    pub right: i32,
    pub top: i32,
}

/// Index of the screen axis (0 for x, 1 for y) that carries the data.
pub open spec fn primary_index(o: Orientation) -> int {
    match o {
        Orientation::Horizontal => 0,
        Orientation::Vertical => 1,
    }
}

/// Coordinate `axis` (0 for x, 1 for y) of `p`.
pub open spec fn coord(p: Point, axis: int) -> int {
    if axis == 0 {
        p.x as int
    } else {
        p.y as int
    }
}

/// Lower end of `r` along `axis`.
pub open spec fn span_lo(r: Rect, axis: int) -> int {
    if axis == 0 {
        r.left as int
    } else {
        r.bottom as int
    }
}

/// Upper end of `r` along `axis`.
pub open spec fn span_hi(r: Rect, axis: int) -> int {
    if axis == 0 {
        r.right as int
    } else {
        r.top as int
    }
}

/// The screen axis that carries the data.
pub fn primary_axis(o: Orientation) -> (r: usize)
    ensures
        r == primary_index(o),
{
    match o {
        Orientation::Horizontal => 0,
        Orientation::Vertical => 1,
    }
}

/// The cross axis, along which tick marks extend.
pub fn secondary_axis(o: Orientation) -> (r: usize)
    ensures
        r == 1 - primary_index(o),
{
    match o {
        Orientation::Horizontal => 1,
        Orientation::Vertical => 0,
    }
}

/// The point with `primary` on the data axis and `secondary` on the cross
/// axis.
pub fn compose(o: Orientation, primary: i128, secondary: i128) -> (p: Point)
    ensures
        coord(p, primary_index(o)) == primary,
        coord(p, 1 - primary_index(o)) == secondary,
{
    match o {
        Orientation::Horizontal => Point { x: primary, y: secondary },
        Orientation::Vertical => Point { x: secondary, y: primary },
    }
}

/// The lower and upper ends of `r` along `axis`.
pub fn span(r: &Rect, axis: usize) -> (e: (i32, i32))
    requires
        axis < 2,
    ensures
        e.0 == span_lo(*r, axis as int),
        e.1 == span_hi(*r, axis as int),
{
    if axis == 0 {
        (r.left, r.right)
    } else {
        (r.bottom, r.top)
    }
}


/// Of a label's width and height, the one along `axis`.
pub open spec fn size_along(axis: int, width: u32, height: u32) -> int {
    if axis == 0 {
        width as int
    } else {
        height as int
    }
}

/// The largest of `s`, or 0 if all are below 0 or `s` is empty.
pub open spec fn max_or_zero(s: Seq<int>) -> int
    decreases s.len(),
{
    if s.len() == 0 {
        0
    } else {
        let m = max_or_zero(s.drop_last());
        if s.last() > m {
            s.last()
        } else {
            m
        }
    }
}

/// The members of a slice of `u32`, as integers.
pub open spec fn ints_u32(s: Seq<u32>) -> Seq<int> {
    s.map_values(|e: u32| e as int)
}

/// An axis over the data range `[min, max]`, asking for about `tick_count`
/// ticks on the grid through `origin`.
#[derive(Debug, Clone, Copy, PartialEq, Eq, Structural)]
pub struct Axis {
    pub orientation: Orientation,
    pub tick_count: usize,
    pub min: i64,
    pub max: i64,
    pub origin: i64,
}

impl Axis {
    /// A horizontal axis over `[min, max]` with the default tick count and the
    /// grid through 0.
    pub fn new(min: i64, max: i64) -> (a: Axis)
        ensures
            a == (Axis { orientation: Orientation::Horizontal, tick_count: DEFAULT_TICK_COUNT, min, max, origin: 0 }),
    {
        Axis { orientation: Orientation::Horizontal, tick_count: DEFAULT_TICK_COUNT, min, max, origin: 0 }
    }

    /// The same axis with another orientation.
    pub fn orientation(self, orientation: Orientation) -> (a: Axis)
        ensures
            a == (Axis { orientation, ..self }),
    {
        Axis { orientation, ..self }
    }

    /// The same axis with its tick grid through `origin`.
    pub fn origin(self, origin: i64) -> (a: Axis)
        ensures
            a == (Axis { origin, ..self }),
    {
        Axis { origin, ..self }
    }

    /// The same axis asking for about `tick_count` ticks.
    pub fn tick_count(self, tick_count: usize) -> (a: Axis)
        ensures
            a == (Axis { tick_count, ..self }),
    {
        Axis { tick_count, ..self }
    }

    /// The axis's ticks, in fine units.
    pub fn generate_ticks(&self) -> (r: Result<TickSet, PlanError>)
        ensures
            is_plan_result(self.min, self.max, self.tick_count, self.origin, r),
    {
        plan(self.min, self.max, self.tick_count, self.origin)
    }

    /// Where a tick value (in fine units) lands along the data axis of
    /// `draw`; `None` if the axis's range is empty.
    pub fn tick_coordinate(&self, value: i128, draw: &Rect) -> (r: Option<i128>)
        requires
            -MAP_LIMIT <= value <= MAP_LIMIT,
        ensures
            r is None <==> self.min == self.max,
            r is Some ==> r->Some_0 == screen_of(
                value as int,
                fine(self.min),
                fine(self.max),
                span_lo(*draw, primary_index(self.orientation)),
                span_hi(*draw, primary_index(self.orientation)),
            ),
    {
        let (start, end) = span(draw, primary_axis(self.orientation));
        to_screen(value, self.min as i128 * TICK_SCALE, self.max as i128 * TICK_SCALE, start, end)
    }

    /// The tick mark at data-axis coordinate `c`: it rises from the far edge of
    /// `draw` by `tick_mark_size` along the cross axis.
    pub fn tick_mark(&self, c: i128, draw: &Rect, tick_mark_size: i32) -> (m: Segment)
        ensures
            coord(m.start, primary_index(self.orientation)) == c,
            coord(m.end, primary_index(self.orientation)) == c,
            coord(m.start, 1 - primary_index(self.orientation)) == span_hi(*draw, 1 - primary_index(self.orientation)),
            coord(m.end, 1 - primary_index(self.orientation)) == span_hi(*draw, 1 - primary_index(self.orientation))
                + tick_mark_size,
    {
        let (_, base) = span(draw, secondary_axis(self.orientation));
        let start = compose(self.orientation, c, base as i128);
        let end = compose(self.orientation, c, base as i128 + tick_mark_size as i128);
        Segment { start, end }
    }

    /// The box of a `width` by `height` label for the tick at data-axis
    /// coordinate `c`: centred on `c` along the data axis and on the near edge
    /// of `draw` across it. Returns the lower and upper corners.
    pub fn label_box(&self, c: i128, draw: &Rect, width: u32, height: u32) -> (b: (Point, Point))
        requires
            -MAP_LIMIT <= c <= MAP_LIMIT,
        ensures
            ({
                let p = primary_index(self.orientation);
                let sp = size_along(p, width, height);
                let ss = size_along(1 - p, width, height);
                &&& coord(b.0, p) == c - sp / 2
                &&& coord(b.0, 1 - p) == span_lo(*draw, 1 - p) - ss / 2
                &&& coord(b.1, p) == coord(b.0, p) + sp
                &&& coord(b.1, 1 - p) == coord(b.0, 1 - p) + ss
            }),
    {
        let (sp, ss) = match self.orientation {
            Orientation::Horizontal => (width, height),
            Orientation::Vertical => (height, width),
        };
        let (near, _) = span(draw, secondary_axis(self.orientation));
        let p0 = c - (sp / 2) as i128;
        let s0 = near as i128 - (ss / 2) as i128;
        let lower = compose(self.orientation, p0, s0);
        let upper = compose(self.orientation, p0 + sp as i128, s0 + ss as i128);
        (lower, upper)
    }

    /// The line along the far edge of `draw` that the tick marks rise from.
    pub fn divider(&self, draw: &Rect) -> (d: Segment)
        ensures
            coord(d.start, primary_index(self.orientation)) == span_lo(*draw, primary_index(self.orientation)),
            coord(d.end, primary_index(self.orientation)) == span_hi(*draw, primary_index(self.orientation)),
            coord(d.start, 1 - primary_index(self.orientation)) == span_hi(*draw, 1 - primary_index(self.orientation)),
            coord(d.end, 1 - primary_index(self.orientation)) == span_hi(*draw, 1 - primary_index(self.orientation)),
    {
        let (lo, hi) = span(draw, primary_axis(self.orientation));
        let (_, base) = span(draw, secondary_axis(self.orientation));
        Segment {
            start: compose(self.orientation, lo as i128, base as i128),
            end: compose(self.orientation, hi as i128, base as i128),
        }
    }

    /// Width the axis needs: its widest label, plus the tick marks when they
    /// count across x (on a horizontal axis).
    pub fn default_width(&self, tick_mark_size: i32, label_widths: &[u32]) -> (w: i64)
        ensures
            w == max_or_zero(ints_u32(label_widths@)) + match self.orientation {
                Orientation::Horizontal => tick_mark_size as int,
                Orientation::Vertical => 0,
            },
    {
        let mut widest: u32 = 0;
        let mut i: usize = 0;
        while i < label_widths.len()
            invariant
                i <= label_widths@.len(),
                widest == max_or_zero(ints_u32(label_widths@).take(i as int)),
            decreases label_widths@.len() - i,
        {
            proof {
                let t = ints_u32(label_widths@).take(i as int + 1);
                assert(t.drop_last() =~= ints_u32(label_widths@).take(i as int));
            }
            if label_widths[i] > widest {
                widest = label_widths[i];
            }
            i += 1;
        }
        assert(ints_u32(label_widths@).take(i as int) =~= ints_u32(label_widths@));
        let tick_width: i64 = match self.orientation {
            Orientation::Horizontal => tick_mark_size as i64,
            Orientation::Vertical => 0,
        };
        widest as i64 + tick_width
    }

    /// Height the axis needs: one line of labels, plus the tick marks when
    /// they count across y (on a vertical axis).
    pub fn default_height(&self, tick_mark_size: i32, label_height: u32) -> (h: i64)
        ensures
            h == label_height + match self.orientation {
                Orientation::Horizontal => 0,
                Orientation::Vertical => tick_mark_size as int,
            },
    {
        let tick_height: i64 = match self.orientation {
            Orientation::Horizontal => 0,
            Orientation::Vertical => tick_mark_size as i64,
        };
        label_height as i64 + tick_height
    }
}

/// Widget ids an axis holds: one per tick mark and one per label. They only
/// ever grow.
#[derive(Debug, Clone, Copy, PartialEq, Eq, Structural)]
pub struct State {
    pub tick_ids: usize,
    pub label_ids: usize,
}

impl State {
    /// No ids yet.
    pub fn new() -> (s: State)
        ensures
            s == (State { tick_ids: 0, label_ids: 0 }),
    {
        State { tick_ids: 0, label_ids: 0 }
    }

    /// Grows each kind of id to at least `count`.
    pub fn reserve(&mut self, count: usize)
        ensures
            final(self).tick_ids == if old(self).tick_ids < count { count } else { old(self).tick_ids },
            final(self).label_ids == if old(self).label_ids < count { count } else { old(self).label_ids },
    {
        if self.tick_ids < count {
            self.tick_ids = count;
        }
        if self.label_ids < count {
            self.label_ids = count;
        }
    }
}

} // verus!
