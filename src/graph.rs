//! Splitting a graph's area between its axes, their titles and the plot.

use vstd::prelude::*;
use crate::axis::{Axis, Orientation, Rect, DEFAULT_TICK_COUNT};

verus! {

/// `v` fits in an `i32`.
pub open spec fn fits_i32(v: int) -> bool {
    i32::MIN <= v <= i32::MAX
}

/// Where each part of a line graph goes.
#[derive(Debug, Clone, Copy, PartialEq, Eq, Structural)]
pub struct GraphLayout {
    /// Title of the x axis, under it.
    pub label_x: Rect,
    /// Title of the y axis, left of it.
    pub label_y: Rect,
    /// The x axis, along the bottom.
    pub x_axis: Rect,
    /// The y axis, along the left.
    pub y_axis: Rect,
    /// The plotted curve, above the x axis and right of the y axis.
    pub plot: Rect,
}

/// Every edge that [`graph_layout`] computes for these sizes fits in an
/// `i32`.
pub open spec fn layout_fits(area: Rect, x_axis_height: i32, y_axis_width: i32, label_x_height: i32, label_y_width: i32) -> bool {
    &&& fits_i32(area.left + label_y_width)
    &&& fits_i32(area.left + y_axis_width + label_y_width)
    &&& fits_i32(area.bottom + label_x_height)
    &&& fits_i32(area.bottom + x_axis_height + label_x_height)
}

fn in_i32(v: i64) -> (b: bool)
    ensures
        b == fits_i32(v as int),
{
    i32::MIN as i64 <= v && v <= i32::MAX as i64
}

/// Whether [`graph_layout`] can lay out `area` with these sizes.
pub fn fits_grid(area: Rect, x_axis_height: i32, y_axis_width: i32, label_x_height: i32, label_y_width: i32) -> (r: bool)
    ensures
        r == layout_fits(area, x_axis_height, y_axis_width, label_x_height, label_y_width),
{
    in_i32(area.left as i64 + label_y_width as i64)
        && in_i32(area.left as i64 + y_axis_width as i64 + label_y_width as i64)
        && in_i32(area.bottom as i64 + label_x_height as i64)
        && in_i32(area.bottom as i64 + x_axis_height as i64 + label_x_height as i64)
}

/// Lays out a graph in `area`: the x-axis title at the bottom, the y-axis title
/// at the left, the axes inside them, and the plot in what is left.
pub fn graph_layout(area: Rect, x_axis_height: i32, y_axis_width: i32, label_x_height: i32, label_y_width: i32) -> (l: GraphLayout)
    requires
        layout_fits(area, x_axis_height, y_axis_width, label_x_height, label_y_width),
    ensures
        ({
            let inner_left = area.left + y_axis_width + label_y_width;
            let inner_bottom = area.bottom + x_axis_height + label_x_height;
            &&& l.x_axis == (Rect {
                left: inner_left as i32,
                bottom: (area.bottom + label_x_height) as i32,
                right: area.right,
                top: inner_bottom as i32,
            })
            &&& l.y_axis == (Rect {
                left: (area.left + label_y_width) as i32,
                bottom: inner_bottom as i32,
                right: inner_left as i32,
                top: area.top,
            })
            &&& l.label_x == (Rect {
                left: inner_left as i32,
                bottom: area.bottom,
                right: area.right,
                top: (area.bottom + label_x_height) as i32,
            })
            &&& l.label_y == (Rect {
                left: area.left,
                bottom: inner_bottom as i32,
                right: (area.left + label_y_width) as i32,
                top: area.top,
            })
            &&& l.plot == (Rect { left: inner_left as i32, bottom: inner_bottom as i32, right: area.right, top: area.top })
        }),
{
    let inner_left: i32 = (area.left as i64 + y_axis_width as i64 + label_y_width as i64) as i32;
    let inner_bottom: i32 = (area.bottom as i64 + x_axis_height as i64 + label_x_height as i64) as i32;
    let label_x_top: i32 = (area.bottom as i64 + label_x_height as i64) as i32;
    let label_y_right: i32 = (area.left as i64 + label_y_width as i64) as i32;
    let x_axis = Rect { left: inner_left, bottom: label_x_top, right: area.right, top: inner_bottom };
    let y_axis = Rect { left: label_y_right, bottom: inner_bottom, right: inner_left, top: area.top };
    let label_x = Rect { left: inner_left, bottom: area.bottom, right: area.right, top: label_x_top };
    let label_y = Rect { left: area.left, bottom: inner_bottom, right: label_y_right, top: area.top };
    let plot = Rect { left: x_axis.left, bottom: y_axis.bottom, right: area.right, top: area.top };
    GraphLayout { label_x, label_y, x_axis, y_axis, plot }
}


/// A graph of the curve `f` over `[min_x, max_x]` by `[min_y, max_y]`, with
/// optional axis titles.
pub struct LineGraph<'a, F> {
    pub min_x: i64,
    pub max_x: i64,
    pub label_x: Option<&'a str>,
    pub min_y: i64,
    pub max_y: i64,
    pub label_y: Option<&'a str>,
    pub f: F,
}

impl<'a, F> LineGraph<'a, F> {
    /// A graph without axis titles.
    pub fn new(min_x: i64, max_x: i64, min_y: i64, max_y: i64, f: F) -> (g: Self)
        ensures
            g.min_x == min_x && g.max_x == max_x,
            g.min_y == min_y && g.max_y == max_y,
            g.label_x is None && g.label_y is None,
            g.f == f,
    {
        LineGraph { min_x, max_x, label_x: None, min_y, max_y, label_y: None, f }
    }

    /// The same graph with `text` as the x-axis title.
    pub fn label_x(self, text: Option<&'a str>) -> (g: Self)
        ensures
            g.label_x == text,
            g.label_y == self.label_y,
            g.min_x == self.min_x && g.max_x == self.max_x,
            g.min_y == self.min_y && g.max_y == self.max_y,
            g.f == self.f,
    {
        LineGraph { label_x: text, ..self }
    }

    /// The same graph with `text` as the y-axis title.
    pub fn label_y(self, text: Option<&'a str>) -> (g: Self)
        ensures
            g.label_y == text,
            g.label_x == self.label_x,
            g.min_x == self.min_x && g.max_x == self.max_x,
            g.min_y == self.min_y && g.max_y == self.max_y,
            g.f == self.f,
    {
        LineGraph { label_y: text, ..self }
    }

    /// The horizontal axis along the bottom.
    pub fn x_axis(&self) -> (a: Axis)
        ensures
            a == (Axis {
                orientation: Orientation::Horizontal,
                tick_count: DEFAULT_TICK_COUNT,
                min: self.min_x,
                max: self.max_x,
                origin: 0,
            }),
    {
        Axis::new(self.min_x, self.max_x).orientation(Orientation::Horizontal)
    }

    /// The vertical axis along the left.
    pub fn y_axis(&self) -> (a: Axis)
        ensures
            a == (Axis {
                orientation: Orientation::Vertical,
                tick_count: DEFAULT_TICK_COUNT,
                min: self.min_y,
                max: self.max_y,
                origin: 0,
            }),
    {
        Axis::new(self.min_y, self.max_y).orientation(Orientation::Vertical)
    }
}

} // verus!
