use conrod_graph::axis::{
    compose, primary_axis, secondary_axis, Axis, Orientation, Point, Rect, Segment, State, DEFAULT_TICK_COUNT,
};
use conrod_graph::graph::{fits_grid, graph_layout};
use conrod_graph::mapping::to_screen;
use conrod_graph::ticks::TICK_SCALE;

#[test]
fn screen_ends_map_exactly() {
    assert_eq!(to_screen(-30, -30, 70, 100, 500), Some(100));
    assert_eq!(to_screen(70, -30, 70, 100, 500), Some(500));
    assert_eq!(to_screen(20, -30, 70, 100, 500), Some(300));
    assert_eq!(to_screen(-5, -30, 70, 100, 500), Some(200));
}

#[test]
fn screen_mapping_rounds_down() {
    assert_eq!(to_screen(1, 0, 3, 0, 10), Some(3));
    assert_eq!(to_screen(-1, 0, 3, 0, 10), Some(-4));
    assert_eq!(to_screen(1, 0, 3, 10, 0), Some(6));
}

#[test]
fn screen_mapping_needs_a_range() {
    assert_eq!(to_screen(4, 2, 2, 0, 100), None);
}

#[test]
fn axis_defaults() {
    let a = Axis::new(-1, 1);
    assert_eq!(a.orientation, Orientation::Horizontal);
    assert_eq!(a.tick_count, DEFAULT_TICK_COUNT);
    assert_eq!(a.tick_count, 8);
    assert_eq!(a.origin, 0);
    let b = a.orientation(Orientation::Vertical).origin(3).tick_count(4);
    assert_eq!(b, Axis { orientation: Orientation::Vertical, tick_count: 4, min: -1, max: 1, origin: 3 });
}

#[test]
fn axis_ticks_match_planner() {
    let ts = Axis::new(0, 100).tick_count(10).generate_ticks().unwrap();
    assert_eq!(ts.values.len(), 11);
    assert_eq!(ts.values[3], 30 * TICK_SCALE);
}

#[test]
fn orientation_picks_axes() {
    assert_eq!((primary_axis(Orientation::Horizontal), secondary_axis(Orientation::Horizontal)), (0, 1));
    assert_eq!((primary_axis(Orientation::Vertical), secondary_axis(Orientation::Vertical)), (1, 0));
    assert_eq!(compose(Orientation::Horizontal, 4, 9), Point { x: 4, y: 9 });
    assert_eq!(compose(Orientation::Vertical, 4, 9), Point { x: 9, y: 4 });
}

#[test]
fn horizontal_tick_placement() {
    let axis = Axis::new(0, 10);
    let draw = Rect { left: 100, bottom: 20, right: 300, top: 40 };
    let c = axis.tick_coordinate(5 * TICK_SCALE, &draw).unwrap();
    assert_eq!(c, 200);
    assert_eq!(axis.tick_mark(c, &draw, 10), Segment { start: Point { x: 200, y: 40 }, end: Point { x: 200, y: 50 } });
    assert_eq!(axis.label_box(c, &draw, 30, 12), (Point { x: 185, y: 14 }, Point { x: 215, y: 26 }));
    assert_eq!(axis.divider(&draw), Segment { start: Point { x: 100, y: 40 }, end: Point { x: 300, y: 40 } });
}

#[test]
fn vertical_tick_placement() {
    let axis = Axis::new(-10, 10).orientation(Orientation::Vertical);
    let draw = Rect { left: 0, bottom: 50, right: 40, top: 250 };
    let c = axis.tick_coordinate(5 * TICK_SCALE, &draw).unwrap();
    assert_eq!(c, 200);
    assert_eq!(axis.tick_mark(c, &draw, 6), Segment { start: Point { x: 40, y: 200 }, end: Point { x: 46, y: 200 } });
    assert_eq!(axis.label_box(c, &draw, 30, 12), (Point { x: -15, y: 194 }, Point { x: 15, y: 206 }));
    assert_eq!(axis.divider(&draw), Segment { start: Point { x: 40, y: 50 }, end: Point { x: 40, y: 250 } });
}

#[test]
fn empty_axis_has_no_coordinate() {
    let axis = Axis::new(3, 3);
    let draw = Rect { left: 0, bottom: 0, right: 100, top: 10 };
    assert_eq!(axis.tick_coordinate(3 * TICK_SCALE, &draw), None);
}

#[test]
fn axis_default_sizes() {
    let h = Axis::new(0, 1);
    let v = Axis::new(0, 1).orientation(Orientation::Vertical);
    assert_eq!(h.default_width(10, &[12, 40, 7]), 50);
    assert_eq!(v.default_width(10, &[12, 40, 7]), 40);
    assert_eq!(h.default_width(10, &[]), 10);
    assert_eq!(h.default_height(10, 14), 14);
    assert_eq!(v.default_height(10, 14), 24);
}

#[test]
fn state_ids_only_grow() {
    let mut s = State::new();
    s.reserve(5);
    assert_eq!((s.tick_ids, s.label_ids), (5, 5));
    s.reserve(3);
    assert_eq!((s.tick_ids, s.label_ids), (5, 5));
    s.reserve(9);
    assert_eq!((s.tick_ids, s.label_ids), (9, 9));
}

#[test]
fn graph_parts() {
    let l = graph_layout(Rect { left: 0, bottom: 0, right: 640, top: 480 }, 30, 50, 20, 15);
    assert_eq!(l.label_x, Rect { left: 65, bottom: 0, right: 640, top: 20 });
    assert_eq!(l.label_y, Rect { left: 0, bottom: 50, right: 15, top: 480 });
    assert_eq!(l.x_axis, Rect { left: 65, bottom: 20, right: 640, top: 50 });
    assert_eq!(l.y_axis, Rect { left: 15, bottom: 50, right: 65, top: 480 });
    assert_eq!(l.plot, Rect { left: 65, bottom: 50, right: 640, top: 480 });
}

#[test]
fn line_graph_builds_its_axes() {
    let g = conrod_graph::LineGraph::new(-1, 1, -2, 2, |x: i64| x).label_x(Some("time")).label_y(Some("value"));
    assert_eq!(g.label_x, Some("time"));
    assert_eq!(g.label_y, Some("value"));
    assert_eq!((g.f)(3), 3);
    assert_eq!(g.x_axis(), Axis::new(-1, 1));
    assert_eq!(g.y_axis(), Axis::new(-2, 2).orientation(Orientation::Vertical));
    let plain = conrod_graph::LineGraph::new(0, 1, 0, 1, ());
    assert_eq!(plain.label_x, None);
    assert_eq!(plain.label_y, None);
}

#[test]
fn graph_layout_bounds() {
    let area = Rect { left: 0, bottom: 0, right: 640, top: 480 };
    assert!(fits_grid(area, 30, 50, 20, 15));
    let edge = Rect { left: i32::MAX - 10, bottom: 0, right: i32::MAX, top: 480 };
    assert!(!fits_grid(edge, 30, 50, 20, 15));
    assert!(fits_grid(edge, 30, 5, 20, 5));
}
