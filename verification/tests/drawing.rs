use mcpi_rs::drawing::rasterize;

#[test]
fn degenerate_segment_is_a_single_point() {
    assert_eq!(rasterize((0, 0, 0), (0, 0, 0)), vec![(0, 0, 0)]);
    assert_eq!(rasterize((7, -2, 3), (7, -2, 3)), vec![(7, -2, 3)]);
}

#[test]
fn axis_aligned_segment_walks_the_axis() {
    assert_eq!(
        rasterize((0, 0, 0), (4, 0, 0)),
        vec![(0, 0, 0), (1, 0, 0), (2, 0, 0), (3, 0, 0), (4, 0, 0)]
    );
    assert_eq!(rasterize((0, 0, 0), (0, -2, 0)), vec![(0, 0, 0), (0, -1, 0), (0, -2, 0)]);
    assert_eq!(rasterize((1, 1, 5), (1, 1, 3)), vec![(1, 1, 5), (1, 1, 4), (1, 1, 3)]);
}

#[test]
fn x_driven_segment_follows_the_midpoint_walk() {
    let pts = rasterize((-1, 1, 1), (5, 3, -1));
    assert_eq!(
        pts,
        vec![(-1, 1, 1), (0, 1, 1), (1, 2, 0), (2, 2, 0), (3, 2, 0), (4, 3, -1), (5, 3, -1)]
    );
}

#[test]
fn x_driven_segment_is_connected_and_steps_x_each_time() {
    let pts = rasterize((-1, 1, 1), (5, 3, -1));
    assert_eq!(pts.len(), 7);
    assert_eq!(pts[0], (-1, 1, 1));
    assert_eq!(pts[6], (5, 3, -1));
    for w in pts.windows(2) {
        assert_eq!(w[1].0 - w[0].0, 1);
        assert!((w[1].1 - w[0].1).abs() <= 1);
        assert!((w[1].2 - w[0].2).abs() <= 1);
    }
}

#[test]
fn ties_resolve_to_x_then_y() {
    // dx == dy: x drives, y follows one step per step.
    assert_eq!(rasterize((0, 0, 0), (3, 3, 0)), vec![(0, 0, 0), (1, 1, 0), (2, 2, 0), (3, 3, 0)]);
    // dy == dz > dx: y drives.
    let pts = rasterize((0, 0, 0), (1, 3, 3));
    assert_eq!(pts.len(), 4);
    assert_eq!(pts[0], (0, 0, 0));
    assert_eq!(pts[3], (1, 3, 3));
    for (i, p) in pts.iter().enumerate() {
        assert_eq!(p.1, i as i32);
    }
}

#[test]
fn y_driven_segment_ends_at_the_end_point() {
    let pts = rasterize((0, 0, 0), (1, 5, 2));
    assert_eq!(pts.len(), 6);
    assert_eq!(pts[0], (0, 0, 0));
    assert_eq!(pts[5], (1, 5, 2));
    for (i, p) in pts.iter().enumerate() {
        assert_eq!(p.1, i as i32);
    }
    for w in pts.windows(2) {
        assert!((w[1].0 - w[0].0).abs() <= 1);
        assert!((w[1].2 - w[0].2).abs() <= 1);
    }
}

#[test]
fn z_driven_segment_ends_at_the_end_point() {
    let pts = rasterize((2, 1, 10), (0, 3, 0));
    assert_eq!(pts.len(), 11);
    assert_eq!(pts[0], (2, 1, 10));
    assert_eq!(pts[10], (0, 3, 0));
    for (i, p) in pts.iter().enumerate() {
        assert_eq!(p.2, 10 - i as i32);
    }
    for w in pts.windows(2) {
        assert!((w[1].0 - w[0].0).abs() <= 1);
        assert!((w[1].1 - w[0].1).abs() <= 1);
    }
}
