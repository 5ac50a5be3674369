use golem_runner::annotate::{centroid, glyph_scale, CornerCascade};

#[test]
fn centroid_of_member_centres() {
    assert_eq!(centroid(&[]), (0, 0));
    assert_eq!(centroid(&[(0, 0, 10, 10)]), (5, 5));
    assert_eq!(centroid(&[(0, 0, 10, 10), (100, 200, 20, 40)]), (58, 113));
    assert_eq!(centroid(&[(0, 0, 3, 3)]), (2, 2));
    assert_eq!(centroid(&[(-3, -3, 3, 3)]), (-2, -2));
}

#[test]
fn glyph_scale_is_clamped_width_fraction() {
    assert_eq!(glyph_scale(0), 2);
    assert_eq!(glyph_scale(700), 2);
    assert_eq!(glyph_scale(1080), 3);
    assert_eq!(glyph_scale(1400), 4);
    assert_eq!(glyph_scale(1750), 5);
    assert_eq!(glyph_scale(4000), 5);
}

#[test]
fn colliding_markers_cascade_right() {
    let mut c = CornerCascade::new();
    // First marker at a corner sits on the corner.
    assert_eq!(c.place((10, 20), 30, 3, 1000), 10);
    // A second at the same corner moves right by the chip width plus the scale.
    assert_eq!(c.place((10, 20), 30, 3, 1000), 43);
    // Another corner is unaffected.
    assert_eq!(c.place((50, 20), 30, 3, 1000), 50);
    // The third at the first corner cascades further.
    assert_eq!(c.place((10, 20), 30, 3, 1000), 76);
}

#[test]
fn cascaded_marker_stays_inside_the_image() {
    let mut c = CornerCascade::new();
    assert_eq!(c.place((80, 0), 30, 3, 100), 70);
    assert_eq!(c.place((80, 0), 30, 3, 100), 70);
    // A chip wider than the image is pinned to the left edge.
    assert_eq!(c.place((5, 5), 200, 3, 100), 0);
}
