use golem_runner::element::{Bounds, Element};
use golem_runner::interaction::{
    above_keyboard, collect_toggles, gesture_plan, inner_toggle, nudge_swipe, parse_direction,
    point_or_centre, scroll_direction, swipe_direction, swipe_end, swipe_plan, tap_target, Direction,
    GestureError, SwipeError, SwipePlan, Viewport,
};

fn make_element(ty: &str, b: Bounds) -> Element {
    Element {
        element_type: ty.to_string(),
        text: None,
        accessibility_label: None,
        enabled: true,
        clickable: true,
        bounds: b,
        visible_bounds: None,
        children: vec![],
    }
}

fn bounds(x: i32, y: i32, width: i32, height: i32) -> Bounds {
    Bounds { x, y, width, height }
}

#[test]
fn collect_toggles_gathers_switches_and_toggles_recursively() {
    let mut root = make_element("View", bounds(0, 0, 375, 812));
    let switch = make_element("Switch", bounds(300, 100, 40, 24));
    let mut group = make_element("View", bounds(0, 200, 375, 60));
    let toggle = make_element("Toggle", bounds(320, 210, 40, 24));
    group.children.push(toggle);
    let plain = make_element("Button", bounds(10, 400, 100, 44));
    root.children.push(switch);
    root.children.push(group);
    root.children.push(plain);

    let mut out = Vec::new();
    collect_toggles(&root, &mut out);
    assert_eq!(
        out.len(),
        2,
        "collect_toggles SHALL find both the top-level switch and the nested toggle"
    );
    assert!(out.iter().any(|b| b.x == 300), "the top-level switch bounds SHALL be collected");
    assert!(out.iter().any(|b| b.x == 320), "the nested toggle bounds SHALL be collected");
}

#[test]
fn toggle_types_match_in_any_case() {
    let mut root = make_element("SWITCH", bounds(0, 0, 10, 10));
    root.children.push(make_element("toggle", bounds(1, 1, 5, 5)));
    root.children.push(make_element("Toggles", bounds(2, 2, 5, 5)));
    let mut out = vec![bounds(9, 9, 9, 9)];
    collect_toggles(&root, &mut out);
    assert_eq!(out, vec![bounds(9, 9, 9, 9), bounds(0, 0, 10, 10), bounds(1, 1, 5, 5)]);
}

#[test]
fn inner_toggle_picks_the_smaller_control_on_the_right() {
    let outer = bounds(0, 200, 375, 60);
    let inner = bounds(320, 218, 40, 24);
    assert_eq!(inner_toggle(&[outer, inner], &outer), Some(inner));
    let left = bounds(10, 218, 40, 24);
    assert_eq!(inner_toggle(&[left], &outer), None);
    let poking_out = bounds(340, 196, 38, 24);
    assert_eq!(inner_toggle(&[poking_out], &outer), Some(poking_out));
    let too_far = bounds(340, 195, 38, 24);
    assert_eq!(inner_toggle(&[too_far], &outer), None);
    let lone = bounds(100, 200, 100, 44);
    assert_eq!(inner_toggle(&[lone], &lone), None);
}

#[test]
fn nudge_swipes_up_on_bottom_overflow() {
    let vp = Viewport { width: 375, height: 812 };
    let s = nudge_swipe(&bounds(0, 400, 375, 600), &vp).expect("bottom overflow SHALL nudge");
    assert_eq!(s, (187, 500, 187, 312));
    assert!(s.1 > s.3, "bottom overflow SHALL swipe upward (from_y > to_y)");
}

#[test]
fn nudge_noop_when_fully_visible() {
    let vp = Viewport { width: 375, height: 812 };
    assert_eq!(nudge_swipe(&bounds(20, 100, 300, 200), &vp), None);
}

#[test]
fn nudge_swipes_down_on_top_overflow() {
    let vp = Viewport { width: 400, height: 900 };
    let s = nudge_swipe(&bounds(0, -120, 400, 300), &vp).expect("top overflow SHALL nudge");
    assert_eq!(s, (200, 450 - 60, 200, 450 + 60));
    assert_eq!(nudge_swipe(&bounds(0, -500, 400, 1390), &vp), None);
}

#[test]
fn one_point_swipe_moves_two_fifths_of_the_viewport() {
    assert_eq!(swipe_end((100, 400), "up", 812), Some((100, 76)));
    assert_eq!(swipe_end((100, 400), "down", 812), Some((100, 724)));
    assert_eq!(swipe_end((100, 400), "left", 812), Some((-224, 400)));
    assert_eq!(swipe_end((100, 400), "right", 812), Some((424, 400)));
    assert_eq!(swipe_end((100, 400), "", 812), None);
    assert_eq!(swipe_end((100, 400), "sideways", 812), None);
}

#[test]
fn directions_parse_exactly() {
    assert_eq!(parse_direction("up"), Some(Direction::Up));
    assert_eq!(parse_direction("down"), Some(Direction::Down));
    assert_eq!(parse_direction("left"), Some(Direction::Left));
    assert_eq!(parse_direction("right"), Some(Direction::Right));
    assert_eq!(parse_direction("Up"), None);
}

#[test]
fn keyboard_shrinks_the_viewport() {
    let vp = Viewport { width: 375, height: 812 };
    assert_eq!(above_keyboard(vp, 300), Viewport { width: 375, height: 512 });
    assert_eq!(above_keyboard(vp, 0), vp);
}

#[test]
fn switch_row_tap_retargets_to_inner_toggle() {
    let mut root = make_element("View", bounds(0, 0, 375, 812));
    let mut outer = make_element("Switch", bounds(0, 200, 375, 60));
    outer.text = Some("Wifi".to_string());
    outer.children.push(make_element("Switch", bounds(320, 218, 40, 24)));
    root.children.push(outer);
    let row = &root.children[0];
    assert_eq!(tap_target(row, (187, 230), &root), (340, 230));
}

#[test]
fn lone_switch_tap_uses_matched_centre() {
    let mut root = make_element("View", bounds(0, 0, 375, 812));
    root.children.push(make_element("Switch", bounds(100, 200, 100, 44)));
    let lone = &root.children[0];
    assert_eq!(tap_target(lone, (150, 222), &root), (150, 222));
    let button = make_element("Button", bounds(0, 200, 375, 60));
    assert_eq!(tap_target(&button, (187, 230), &root), (187, 230));
}

#[test]
fn scroll_direction_defaults_to_down_and_refuses_unknown() {
    assert_eq!(scroll_direction(None), Ok(Direction::Down));
    assert_eq!(scroll_direction(Some("up")), Ok(Direction::Up));
    assert_eq!(scroll_direction(Some("left")), Ok(Direction::Left));
    assert_eq!(
        scroll_direction(Some("diagonal")),
        Err("Invalid scroll direction: \"diagonal\"".to_string())
    );
}

#[test]
fn swipe_direction_has_no_default() {
    assert_eq!(swipe_direction(Some("right")), Ok(Direction::Right));
    assert_eq!(swipe_direction(Some("diagonal")), Err("Invalid swipe direction: \"diagonal\"".to_string()));
    assert_eq!(swipe_direction(None), Err("Invalid swipe direction: \"\"".to_string()));
}

#[test]
fn swipe_plan_two_points_is_a_plain_swipe() {
    assert_eq!(
        swipe_plan(&[(10, 20), (30, 40)], None, 812, None),
        Ok(SwipePlan::Swipe { from: (10, 20), to: (30, 40) })
    );
}

#[test]
fn swipe_plan_three_points_is_one_gesture() {
    let pts = [(10, 10), (100, 100), (200, 200)];
    assert_eq!(
        swipe_plan(&pts, None, 812, Some(250)),
        Ok(SwipePlan::Gesture { points: pts.to_vec(), duration_ms: 250 })
    );
    assert_eq!(
        swipe_plan(&pts, None, 812, None),
        Ok(SwipePlan::Gesture { points: pts.to_vec(), duration_ms: 300 })
    );
}

#[test]
fn swipe_plan_one_point_uses_direction() {
    // 812 * 2 / 5 = 324; up moves the end point from y 400 to 76.
    assert_eq!(
        swipe_plan(&[(100, 400)], Some("up"), 812, None),
        Ok(SwipePlan::Swipe { from: (100, 400), to: (100, 76) })
    );
    let e = swipe_plan(&[(100, 400)], None, 812, None).unwrap_err();
    assert_eq!(e, SwipeError::OnePointNeedsDirection);
    assert_eq!(e.message(), "swipe with one point requires direction");
}

#[test]
fn swipe_plan_without_points_uses_direction() {
    assert_eq!(swipe_plan(&[], Some("up"), 812, None), Ok(SwipePlan::FromDirection(Direction::Up)));
    let e = swipe_plan(&[], Some("diagonal"), 812, None).unwrap_err();
    assert_eq!(e.message(), "Invalid swipe direction: \"diagonal\"");
    let e = swipe_plan(&[], None, 812, None).unwrap_err();
    assert_eq!(e, SwipeError::InvalidDirection("Invalid swipe direction: \"\"".to_string()));
}

#[test]
fn gesture_plan_checks_fingers() {
    let e = gesture_plan(&[], None).unwrap_err();
    assert_eq!(e, GestureError::NoFingers);
    assert!(e.message().contains("at least one finger"));
    let e = gesture_plan(&[3, 1], Some(500)).unwrap_err();
    assert_eq!(e, GestureError::TooFewPoints);
    assert!(e.message().contains("at least 2 points"));
    assert_eq!(gesture_plan(&[2, 3], Some(500)), Ok(500));
    assert_eq!(gesture_plan(&[2], None), Ok(300));
}

#[test]
fn gesture_point_falls_back_to_viewport_centre() {
    let vp = Viewport { width: 375, height: 812 };
    assert_eq!(point_or_centre(None, None, &vp), (187, 406));
    assert_eq!(point_or_centre(Some(10), None, &vp), (10, 406));
    assert_eq!(point_or_centre(None, Some(20), &vp), (187, 20));
}
