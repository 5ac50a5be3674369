use golem_runner::checks::{
    check_duplicate_labels, check_missing_label, check_overlapping, coincident, describe,
    effective_bounds, encloses, has_clickable_descendant, intersects, is_clipped,
    is_disabled_control, label_of, occlusion_cell_rect, subtree_has_name, A11yIssue, Severity,
};
use golem_runner::element::{Bounds, Element};

fn el(ty: &str, x: i32, y: i32, w: i32, h: i32) -> Element {
    Element {
        element_type: ty.to_string(),
        text: None,
        accessibility_label: None,
        enabled: true,
        clickable: true,
        bounds: Bounds { x, y, width: w, height: h },
        visible_bounds: None,
        children: vec![],
    }
}

fn with_text(mut e: Element, t: &str) -> Element {
    e.text = Some(t.to_string());
    e
}

fn ids(issues: &[A11yIssue]) -> Vec<&str> {
    issues.iter().map(|i| i.check_id.as_str()).collect()
}

#[test]
fn missing_label_flags_nameless_control() {
    let mut out = Vec::new();
    check_missing_label(&el("Image", 0, 0, 50, 50), &mut out);
    assert_eq!(ids(&out), ["missing_label"]);
    assert_eq!(out[0].severity, Severity::Error);
    assert_eq!(out[0].message, "Image has no text or accessibility label");
    assert_eq!(out[0].element_bounds, Some(Bounds { x: 0, y: 0, width: 50, height: 50 }));
}

#[test]
fn missing_label_accepts_text_label_or_descendant_name() {
    let mut out = Vec::new();
    check_missing_label(&with_text(el("Button", 0, 0, 50, 50), "Submit"), &mut out);
    let mut labelled = el("Button", 0, 0, 50, 50);
    labelled.accessibility_label = Some("close".to_string());
    check_missing_label(&labelled, &mut out);
    let mut parent = el("button", 0, 0, 100, 60);
    parent.children = vec![with_text(el("StaticText", 0, 0, 100, 60), "Buy")];
    check_missing_label(&parent, &mut out);
    assert!(out.is_empty());
}

#[test]
fn missing_label_treats_empty_strings_as_absent() {
    let mut e = el("Button", 0, 0, 50, 50);
    e.text = Some(String::new());
    e.accessibility_label = Some(String::new());
    let mut out = Vec::new();
    check_missing_label(&e, &mut out);
    assert_eq!(ids(&out), ["missing_label"]);
}

#[test]
fn duplicate_labels_one_warning_per_group() {
    let a = with_text(el("Button", 0, 0, 50, 50), "Add");
    let b = with_text(el("Button", 0, 100, 50, 50), "Add");
    let c = with_text(el("Button", 0, 200, 50, 50), "Add");
    let mut out = Vec::new();
    check_duplicate_labels(&[&a, &b, &c], &mut out);
    assert_eq!(out.len(), 1, "three-way dup → one warning");
    assert_eq!(out[0].severity, Severity::Warning);
    assert_eq!(out[0].related_bounds.len(), 2, "triplicate → primary + 2 related");
    assert_eq!(out[0].message, "3 sibling Buttons labelled \"Add\"");
    assert_eq!(out[0].element_bounds, Some(a.bounds));
    assert_eq!(out[0].related_bounds, vec![b.bounds, c.bounds]);
}

#[test]
fn duplicate_labels_groups_in_first_seen_order() {
    let x1 = with_text(el("Button", 0, 0, 10, 10), "X");
    let y1 = with_text(el("Button", 0, 20, 10, 10), "Y");
    let z = with_text(el("Button", 0, 40, 10, 10), "Z");
    let y2 = with_text(el("Button", 0, 60, 10, 10), "Y");
    let x2 = with_text(el("Button", 0, 80, 10, 10), "X");
    let mut out = Vec::new();
    check_duplicate_labels(&[&x1, &y1, &z, &y2, &x2], &mut out);
    assert_eq!(out.len(), 2);
    assert_eq!(out[0].message, "2 sibling Buttons labelled \"X\"");
    assert_eq!(out[1].message, "2 sibling Buttons labelled \"Y\"");
    let distinct_a = with_text(el("Button", 0, 0, 50, 50), "Add");
    let distinct_b = with_text(el("Button", 0, 100, 50, 50), "Remove");
    let mut none = Vec::new();
    check_duplicate_labels(&[&distinct_a, &distinct_b], &mut none);
    assert!(none.is_empty());
}

#[test]
fn overlapping_pairs_are_flagged_with_both_names() {
    let a = with_text(el("Button", 0, 0, 100, 100), "A");
    let b = with_text(el("Button", 50, 50, 100, 100), "B");
    let mut out = Vec::new();
    check_overlapping(&[&a, &b], &mut out);
    assert_eq!(ids(&out), ["overlapping_interactive"]);
    assert_eq!(out[0].message, "Button \"A\" overlaps Button \"B\"");
    assert_eq!(out[0].related_bounds, vec![b.bounds]);
}

#[test]
fn disjoint_coincident_and_enclosed_pairs_are_not_overlaps() {
    let a = with_text(el("Button", 0, 0, 50, 50), "A");
    let far = with_text(el("Button", 200, 200, 50, 50), "B");
    let same = with_text(el("Overlay", 0, 0, 50, 50), "C");
    let inner = with_text(el("Button", 10, 10, 20, 20), "D");
    let touching = with_text(el("Button", 50, 0, 50, 50), "E");
    let mut out = Vec::new();
    check_overlapping(&[&a, &far, &same, &inner, &touching], &mut out);
    assert!(out.is_empty(), "{:?}", ids(&out));
}

#[test]
fn overlap_check_skips_huge_sibling_groups() {
    let items: Vec<Element> = (0..201).map(|_| el("Button", 0, 0, 10, 10)).collect();
    let shifted = el("Button", 5, 5, 10, 10);
    let mut refs: Vec<&Element> = items.iter().collect();
    refs.push(&shifted);
    let mut out = Vec::new();
    check_overlapping(&refs, &mut out);
    assert!(out.is_empty());
}

#[test]
fn occlusion_cell_rect_maps_points_to_3x3() {
    let b = Bounds { x: 0, y: 0, width: 90, height: 90 };
    let tuple = |r: Bounds| (r.x, r.y, r.width, r.height);
    assert_eq!(tuple(occlusion_cell_rect(&b, 15, 15)), (0, 0, 30, 30), "¼,¼ → top-left");
    assert_eq!(tuple(occlusion_cell_rect(&b, 45, 45)), (30, 30, 30, 30), "½,½ → centre");
    assert_eq!(tuple(occlusion_cell_rect(&b, 75, 15)), (60, 0, 30, 30), "¾,¼ → top-right");
    assert_eq!(tuple(occlusion_cell_rect(&b, -5, 500)), (0, 60, 30, 30));
    let tiny = Bounds { x: 5, y: 5, width: 0, height: 2 };
    assert_eq!(tuple(occlusion_cell_rect(&tiny, 9, 9)), (5, 5, 1, 1));
}

#[test]
fn element_predicates() {
    let mut e = with_text(el("Button", 0, 0, 100, 40), "Save");
    assert_eq!(label_of(&e).as_deref(), Some("Save"));
    assert_eq!(describe(&e), "Button \"Save\"");
    assert!(!is_disabled_control(&e));
    e.enabled = false;
    assert!(is_disabled_control(&e));
    assert!(!is_clipped(&e));
    e.visible_bounds = Some(Bounds { x: 0, y: 0, width: 98, height: 40 });
    assert!(is_clipped(&e));
    assert_eq!(effective_bounds(&e).width, 98);
    e.visible_bounds = Some(Bounds { x: 0, y: 0, width: 99, height: 39 });
    assert!(!is_clipped(&e));
    let plain = el("View", 0, 0, 1, 1);
    assert_eq!(describe(&plain), "View");
    assert!(!subtree_has_name(&plain));
    let mut parent = el("View", 0, 0, 10, 10);
    parent.clickable = false;
    let mut child = el("View", 0, 0, 10, 10);
    child.clickable = false;
    child.children = vec![el("Button", 0, 0, 5, 5)];
    parent.children = vec![child];
    assert!(has_clickable_descendant(&parent));
    assert!(!has_clickable_descendant(&plain));
}

#[test]
fn rectangle_relations() {
    let a = Bounds { x: 0, y: 0, width: 10, height: 10 };
    let b = Bounds { x: 5, y: 5, width: 10, height: 10 };
    let c = Bounds { x: 10, y: 0, width: 10, height: 10 };
    assert!(intersects(&a, &b) && intersects(&b, &a));
    assert!(!intersects(&a, &c));
    assert!(coincident(&a, &a.clone()));
    assert!(encloses(&a, &Bounds { x: 2, y: 2, width: 8, height: 8 }));
    assert!(!encloses(&a, &b));
}

#[test]
fn overlap_is_reported_whichever_sibling_comes_first() {
    let a = with_text(el("Button", 0, 0, 100, 100), "A");
    let b = with_text(el("Button", 50, 50, 100, 100), "B");
    let mut ab = Vec::new();
    check_overlapping(&[&a, &b], &mut ab);
    let mut ba = Vec::new();
    check_overlapping(&[&b, &a], &mut ba);
    assert_eq!(ab.len(), 1);
    assert_eq!(ba.len(), 1);
    assert_eq!(ba[0].message, "Button \"B\" overlaps Button \"A\"");
}
