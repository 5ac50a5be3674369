//! The captured UI tree: the parts of an element the runner's logic reads.
use vstd::prelude::*;
use crate::text::chars_of;

verus! {

/// An element's rectangle, in device px (Android) or points (iOS).
#[derive(Debug, Clone, Copy, PartialEq, Eq, Structural)]
pub struct Bounds {
    pub x: i32,
    pub y: i32,
    pub width: i32,
    pub height: i32,
}

/// One node of a captured UI tree.
pub struct Element {
    /// Platform element type (`Button`, `TextView`, `other`, …).
    pub element_type: String,
    /// Visible text, if any.
    pub text: Option<String>,
    /// Accessibility label, if any.
    pub accessibility_label: Option<String>,
    /// Whether the element is enabled.
    pub enabled: bool,
    /// Whether the element reacts to taps.
    pub clickable: bool,
    /// Full bounds.
    pub bounds: Bounds,
    /// Bounds clipped to what is actually visible, when known.
    pub visible_bounds: Option<Bounds>,
    /// Child elements, in document order.
    pub children: Vec<Element>,
}

/// The optional string's characters, if present.
pub open spec fn opt_view(o: Option<String>) -> Option<Seq<char>> {
    match o {
        Some(s) => Some(s@),
        None => None,
    }
}

/// The node's own text candidates: its text, then its accessibility label,
/// each when present (possibly empty).
pub open spec fn own_candidates(n: Element) -> Seq<Seq<char>> {
    let t = match n.text {
        Some(s) => seq![s@],
        None => Seq::empty(),
    };
    let l = match n.accessibility_label {
        Some(s) => seq![s@],
        None => Seq::empty(),
    };
    t + l
}

/// Text candidates of a node and all its descendants, in document order.
pub open spec fn candidates(n: Element) -> Seq<Seq<char>>
    decreases n,
{
    own_candidates(n) + forest_candidates(n.children@)
}

/// Text candidates of a list of sibling subtrees, in document order.
pub open spec fn forest_candidates(s: Seq<Element>) -> Seq<Seq<char>>
    decreases s,
{
    if s.len() == 0 {
        Seq::empty()
    } else {
        forest_candidates(s.drop_last()) + candidates(s.last())
    }
}

/// The character views of a list of character vectors.
pub open spec fn char_views(v: Seq<Vec<char>>) -> Seq<Seq<char>> {
    v.map_values(|x: Vec<char>| x@)
}

/// Appends the node's own text candidates.
fn push_own_candidates(node: &Element, out: &mut Vec<Vec<char>>)
    ensures
        char_views(final(out)@) == char_views(old(out)@) + own_candidates(*node),
{
    let ghost start = char_views(out@);
    match &node.text {
        Some(t) => {
            out.push(chars_of(t.as_str()));
        },
        None => {},
    }
    let ghost mid = char_views(out@);
    assert(mid =~= start + match node.text {
        Some(s) => seq![s@],
        None => Seq::<Seq<char>>::empty(),
    });
    match &node.accessibility_label {
        Some(l) => {
            out.push(chars_of(l.as_str()));
        },
        None => {},
    }
    assert(char_views(out@) =~= start + own_candidates(*node));
}

/// Appends the text candidates of `node` and its descendants, in document
/// order.
pub fn collect_candidates(node: &Element, out: &mut Vec<Vec<char>>)
    ensures
        char_views(final(out)@) == char_views(old(out)@) + candidates(*node),
    decreases node,
{
    let ghost start = char_views(out@);
    push_own_candidates(node, out);
    let ghost own = char_views(out@);
    let mut i: usize = 0;
    while i < node.children.len()
        invariant
            i <= node.children@.len(),
            char_views(out@) == own + forest_candidates(node.children@.take(i as int)),
        decreases node.children@.len() - i,
    {
        collect_candidates(&node.children[i], out);
        proof {
            let s = node.children@.take(i + 1);
            assert(s.drop_last() =~= node.children@.take(i as int));
            assert(s.last() == node.children@[i as int]);
        }
        i = i + 1;
    }
    assert(node.children@.take(node.children@.len() as int) =~= node.children@);
}

} // verus!
