//! Tree-based accessibility checks that need no measurement: missing
//! labels, duplicate sibling labels and overlapping sibling controls, with
//! the element predicates they rest on.
use vstd::prelude::*;
use crate::element::{Bounds, Element, opt_view};
use crate::text::{append_chars, append_str, chars_eq, chars_of, push_decimal, string_from_chars};

verus! {

/// How serious a finding is.
#[derive(Debug, Clone, Copy, PartialEq, Eq, Structural)]
pub enum Severity {
    Error,
    Warning,
}

/// One accessibility finding.
pub struct A11yIssue {
    /// Stable check identifier (`missing_label`, …).
    pub check_id: String,
    pub severity: Severity,
    /// Human-readable description.
    pub message: String,
    /// Type of the element the finding is about.
    pub element_type: String,
    /// Its label, when it has one.
    pub element_label: Option<String>,
    /// The rectangle the finding marks.
    pub element_bounds: Option<Bounds>,
    /// Further rectangles of the same finding (the other members of a group).
    pub related_bounds: Vec<Bounds>,
    /// Compact on-image token, for checks with one scalar measurement.
    pub detail: Option<String>,
}

// ── Element predicates ───────────────────────────────────────────────

/// The visible bounds when known, else the full bounds.
pub open spec fn spec_effective_bounds(n: Element) -> Bounds {
    match n.visible_bounds {
        Some(b) => b,
        None => n.bounds,
    }
}

/// The bounds an element occupies on screen: its visible bounds when known.
pub fn effective_bounds(node: &Element) -> (r: Bounds)
    ensures
        r == spec_effective_bounds(*node),
{
    match node.visible_bounds {
        Some(b) => b,
        None => node.bounds,
    }
}

/// A control that is present but turned off: clickable and not enabled.
pub open spec fn spec_is_disabled_control(n: Element) -> bool {
    n.clickable && !n.enabled
}

/// Whether the node is a disabled control (exempt from the checks).
pub fn is_disabled_control(node: &Element) -> (r: bool)
    ensures
        r == spec_is_disabled_control(*node),
{
    node.clickable && !node.enabled
}

/// Some node of the subtrees `s` is clickable.
pub open spec fn clickable_in(s: Seq<Element>) -> bool
    decreases s,
{
    if s.len() == 0 {
        false
    } else {
        clickable_in(s.drop_last()) || s.last().clickable || spec_has_clickable_descendant(s.last())
    }
}

/// Some descendant of `n` (not `n` itself) is clickable.
pub open spec fn spec_has_clickable_descendant(n: Element) -> bool
    decreases n,
{
    clickable_in(n.children@)
}

/// Whether some descendant of the node is clickable.
pub fn has_clickable_descendant(node: &Element) -> (r: bool)
    ensures
        r == spec_has_clickable_descendant(*node),
    decreases node,
{
    let mut i: usize = 0;
    while i < node.children.len()
        invariant
            i <= node.children@.len(),
            !clickable_in(node.children@.take(i as int)),
        decreases node.children@.len() - i,
    {
        let c = &node.children[i];
        let found = c.clickable || has_clickable_descendant(c);
        proof {
            let s = node.children@.take(i + 1);
            assert(s.drop_last() =~= node.children@.take(i as int));
            assert(s.last() == node.children@[i as int]);
        }
        if found {
            proof {
                lemma_clickable_in_prefix(node.children@, i + 1);
            }
            return true;
        }
        i = i + 1;
    }
    assert(node.children@.take(node.children@.len() as int) =~= node.children@);
    false
}

proof fn lemma_clickable_in_prefix(s: Seq<Element>, k: int)
    requires
        0 <= k <= s.len(),
        clickable_in(s.take(k)),
    ensures
        clickable_in(s),
    decreases s.len() - k,
{
    if k < s.len() {
        let t = s.take(k + 1);
        assert(t.drop_last() =~= s.take(k));
        lemma_clickable_in_prefix(s, k + 1);
    } else {
        assert(s.take(k) =~= s);
    }
}

/// The node's accessible name: its text when non-empty, else its
/// accessibility label when non-empty.
pub open spec fn spec_label_of(n: Element) -> Option<Seq<char>> {
    if n.text is Some && n.text->0@.len() > 0 {
        Some(n.text->0@)
    } else if n.accessibility_label is Some && n.accessibility_label->0@.len() > 0 {
        Some(n.accessibility_label->0@)
    } else {
        None
    }
}

/// The node's accessible name, if it has one.
pub fn label_of(node: &Element) -> (r: Option<String>)
    ensures
        opt_view(r) == spec_label_of(*node),
{
    match &node.text {
        Some(t) => {
            if !t.as_str().is_empty() {
                return Some(t.clone());
            }
        },
        None => {},
    }
    match &node.accessibility_label {
        Some(l) => {
            if !l.as_str().is_empty() {
                return Some(l.clone());
            }
        },
        None => {},
    }
    None
}

/// Some node of the subtrees `s` has an accessible name.
pub open spec fn named_in(s: Seq<Element>) -> bool
    decreases s,
{
    if s.len() == 0 {
        false
    } else {
        named_in(s.drop_last()) || spec_subtree_has_name(s.last())
    }
}

/// The node or one of its descendants has an accessible name.
pub open spec fn spec_subtree_has_name(n: Element) -> bool
    decreases n,
{
    spec_label_of(n) is Some || named_in(n.children@)
}

proof fn lemma_named_in_prefix(s: Seq<Element>, k: int)
    requires
        0 <= k <= s.len(),
        named_in(s.take(k)),
    ensures
        named_in(s),
    decreases s.len() - k,
{
    if k < s.len() {
        let t = s.take(k + 1);
        assert(t.drop_last() =~= s.take(k));
        lemma_named_in_prefix(s, k + 1);
    } else {
        assert(s.take(k) =~= s);
    }
}

/// Whether the node or a descendant carries text or an accessibility label.
pub fn subtree_has_name(node: &Element) -> (r: bool)
    ensures
        r == spec_subtree_has_name(*node),
    decreases node,
{
    if label_of(node).is_some() {
        return true;
    }
    let mut i: usize = 0;
    while i < node.children.len()
        invariant
            i <= node.children@.len(),
            !named_in(node.children@.take(i as int)),
        decreases node.children@.len() - i,
    {
        let found = subtree_has_name(&node.children[i]);
        proof {
            let s = node.children@.take(i + 1);
            assert(s.drop_last() =~= node.children@.take(i as int));
            assert(s.last() == node.children@[i as int]);
        }
        if found {
            proof {
                lemma_named_in_prefix(node.children@, i + 1);
            }
            return true;
        }
        i = i + 1;
    }
    assert(node.children@.take(node.children@.len() as int) =~= node.children@);
    false
}

/// `type "label"` when the node has a label, else its type.
pub open spec fn spec_describe(n: Element) -> Seq<char> {
    match spec_label_of(n) {
        Some(l) => n.element_type@ + " \""@ + l + "\""@,
        None => n.element_type@,
    }
}

fn describe_chars(node: &Element) -> (r: Vec<char>)
    ensures
        r@ == spec_describe(*node),
{
    let mut out = chars_of(node.element_type.as_str());
    match label_of(node) {
        Some(l) => {
            append_str(&mut out, " \"");
            append_str(&mut out, l.as_str());
            append_str(&mut out, "\"");
        },
        None => {},
    }
    out
}

/// A short identifier for the node: `button "Save"`, or just its type.
pub fn describe(node: &Element) -> (r: String)
    ensures
        r@ == spec_describe(*node),
{
    string_from_chars(&describe_chars(node))
}

/// The visible bounds are smaller than the full bounds by more than 1 in
/// width or height.
pub open spec fn spec_is_clipped(n: Element) -> bool {
    match n.visible_bounds {
        Some(vb) => vb.width + 1 < n.bounds.width || vb.height + 1 < n.bounds.height,
        None => false,
    }
}

/// Whether the node is partly off-screen or clipped (beyond a 1px
/// rounding tolerance).
pub fn is_clipped(node: &Element) -> (r: bool)
    ensures
        r == spec_is_clipped(*node),
{
    match node.visible_bounds {
        Some(vb) => (vb.width as i64) + 1 < node.bounds.width as i64 || (vb.height as i64) + 1
            < node.bounds.height as i64,
        None => false,
    }
}

// ── Rectangle relations ──────────────────────────────────────────────

/// `a` and `b` are the same rectangle.
pub open spec fn spec_coincident(a: Bounds, b: Bounds) -> bool {
    a.x == b.x && a.y == b.y && a.width == b.width && a.height == b.height
}

/// Whether two bounds occupy the same rectangle.
pub fn coincident(a: &Bounds, b: &Bounds) -> (r: bool)
    ensures
        r == spec_coincident(*a, *b),
{
    a.x == b.x && a.y == b.y && a.width == b.width && a.height == b.height
}

/// `inner` lies entirely within `outer`.
pub open spec fn spec_encloses(outer: Bounds, inner: Bounds) -> bool {
    &&& inner.x >= outer.x
    &&& inner.y >= outer.y
    &&& inner.x + inner.width <= outer.x + outer.width
    &&& inner.y + inner.height <= outer.y + outer.height
}

/// Whether `outer` fully encloses `inner`.
pub fn encloses(outer: &Bounds, inner: &Bounds) -> (r: bool)
    ensures
        r == spec_encloses(*outer, *inner),
{
    inner.x >= outer.x && inner.y >= outer.y && (inner.x as i64) + (inner.width as i64) <= (
    outer.x as i64) + (outer.width as i64) && (inner.y as i64) + (inner.height as i64) <= (
    outer.y as i64) + (outer.height as i64)
}

/// The two rectangles share interior area.
pub open spec fn spec_intersects(a: Bounds, b: Bounds) -> bool {
    &&& a.x < b.x + b.width
    &&& b.x < a.x + a.width
    &&& a.y < b.y + b.height
    &&& b.y < a.y + a.height
}

/// Whether two rectangles share interior area.
pub fn intersects(a: &Bounds, b: &Bounds) -> (r: bool)
    ensures
        r == spec_intersects(*a, *b),
{
    (a.x as i64) < (b.x as i64) + (b.width as i64) && (b.x as i64) < (a.x as i64) + (a.width as i64)
        && (a.y as i64) < (b.y as i64) + (b.height as i64) && (b.y as i64) < (a.y as i64) + (
    a.height as i64)
}

// ── Findings ─────────────────────────────────────────────────────────

/// `i` is a deterministic finding of check `check` with severity `sev` and
/// message `msg` about `node`, marking `b` and the further rectangles
/// `related`.
pub open spec fn issue_is(
    i: A11yIssue,
    check: Seq<char>,
    sev: Severity,
    msg: Seq<char>,
    node: Element,
    b: Bounds,
    related: Seq<Bounds>,
) -> bool {
    &&& i.check_id@ == check
    &&& i.severity == sev
    &&& i.message@ == msg
    &&& i.element_type@ == node.element_type@
    &&& opt_view(i.element_label) == spec_label_of(node)
    &&& i.element_bounds == Some(b)
    &&& i.related_bounds@ == related
    &&& i.detail is None
}

fn issue(
    check_id: &str,
    severity: Severity,
    message: Vec<char>,
    node: &Element,
    bounds: Bounds,
    related: Vec<Bounds>,
) -> (r: A11yIssue)
    ensures
        issue_is(r, check_id@, severity, message@, *node, bounds, related@),
{
    A11yIssue {
        check_id: string_from_chars(&chars_of(check_id)),
        severity,
        message: string_from_chars(&message),
        element_type: node.element_type.clone(),
        element_label: label_of(node),
        element_bounds: Some(bounds),
        related_bounds: related,
        detail: None,
    }
}

/// The message of a missing-label finding.
pub open spec fn missing_label_message(n: Element) -> Seq<char> {
    n.element_type@ + " has no text or accessibility label"@
}

/// `missing_label`: an error when neither the control nor any descendant
/// carries text or an accessibility label; nothing otherwise.
pub fn check_missing_label(node: &Element, out: &mut Vec<A11yIssue>)
    ensures
        spec_subtree_has_name(*node) ==> final(out)@ == old(out)@,
        !spec_subtree_has_name(*node) ==> {
            &&& final(out)@.len() == old(out)@.len() + 1
            &&& final(out)@.drop_last() == old(out)@
            &&& issue_is(
                final(out)@.last(),
                "missing_label"@,
                Severity::Error,
                missing_label_message(*node),
                *node,
                spec_effective_bounds(*node),
                Seq::empty(),
            )
        },
{
    if !subtree_has_name(node) {
        let mut msg = chars_of(node.element_type.as_str());
        append_str(&mut msg, " has no text or accessibility label");
        let iss = issue("missing_label", Severity::Error, msg, node, effective_bounds(node), Vec::new());
        out.push(iss);
        assert(out@.drop_last() =~= old(out)@);
    }
}

// ── Duplicate labels ─────────────────────────────────────────────────

/// The node's text, when present and non-empty.
pub open spec fn visible_text(n: Element) -> Option<Seq<char>> {
    if n.text is Some && n.text->0@.len() > 0 {
        Some(n.text->0@)
    } else {
        None
    }
}

/// The members of `s` whose non-empty text is `t`, in order.
pub open spec fn text_members(s: Seq<&Element>, t: Seq<char>) -> Seq<&Element>
    decreases s.len(),
{
    if s.len() == 0 {
        Seq::empty()
    } else if visible_text(*s.last()) == Some(t) {
        text_members(s.drop_last(), t).push(s.last())
    } else {
        text_members(s.drop_last(), t)
    }
}

/// The effective bounds of each node, in order.
pub open spec fn bounds_of(s: Seq<&Element>) -> Seq<Bounds> {
    s.map_values(|e: &Element| spec_effective_bounds(*e))
}

/// `s[i]` carries a non-empty text that no earlier member carries.
pub open spec fn first_with_text(s: Seq<&Element>, i: int) -> bool {
    &&& visible_text(*s[i]) is Some
    &&& forall|j: int| 0 <= j < i ==> visible_text(*#[trigger] s[j]) != visible_text(*s[i])
}

/// Indices below `n` of the first member of each text shared by two or more
/// members, in order.
pub open spec fn dup_primaries(s: Seq<&Element>, n: int) -> Seq<int>
    decreases n,
{
    if n <= 0 {
        Seq::empty()
    } else if first_with_text(s, n - 1) && text_members(s, visible_text(*s[n - 1])->0).len() >= 2 {
        dup_primaries(s, n - 1).push(n - 1)
    } else {
        dup_primaries(s, n - 1)
    }
}

/// The message of a duplicate-labels finding for `n` members of type `ty`
/// labelled `t`.
pub open spec fn dup_message(n: nat, ty: Seq<char>, t: Seq<char>) -> Seq<char> {
    crate::text::spec_decimal(n) + " sibling "@ + ty + "s labelled \""@ + t + "\""@
}

/// `iss` is the finding for the group whose first member is `s[p]`: it
/// marks that member and carries the later members as related rectangles.
pub open spec fn dup_issue_ok(iss: A11yIssue, s: Seq<&Element>, p: int) -> bool {
    let t = visible_text(*s[p])->0;
    issue_is(
        iss,
        "duplicate_labels"@,
        Severity::Warning,
        dup_message(text_members(s, t).len(), s[p].element_type@, t),
        *s[p],
        spec_effective_bounds(*s[p]),
        bounds_of(text_members(s.skip(p + 1), t)),
    )
}

fn text_chars(node: &Element) -> (r: Option<Vec<char>>)
    ensures
        match r {
            Some(v) => visible_text(*node) == Some(v@),
            None => visible_text(*node) is None,
        },
{
    match &node.text {
        Some(t) => {
            if t.as_str().is_empty() {
                None
            } else {
                Some(chars_of(t.as_str()))
            }
        },
        None => None,
    }
}

fn text_before(s: &[&Element], i: usize, t: &Vec<char>) -> (r: bool)
    requires
        i <= s@.len(),
    ensures
        r == exists|j: int| 0 <= j < i && visible_text(*#[trigger] s@[j]) == Some(t@),
{
    let mut j: usize = 0;
    while j < i
        invariant
            j <= i <= s@.len(),
            forall|k: int| 0 <= k < j ==> visible_text(*#[trigger] s@[k]) != Some(t@),
        decreases i - j,
    {
        match text_chars(s[j]) {
            Some(v) => {
                if chars_eq(&v, t) {
                    return true;
                }
            },
            None => {},
        }
        j = j + 1;
    }
    false
}

fn members_between(s: &[&Element], from: usize, t: &Vec<char>) -> (r: (usize, Vec<Bounds>))
    requires
        from <= s@.len(),
    ensures
        r.0 == text_members(s@.skip(from as int), t@).len(),
        r.1@ == bounds_of(text_members(s@.skip(from as int), t@)),
{
    let mut n: usize = 0;
    let mut b: Vec<Bounds> = Vec::new();
    let mut k: usize = from;
    while k < s.len()
        invariant
            from <= k <= s@.len(),
            n == text_members(s@.subrange(from as int, k as int), t@).len(),
            n <= k - from,
            b@ == bounds_of(text_members(s@.subrange(from as int, k as int), t@)),
        decreases s@.len() - k,
    {
        let ghost pre = s@.subrange(from as int, k as int);
        let ghost nxt = s@.subrange(from as int, k + 1);
        assert(nxt.drop_last() =~= pre);
        assert(nxt.last() == s@[k as int]);
        match text_chars(s[k]) {
            Some(v) => {
                if chars_eq(&v, t) {
                    n = n + 1;
                    b.push(effective_bounds(s[k]));
                    assert(b@ =~= bounds_of(text_members(nxt, t@)));
                } else {
                    assert(text_members(nxt, t@) == text_members(pre, t@));
                }
            },
            None => {},
        }
        k = k + 1;
    }
    assert(s@.subrange(from as int, s@.len() as int) =~= s@.skip(from as int));
    (n, b)
}

/// `duplicate_labels`: sibling controls sharing a non-empty text. One
/// warning per text shared by two or more siblings, in the order the texts
/// first occur; it marks the first such sibling, names how many share the
/// text, and carries the others' rectangles.
pub fn check_duplicate_labels(siblings: &[&Element], out: &mut Vec<A11yIssue>)
    ensures
        final(out)@.len() == old(out)@.len() + dup_primaries(siblings@, siblings@.len() as int).len(),
        final(out)@.take(old(out)@.len() as int) == old(out)@,
        forall|k: int|
            0 <= k < dup_primaries(siblings@, siblings@.len() as int).len() ==> dup_issue_ok(
                #[trigger] final(out)@[old(out)@.len() + k],
                siblings@,
                dup_primaries(siblings@, siblings@.len() as int)[k],
            ),
{
    let ghost s = siblings@;
    let ghost start = out@;
    let mut i: usize = 0;
    while i < siblings.len()
        invariant
            s == siblings@,
            i <= s.len(),
            out@.len() == start.len() + dup_primaries(s, i as int).len(),
            out@.take(start.len() as int) == start,
            forall|k: int|
                0 <= k < dup_primaries(s, i as int).len() ==> dup_issue_ok(
                    #[trigger] out@[start.len() + k],
                    s,
                    dup_primaries(s, i as int)[k],
                ),
        decreases s.len() - i,
    {
        let ghost before = out@;
        let mut pushed = false;
        match text_chars(siblings[i]) {
            Some(t) => {
                if !text_before(siblings, i, &t) {
                    let (total, _) = members_between(siblings, 0, &t);
                    assert(s.skip(0) =~= s);
                    assert(first_with_text(s, i as int));
                    if total >= 2 {
                        let (_, related) = members_between(siblings, i + 1, &t);
                        let mut msg: Vec<char> = Vec::new();
                        push_decimal(&mut msg, total as u64);
                        append_str(&mut msg, " sibling ");
                        append_str(&mut msg, siblings[i].element_type.as_str());
                        append_str(&mut msg, "s labelled \"");
                        append_chars(&mut msg, &t);
                        append_str(&mut msg, "\"");
                        let iss = issue(
                            "duplicate_labels",
                            Severity::Warning,
                            msg,
                            siblings[i],
                            effective_bounds(siblings[i]),
                            related,
                        );
                        out.push(iss);
                        pushed = true;
                        assert(dup_issue_ok(out@.last(), s, i as int));
                    }
                } else {
                    assert(!first_with_text(s, i as int));
                }
            },
            None => {},
        }
        proof {
            let p0 = dup_primaries(s, i as int);
            let p1 = dup_primaries(s, i + 1);
            if pushed {
                assert(p1 == p0.push(i as int));
                assert(out@ == before.push(out@.last()));
            } else {
                assert(p1 == p0);
                assert(out@ == before);
            }
            assert(out@.take(start.len() as int) =~= start);
            assert forall|k: int| 0 <= k < p1.len() implies dup_issue_ok(
                #[trigger] out@[start.len() + k],
                s,
                p1[k],
            ) by {
                if k < p0.len() {
                    assert(out@[start.len() + k] == before[start.len() + k]);
                }
            }
        }
        i = i + 1;
    }
}

// ── Overlapping controls ─────────────────────────────────────────────

/// Sibling groups larger than this are not checked for overlaps.
pub const MAX_OVERLAP_SIBLINGS: usize = 200;

/// Two rectangles overlap in a way worth reporting: they share area, and
/// neither is the same rectangle as, nor encloses, the other.
pub open spec fn spec_overlapping(a: Bounds, b: Bounds) -> bool {
    spec_intersects(a, b) && !spec_coincident(a, b) && !spec_encloses(a, b) && !spec_encloses(b, a)
}

/// The pairs `(i, j)` with `i < j < m` whose effective bounds overlap, by `j`.
pub open spec fn pairs_in_row(s: Seq<&Element>, i: int, m: int) -> Seq<(int, int)>
    decreases m - i,
{
    if m <= i + 1 {
        Seq::empty()
    } else if spec_overlapping(spec_effective_bounds(*s[i]), spec_effective_bounds(*s[m - 1])) {
        pairs_in_row(s, i, m - 1).push((i, m - 1))
    } else {
        pairs_in_row(s, i, m - 1)
    }
}

/// The overlapping pairs `(i, j)`, `i < j`, with `i < n`, in order of `i`
/// then `j`.
pub open spec fn overlap_pairs(s: Seq<&Element>, n: int) -> Seq<(int, int)>
    decreases n,
{
    if n <= 0 {
        Seq::empty()
    } else {
        overlap_pairs(s, n - 1) + pairs_in_row(s, n - 1, s.len() as int)
    }
}

/// `iss` is the finding for the overlapping pair `p`: it names both
/// controls, marks the first and carries the second's rectangle.
pub open spec fn overlap_issue_ok(iss: A11yIssue, s: Seq<&Element>, p: (int, int)) -> bool {
    issue_is(
        iss,
        "overlapping_interactive"@,
        Severity::Warning,
        spec_describe(*s[p.0]) + " overlaps "@ + spec_describe(*s[p.1]),
        *s[p.0],
        spec_effective_bounds(*s[p.0]),
        seq![spec_effective_bounds(*s[p.1])],
    )
}

fn overlaps_of_row(siblings: &[&Element], i: usize, out: &mut Vec<A11yIssue>)
    requires
        i < siblings@.len(),
    ensures
        final(out)@.len() == old(out)@.len() + pairs_in_row(siblings@, i as int, siblings@.len() as int).len(),
        final(out)@.take(old(out)@.len() as int) == old(out)@,
        forall|k: int|
            0 <= k < pairs_in_row(siblings@, i as int, siblings@.len() as int).len() ==> overlap_issue_ok(
                #[trigger] final(out)@[old(out)@.len() + k],
                siblings@,
                pairs_in_row(siblings@, i as int, siblings@.len() as int)[k],
            ),
{
    let ghost s = siblings@;
    let ghost start = out@;
    let a = effective_bounds(siblings[i]);
    let mut j: usize = i + 1;
    while j < siblings.len()
        invariant
            s == siblings@,
            i < j <= s.len(),
            a == spec_effective_bounds(*s[i as int]),
            out@.len() == start.len() + pairs_in_row(s, i as int, j as int).len(),
            out@.take(start.len() as int) == start,
            forall|k: int|
                0 <= k < pairs_in_row(s, i as int, j as int).len() ==> overlap_issue_ok(
                    #[trigger] out@[start.len() + k],
                    s,
                    pairs_in_row(s, i as int, j as int)[k],
                ),
        decreases s.len() - j,
    {
        let ghost before = out@;
        let b = effective_bounds(siblings[j]);
        let hit = intersects(&a, &b) && !coincident(&a, &b) && !encloses(&a, &b) && !encloses(&b, &a);
        if hit {
            let mut msg = describe_chars(siblings[i]);
            append_str(&mut msg, " overlaps ");
            let other = describe_chars(siblings[j]);
            append_chars(&mut msg, &other);
            let mut related: Vec<Bounds> = Vec::new();
            related.push(b);
            assert(related@ =~= seq![b]);
            let iss = issue("overlapping_interactive", Severity::Warning, msg, siblings[i], a, related);
            out.push(iss);
        }
        proof {
            let p0 = pairs_in_row(s, i as int, j as int);
            let p1 = pairs_in_row(s, i as int, j + 1);
            if hit {
                assert(p1 == p0.push((i as int, j as int)));
                assert(out@ == before.push(out@.last()));
            } else {
                assert(p1 == p0);
            }
            assert(out@.take(start.len() as int) =~= start);
            assert forall|k: int| 0 <= k < p1.len() implies overlap_issue_ok(
                #[trigger] out@[start.len() + k],
                s,
                p1[k],
            ) by {
                if k < p0.len() {
                    assert(out@[start.len() + k] == before[start.len() + k]);
                }
            }
        }
        j = j + 1;
    }
}

/// `overlapping_interactive`: one warning per pair of sibling controls whose
/// rectangles share area (neither the same rectangle nor one enclosing the
/// other), in order of the first then the second sibling. Groups of more
/// than `MAX_OVERLAP_SIBLINGS` siblings are not checked.
pub fn check_overlapping(siblings: &[&Element], out: &mut Vec<A11yIssue>)
    ensures
        siblings@.len() > MAX_OVERLAP_SIBLINGS ==> final(out)@ == old(out)@,
        siblings@.len() <= MAX_OVERLAP_SIBLINGS ==> {
            let ps = overlap_pairs(siblings@, siblings@.len() as int);
            &&& final(out)@.len() == old(out)@.len() + ps.len()
            &&& final(out)@.take(old(out)@.len() as int) == old(out)@
            &&& forall|k: int|
                0 <= k < ps.len() ==> overlap_issue_ok(
                    #[trigger] final(out)@[old(out)@.len() + k],
                    siblings@,
                    ps[k],
                )
        },
{
    if siblings.len() > MAX_OVERLAP_SIBLINGS {
        return;
    }
    let ghost s = siblings@;
    let ghost start = out@;
    let mut i: usize = 0;
    while i < siblings.len()
        invariant
            s == siblings@,
            i <= s.len(),
            out@.len() == start.len() + overlap_pairs(s, i as int).len(),
            out@.take(start.len() as int) == start,
            forall|k: int|
                0 <= k < overlap_pairs(s, i as int).len() ==> overlap_issue_ok(
                    #[trigger] out@[start.len() + k],
                    s,
                    overlap_pairs(s, i as int)[k],
                ),
        decreases s.len() - i,
    {
        let ghost before = out@;
        overlaps_of_row(siblings, i, out);
        proof {
            let p0 = overlap_pairs(s, i as int);
            let row = pairs_in_row(s, i as int, s.len() as int);
            let p1 = overlap_pairs(s, i + 1);
            assert(p1 == p0 + row);
            assert(out@.take(before.len() as int) == before);
            assert(out@.take(start.len() as int) =~= start) by {
                assert(before.take(start.len() as int) == start);
                assert forall|m: int| 0 <= m < start.len() implies out@[m] == start[m] by {
                    assert(out@.take(before.len() as int)[m] == before[m]);
                }
            }
            assert forall|k: int| 0 <= k < p1.len() implies overlap_issue_ok(
                #[trigger] out@[start.len() + k],
                s,
                p1[k],
            ) by {
                if k < p0.len() {
                    assert(out@.take(before.len() as int)[start.len() + k] == before[start.len() + k]);
                } else {
                    let r = k - p0.len();
                    assert(p1[k] == row[r]);
                    assert(start.len() + k == before.len() + r);
                }
            }
        }
        i = i + 1;
    }
}

// ── Occlusion cells ──────────────────────────────────────────────────

/// The column (or row) 0, 1 or 2 of a 3×3 grid over an extent of `w` units
/// that offset `d` (from the extent's start) falls in.
pub open spec fn cell_index(d: int, w: int) -> int {
    if d < 0 {
        0
    } else if (3 * d) / w > 2 {
        2
    } else {
        (3 * d) / w
    }
}

/// The 3×3 sub-cell of `b` holding the point `(px, py)` (extents below 1
/// count as 1; a cell is at least 1 wide and high).
pub open spec fn spec_occlusion_cell(b: Bounds, px: int, py: int) -> (int, int, int, int) {
    let w = if b.width < 1 { 1 } else { b.width as int };
    let h = if b.height < 1 { 1 } else { b.height as int };
    let col = cell_index(px - b.x, w);
    let row = cell_index(py - b.y, h);
    (b.x + col * (w / 3), b.y + row * (h / 3), if w / 3 < 1 { 1 } else { w / 3 }, if h / 3 < 1 {
        1
    } else {
        h / 3
    })
}

/// The 3×3 sub-cell of `b` containing the point `(px, py)`; points outside
/// `b` map to the nearest edge cell.
pub fn occlusion_cell_rect(b: &Bounds, px: i32, py: i32) -> (r: Bounds)
    requires
        i32::MIN <= 3 * (px - b.x) <= i32::MAX,
        i32::MIN <= 3 * (py - b.y) <= i32::MAX,
        spec_occlusion_cell(*b, px as int, py as int).0 <= i32::MAX,
        spec_occlusion_cell(*b, px as int, py as int).1 <= i32::MAX,
    ensures
        (r.x as int, r.y as int, r.width as int, r.height as int) == spec_occlusion_cell(*b, px as int, py as int),
{
    let w: i64 = if b.width < 1 { 1 } else { b.width as i64 };
    let h: i64 = if b.height < 1 { 1 } else { b.height as i64 };
    let dx = (px as i64 - b.x as i64) * 3;
    let dy = (py as i64 - b.y as i64) * 3;
    let col: i64 = if dx < 0 { 0 } else if dx / w > 2 { 2 } else { dx / w };
    let row: i64 = if dy < 0 { 0 } else if dy / h > 2 { 2 } else { dy / h };
    proof {
        assert(0 <= col * (w / 3) <= 2 * w) by (nonlinear_arith)
            requires
                0 <= col <= 2,
                w >= 1,
        ;
        assert(0 <= row * (h / 3) <= 2 * h) by (nonlinear_arith)
            requires
                0 <= row <= 2,
                h >= 1,
        ;
    }
    let x = b.x as i64 + col * (w / 3);
    let y = b.y as i64 + row * (h / 3);
    let cw = if w / 3 < 1 { 1 } else { w / 3 };
    let ch = if h / 3 < 1 { 1 } else { h / 3 };
    Bounds { x: x as i32, y: y as i32, width: cw as i32, height: ch as i32 }
}

// ── Laws ─────────────────────────────────────────────────────────────

/// Overlap is symmetric: a pair overlaps whichever control comes first.
pub proof fn lemma_overlapping_symmetric(a: Bounds, b: Bounds)
    ensures
        spec_overlapping(a, b) == spec_overlapping(b, a),
{
}

proof fn lemma_members_split(s: Seq<&Element>, t: Seq<char>, k: int)
    requires
        0 <= k <= s.len(),
    ensures
        text_members(s, t) == text_members(s.take(k), t) + text_members(s.skip(k), t),
    decreases s.len() - k,
{
    if k == s.len() {
        assert(s.take(k) =~= s);
        assert(s.skip(k) =~= Seq::<&Element>::empty());
        assert(text_members(s.take(k), t) + Seq::<&Element>::empty() =~= text_members(s.take(k), t));
    } else {
        lemma_members_split(s.drop_last(), t, k);
        assert(s.drop_last().take(k) =~= s.take(k));
        assert(s.skip(k).drop_last() =~= s.drop_last().skip(k));
        assert(s.skip(k).last() == s.last());
    }
}

proof fn lemma_members_before_first(s: Seq<&Element>, t: Seq<char>, p: int)
    requires
        0 <= p < s.len(),
        forall|j: int| 0 <= j < p ==> visible_text(*#[trigger] s[j]) != Some(t),
        visible_text(*s[p]) == Some(t),
    ensures
        text_members(s.take(p + 1), t) == seq![s[p]],
{
    assert forall|m: int| 0 <= m <= p implies #[trigger] text_members(s.take(m), t) == Seq::<
        &Element,
    >::empty() by {
        lemma_members_none(s, t, m);
    }
    let u = s.take(p + 1);
    assert(u.drop_last() =~= s.take(p));
    assert(u.last() == s[p]);
    assert(text_members(s.take(p), t) == Seq::<&Element>::empty());
}

proof fn lemma_members_none(s: Seq<&Element>, t: Seq<char>, m: int)
    requires
        0 <= m < s.len(),
        forall|j: int| 0 <= j < m ==> visible_text(*#[trigger] s[j]) != Some(t),
    ensures
        text_members(s.take(m), t) == Seq::<&Element>::empty(),
    decreases m,
{
    if m > 0 {
        lemma_members_none(s, t, m - 1);
        let u = s.take(m);
        assert(u.drop_last() =~= s.take(m - 1));
        assert(u.last() == s[m - 1]);
    }
}

/// Each duplicate-labels finding covers its whole group: its first member
/// plus one related rectangle for every other sibling with that text, and
/// the group has at least two members.
pub proof fn lemma_duplicate_group_is_whole(s: Seq<&Element>, k: int)
    requires
        0 <= k < dup_primaries(s, s.len() as int).len(),
    ensures
        ({
            let p = dup_primaries(s, s.len() as int)[k];
            let t = visible_text(*s[p])->0;
            &&& 0 <= p < s.len()
            &&& text_members(s, t).len() >= 2
            &&& text_members(s.skip(p + 1), t).len() + 1 == text_members(s, t).len()
        }),
{
    lemma_dup_primaries_ok(s, s.len() as int);
    let p = dup_primaries(s, s.len() as int)[k];
    let t = visible_text(*s[p])->0;
    assert forall|j: int| 0 <= j < p implies visible_text(*#[trigger] s[j]) != Some(t) by {
        assert(first_with_text(s, p));
    }
    lemma_members_before_first(s, t, p);
    lemma_members_split(s, t, p + 1);
}

proof fn lemma_dup_primaries_ok(s: Seq<&Element>, n: int)
    requires
        n <= s.len(),
    ensures
        forall|k: int|
            0 <= k < dup_primaries(s, n).len() ==> {
                let p = #[trigger] dup_primaries(s, n)[k];
                &&& 0 <= p < n
                &&& first_with_text(s, p)
                &&& text_members(s, visible_text(*s[p])->0).len() >= 2
            },
    decreases n,
{
    if n > 0 {
        lemma_dup_primaries_ok(s, n - 1);
    }
}


/// On a box whose sides divide into thirds, the cell of a point inside the
/// box is the third-by-third cell that holds it.
pub proof fn lemma_occlusion_cell_holds_point(b: Bounds, px: int, py: int)
    requires
        b.width >= 3,
        b.height >= 3,
        b.width % 3 == 0,
        b.height % 3 == 0,
        b.x <= px < b.x + b.width,
        b.y <= py < b.y + b.height,
    ensures
        ({
            let c = spec_occlusion_cell(b, px, py);
            &&& c.2 == b.width / 3 && c.3 == b.height / 3
            &&& c.0 <= px < c.0 + c.2
            &&& c.1 <= py < c.1 + c.3
            &&& b.x <= c.0 && c.0 + c.2 <= b.x + b.width
            &&& b.y <= c.1 && c.1 + c.3 <= b.y + b.height
        }),
{
    lemma_third_cell(px - b.x, b.width as int);
    lemma_third_cell(py - b.y, b.height as int);
}

proof fn lemma_third_cell(d: int, w: int)
    requires
        w >= 3,
        w % 3 == 0,
        0 <= d < w,
    ensures
        cell_index(d, w) * (w / 3) <= d < cell_index(d, w) * (w / 3) + w / 3,
        0 <= cell_index(d, w) <= 2,
        cell_index(d, w) * (w / 3) + w / 3 <= w,
{
    let k = w / 3;
    assert(w == 3 * k);
    assert((3 * d) / w == d / k) by (nonlinear_arith)
        requires
            w == 3 * k,
            k >= 1,
            d >= 0,
    ;
    assert(d / k <= 2 && d / k >= 0) by (nonlinear_arith)
        requires
            0 <= d < 3 * k,
            k >= 1,
    ;
    assert((d / k) * k <= d < (d / k) * k + k) by (nonlinear_arith)
        requires
            k >= 1,
            d >= 0,
    ;
    assert((d / k) * k + k <= 3 * k) by (nonlinear_arith)
        requires
            d / k <= 2,
            k >= 1,
    ;
}

/// Intersection is symmetric, and a box of positive size both encloses and
/// intersects itself; a coincident box encloses the other.
pub proof fn lemma_rect_relations(a: Bounds, b: Bounds)
    ensures
        spec_intersects(a, b) == spec_intersects(b, a),
        spec_encloses(a, a),
        a.width > 0 && a.height > 0 ==> spec_intersects(a, a),
        spec_coincident(a, b) ==> spec_encloses(a, b) && spec_encloses(b, a),
        spec_encloses(a, b) && b.width > 0 && b.height > 0 ==> spec_intersects(a, b),
{
}

} // verus!
