//! Decisions behind touch interactions: swipe directions and end points,
//! the nudge that brings a half-visible container on screen, and finding
//! the real switch inside a switch row.
use vstd::prelude::*;
use crate::element::{Bounds, Element};
use crate::text::{append_str, str_eq, string_from_chars};

verus! {

/// The visible screen area, in the tree's coordinate space.
#[derive(Debug, Clone, Copy, PartialEq, Eq, Structural)]
pub struct Viewport {
    pub width: i32,
    pub height: i32,
}

/// A swipe or scroll direction.
#[derive(Debug, Clone, Copy, PartialEq, Eq, Structural)]
pub enum Direction {
    Up,
    Down,
    Left,
    Right,
}

/// Integer division rounding toward zero (Rust's `/` on signed integers),
/// for a positive divisor.
pub open spec fn tdiv(a: int, b: int) -> int {
    if a >= 0 {
        a / b
    } else {
        -((-a) / b)
    }
}

pub(crate) fn tdiv_exec(a: i64, b: i64) -> (r: i64)
    requires
        b > 0,
        a > i64::MIN,
    ensures
        r == tdiv(a as int, b as int),
{
    if a >= 0 {
        a / b
    } else {
        -((-a) / b)
    }
}

/// The direction a step's `direction` text names: `up`, `down`, `left` or
/// `right`, exactly.
pub open spec fn spec_direction(s: Seq<char>) -> Option<Direction> {
    if s == "up"@ {
        Some(Direction::Up)
    } else if s == "down"@ {
        Some(Direction::Down)
    } else if s == "left"@ {
        Some(Direction::Left)
    } else if s == "right"@ {
        Some(Direction::Right)
    } else {
        None
    }
}

/// Parses a swipe or scroll direction; `None` for anything else.
pub fn parse_direction(s: &str) -> (r: Option<Direction>)
    ensures
        r == spec_direction(s@),
{
    if str_eq(s, "up") {
        Some(Direction::Up)
    } else if str_eq(s, "down") {
        Some(Direction::Down)
    } else if str_eq(s, "left") {
        Some(Direction::Left)
    } else if str_eq(s, "right") {
        Some(Direction::Right)
    } else {
        None
    }
}

/// The viewport above an on-screen keyboard of `keyboard_height` (a height
/// of 0 or less means no keyboard).
pub open spec fn spec_above_keyboard(vp: Viewport, keyboard_height: i32) -> Viewport {
    if keyboard_height > 0 {
        Viewport { width: vp.width, height: (vp.height - keyboard_height) as i32 }
    } else {
        vp
    }
}

/// The viewport shrunk by the keyboard's height, when one is shown.
pub fn above_keyboard(vp: Viewport, keyboard_height: i32) -> (r: Viewport)
    requires
        keyboard_height > 0 ==> vp.height - keyboard_height >= i32::MIN,
    ensures
        r == spec_above_keyboard(vp, keyboard_height),
{
    if keyboard_height > 0 {
        Viewport { width: vp.width, height: vp.height - keyboard_height }
    } else {
        vp
    }
}

/// The end point of a one-point swipe from `start` in direction `dir`:
/// two fifths of the viewport height away. `None` for an unknown direction.
pub open spec fn spec_swipe_end(start: (i32, i32), dir: Seq<char>, vp_height: int) -> Option<(int, int)> {
    let d = tdiv(2 * vp_height, 5);
    match spec_direction(dir) {
        Some(Direction::Up) => Some((start.0 as int, start.1 - d)),
        Some(Direction::Down) => Some((start.0 as int, start.1 + d)),
        Some(Direction::Left) => Some((start.0 - d, start.1 as int)),
        Some(Direction::Right) => Some((start.0 + d, start.1 as int)),
        None => None,
    }
}

/// Completes a swipe given by one point and a direction: the second point
/// lies two fifths of the viewport height away in that direction. `None`
/// when the direction is missing or unknown.
pub fn swipe_end(start: (i32, i32), dir: &str, vp_height: i32) -> (r: Option<(i32, i32)>)
    requires
        spec_swipe_end(start, dir@, vp_height as int) matches Some(e) ==> i32::MIN <= e.0 <= i32::MAX
            && i32::MIN <= e.1 <= i32::MAX,
    ensures
        match r {
            Some(e) => spec_swipe_end(start, dir@, vp_height as int) == Some((e.0 as int, e.1 as int)),
            None => spec_swipe_end(start, dir@, vp_height as int) is None,
        },
{
    let d = tdiv_exec(2 * (vp_height as i64), 5);
    let (sx, sy) = (start.0 as i64, start.1 as i64);
    match parse_direction(dir) {
        Some(Direction::Up) => Some((start.0, (sy - d) as i32)),
        Some(Direction::Down) => Some((start.0, (sy + d) as i32)),
        Some(Direction::Left) => Some(((sx - d) as i32, start.1)),
        Some(Direction::Right) => Some(((sx + d) as i32, start.1)),
        None => None,
    }
}

/// The swipe (from x, from y, to x, to y) that brings more of a container
/// with bounds `b` into view: up through the centre when it extends more
/// than 50 below the viewport (and starts more than 50 from the top), down
/// when it extends more than 50 above it (and ends more than 50 above the
/// bottom); by the overflow, at most a third of the viewport height.
pub open spec fn spec_nudge_swipe(b: Bounds, vp: Viewport) -> Option<(int, int, int, int)> {
    let bottom_overflow = b.y + b.height - vp.height;
    let top_overflow = -b.y;
    let third = tdiv(vp.height as int, 3);
    let cx = tdiv(vp.width as int, 2);
    let cy = tdiv(vp.height as int, 2);
    if bottom_overflow > 50 && b.y > 50 {
        let d = if bottom_overflow < third { bottom_overflow } else { third };
        Some((cx, cy + tdiv(d, 2), cx, cy - tdiv(d, 2)))
    } else if top_overflow > 50 && b.y + b.height < vp.height - 50 {
        let d = if top_overflow < third { top_overflow } else { third };
        Some((cx, cy - tdiv(d, 2), cx, cy + tdiv(d, 2)))
    } else {
        None
    }
}

/// The swipe, if any, that nudges a partly off-screen container into view.
pub fn nudge_swipe(b: &Bounds, vp: &Viewport) -> (r: Option<(i32, i32, i32, i32)>)
    ensures
        match r {
            Some(s) => spec_nudge_swipe(*b, *vp) == Some((s.0 as int, s.1 as int, s.2 as int, s.3 as int)),
            None => spec_nudge_swipe(*b, *vp) is None,
        },
{
    let by = b.y as i64;
    let bottom = by + b.height as i64;
    let vh = vp.height as i64;
    let bottom_overflow = bottom - vh;
    let top_overflow = -by;
    let third = tdiv_exec(vh, 3);
    let cx = tdiv_exec(vp.width as i64, 2);
    let cy = tdiv_exec(vh, 2);
    if bottom_overflow > 50 && by > 50 {
        let d = if bottom_overflow < third { bottom_overflow } else { third };
        let h = tdiv_exec(d, 2);
        Some((cx as i32, (cy + h) as i32, cx as i32, (cy - h) as i32))
    } else if top_overflow > 50 && bottom < vh - 50 {
        let d = if top_overflow < third { top_overflow } else { third };
        let h = tdiv_exec(d, 2);
        Some((cx as i32, (cy - h) as i32, cx as i32, (cy + h) as i32))
    } else {
        None
    }
}

/// Slack allowed when a switch's frame pokes out of its row.
pub const TOGGLE_TOLERANCE: i32 = 4;

/// `b` could be the switch control of the row `outer`: it fits inside
/// (within the tolerance), is smaller in some dimension, and its centre
/// lies right of the row's centre.
pub open spec fn spec_is_inner_toggle(b: Bounds, outer: Bounds) -> bool {
    &&& b.x + 4 >= outer.x
    &&& b.y + 4 >= outer.y
    &&& b.x + b.width <= outer.x + outer.width + 4
    &&& b.y + b.height <= outer.y + outer.height + 4
    &&& (b.width < outer.width || b.height < outer.height)
    &&& b.x + tdiv(b.width as int, 2) > outer.x + tdiv(outer.width as int, 2)
}

/// The first candidate that is the switch control of the row `outer`.
pub fn inner_toggle(candidates: &[Bounds], outer: &Bounds) -> (r: Option<Bounds>)
    ensures
        match r {
            Some(b) => exists|i: int|
                0 <= i < candidates@.len() && candidates@[i] == b && spec_is_inner_toggle(b, *outer)
                    && forall|j: int| 0 <= j < i ==> !spec_is_inner_toggle(#[trigger] candidates@[j], *outer),
            None => forall|j: int|
                0 <= j < candidates@.len() ==> !spec_is_inner_toggle(#[trigger] candidates@[j], *outer),
        },
{
    let ox = outer.x as i64;
    let oy = outer.y as i64;
    let ow = outer.width as i64;
    let oh = outer.height as i64;
    let ocx = ox + tdiv_exec(ow, 2);
    let mut i: usize = 0;
    while i < candidates.len()
        invariant
            i <= candidates@.len(),
            ox == outer.x,
            oy == outer.y,
            ow == outer.width,
            oh == outer.height,
            ocx == outer.x + tdiv(outer.width as int, 2),
            forall|j: int| 0 <= j < i ==> !spec_is_inner_toggle(#[trigger] candidates@[j], *outer),
        decreases candidates@.len() - i,
    {
        let b = candidates[i];
        let bx = b.x as i64;
        let by = b.y as i64;
        let bw = b.width as i64;
        let bh = b.height as i64;
        let fits = bx + 4 >= ox && by + 4 >= oy && bx + bw <= ox + ow + 4 && by + bh <= oy + oh + 4;
        let smaller = bw < ow || bh < oh;
        let right = bx + tdiv_exec(bw, 2) > ocx;
        if fits && smaller && right {
            return Some(b);
        }
        i = i + 1;
    }
    None
}

/// The Unicode lowercase mapping of a string, as `str::to_lowercase`
/// computes it.
pub uninterp spec fn lowercase(s: Seq<char>) -> Seq<char>;

/// The ASCII lowercase of `c`: `A`..`Z` become `a`..`z`, anything else is
/// kept.
pub open spec fn ascii_lower(c: char) -> char {
    if 'A' <= c && c <= 'Z' {
        ((c as u32) + 32) as char
    } else {
        c
    }
}

/// `str::to_lowercase`. Its result is named, not spelled out: the mapping
/// follows Unicode's tables. Stated beyond the name: on ASCII text it
/// lowers `A`..`Z` and keeps every other character.
#[verifier::external_body]
fn to_lowercase(s: &str) -> (r: String)
    ensures
        r@ == lowercase(s@),
        (forall|i: int| 0 <= i < s@.len() ==> (#[trigger] s@[i] as u32) < 128) ==> r@ == s@.map_values(
            |c: char| ascii_lower(c),
        ),
{
    s.to_lowercase()
}

/// The element type names a switch or toggle, in any case.
pub open spec fn is_toggle_type(t: Seq<char>) -> bool {
    lowercase(t) == "switch"@ || lowercase(t) == "toggle"@
}

/// Bounds of the switches and toggles in the subtree of `n`, in document
/// order (`n` first).
pub open spec fn toggles_of(n: Element) -> Seq<Bounds>
    decreases n,
{
    (if is_toggle_type(n.element_type@) {
        seq![n.bounds]
    } else {
        Seq::empty()
    }) + toggles_in(n.children@)
}

/// Bounds of the switches and toggles in the subtrees `s`, in order.
pub open spec fn toggles_in(s: Seq<Element>) -> Seq<Bounds>
    decreases s,
{
    if s.len() == 0 {
        Seq::empty()
    } else {
        toggles_in(s.drop_last()) + toggles_of(s.last())
    }
}

/// Appends the bounds of every switch or toggle in the subtree, in document
/// order.
pub fn collect_toggles(element: &Element, out: &mut Vec<Bounds>)
    ensures
        final(out)@ == old(out)@ + toggles_of(*element),
    decreases element,
{
    let ghost start = out@;
    let et = to_lowercase(element.element_type.as_str());
    if str_eq(et.as_str(), "switch") || str_eq(et.as_str(), "toggle") {
        out.push(element.bounds);
    }
    let ghost own = out@;
    assert(own == start + (if is_toggle_type(element.element_type@) {
        seq![element.bounds]
    } else {
        Seq::<Bounds>::empty()
    }));
    let mut i: usize = 0;
    while i < element.children.len()
        invariant
            i <= element.children@.len(),
            out@ == own + toggles_in(element.children@.take(i as int)),
        decreases element.children@.len() - i,
    {
        collect_toggles(&element.children[i], out);
        proof {
            let s = element.children@.take(i + 1);
            assert(s.drop_last() =~= element.children@.take(i as int));
            assert(s.last() == element.children@[i as int]);
        }
        i = i + 1;
    }
    assert(element.children@.take(element.children@.len() as int) =~= element.children@);
    assert(out@ =~= start + toggles_of(*element));
}

/// A container lying fully within the viewport is never nudged.
pub proof fn lemma_visible_container_not_nudged(b: Bounds, vp: Viewport)
    requires
        b.y >= 0,
        b.y + b.height <= vp.height,
    ensures
        spec_nudge_swipe(b, vp) is None,
{
}

/// A nudge swipes vertically through the viewport's centre column.
pub proof fn lemma_nudge_is_vertical(b: Bounds, vp: Viewport)
    ensures
        spec_nudge_swipe(b, vp) matches Some(s) ==> s.0 == s.2 && s.0 == tdiv(vp.width as int, 2),
{
}

/// A one-point swipe moves along one axis only, by two fifths of the
/// viewport height.
pub proof fn lemma_swipe_end_one_axis(start: (i32, i32), dir: Seq<char>, vp_height: int)
    ensures
        spec_swipe_end(start, dir, vp_height) matches Some(e) ==> {
            let d = tdiv(2 * vp_height, 5);
            ||| e.0 == start.0 && (e.1 == start.1 - d || e.1 == start.1 + d)
            ||| e.1 == start.1 && (e.0 == start.0 - d || e.0 == start.0 + d)
        },
{
}

/// Where a tap on `element` lands, given the point its resolution produced
/// and the toggles of the current tree (`toggles`): a switch or toggle row
/// is tapped at the centre of the first switch control inside it, when
/// there is one; anything else at `coords`.
pub open spec fn spec_tap_target(element_type: Seq<char>, bounds: Bounds, coords: (i32, i32), toggles: Seq<Bounds>) -> (int, int) {
    if is_toggle_type(element_type) && exists|i: int| 0 <= i < toggles.len() && spec_is_inner_toggle(toggles[i], bounds) {
        let i = choose|i: int|
            0 <= i < toggles.len() && spec_is_inner_toggle(toggles[i], bounds) && forall|j: int|
                0 <= j < i ==> !spec_is_inner_toggle(#[trigger] toggles[j], bounds);
        (toggles[i].x + tdiv(toggles[i].width as int, 2), toggles[i].y + tdiv(toggles[i].height as int, 2))
    } else {
        (coords.0 as int, coords.1 as int)
    }
}

proof fn lemma_first_inner_toggle_unique(toggles: Seq<Bounds>, outer: Bounds, i: int, k: int)
    requires
        0 <= i < toggles.len() && spec_is_inner_toggle(toggles[i], outer),
        forall|j: int| 0 <= j < i ==> !spec_is_inner_toggle(#[trigger] toggles[j], outer),
        0 <= k < toggles.len() && spec_is_inner_toggle(toggles[k], outer),
        forall|j: int| 0 <= j < k ==> !spec_is_inner_toggle(#[trigger] toggles[j], outer),
    ensures
        i == k,
{
    if i < k {
        assert(!spec_is_inner_toggle(toggles[i], outer));
    } else if k < i {
        assert(!spec_is_inner_toggle(toggles[k], outer));
    }
}

/// The point a tap on `element` is sent to: for a switch or toggle row, the
/// centre of the first switch control inside it among the toggles of the
/// tree `root`, else `coords`.
pub fn tap_target(element: &Element, coords: (i32, i32), root: &Element) -> (r: (i32, i32))
    requires
        forall|i: int|
            0 <= i < toggles_of(*root).len() ==> i32::MIN <= #[trigger] toggles_of(*root)[i].x + tdiv(
                toggles_of(*root)[i].width as int,
                2,
            ) <= i32::MAX && i32::MIN <= toggles_of(*root)[i].y + tdiv(toggles_of(*root)[i].height as int, 2)
                <= i32::MAX,
    ensures
        (r.0 as int, r.1 as int) == spec_tap_target(element.element_type@, element.bounds, coords, toggles_of(*root)),
{
    let et = to_lowercase(element.element_type.as_str());
    if !(str_eq(et.as_str(), "switch") || str_eq(et.as_str(), "toggle")) {
        return coords;
    }
    let mut toggles: Vec<Bounds> = Vec::new();
    collect_toggles(root, &mut toggles);
    assert(toggles@ =~= toggles_of(*root));
    match inner_toggle(toggles.as_slice(), &element.bounds) {
        Some(b) => {
            proof {
                let ts = toggles_of(*root);
                let k = choose|i: int|
                    0 <= i < ts.len() && ts[i] == b && spec_is_inner_toggle(b, element.bounds) && forall|j: int|
                        0 <= j < i ==> !spec_is_inner_toggle(#[trigger] ts[j], element.bounds);
                let i = choose|i: int|
                    0 <= i < ts.len() && spec_is_inner_toggle(ts[i], element.bounds) && forall|j: int|
                        0 <= j < i ==> !spec_is_inner_toggle(#[trigger] ts[j], element.bounds);
                lemma_first_inner_toggle_unique(ts, element.bounds, i, k);
                assert(i32::MIN <= ts[k].x + tdiv(ts[k].width as int, 2) <= i32::MAX);
            }
            let x = b.x as i64 + tdiv_exec(b.width as i64, 2);
            let y = b.y as i64 + tdiv_exec(b.height as i64, 2);
            (x as i32, y as i32)
        },
        None => coords,
    }
}


// ── Step parameters: scroll and swipe directions, swipe and gesture plans ──

/// The message for a direction text that names no direction, for an action
/// of kind `what` (`scroll` or `swipe`): `Invalid {what} direction: "{s}"`.
pub open spec fn invalid_direction_message(what: Seq<char>, s: Seq<char>) -> Seq<char> {
    "Invalid "@ + what + " direction: \""@ + s + "\""@
}

fn invalid_direction(what: &str, s: &str) -> (r: String)
    ensures
        r@ == invalid_direction_message(what@, s@),
{
    let mut m: Vec<char> = Vec::new();
    append_str(&mut m, "Invalid ");
    append_str(&mut m, what);
    append_str(&mut m, " direction: \"");
    append_str(&mut m, s);
    append_str(&mut m, "\"");
    string_from_chars(&m)
}

/// The direction text given, or `default` when the parameter is absent.
pub open spec fn param_or(param: Option<&str>, default: Seq<char>) -> Seq<char> {
    match param {
        Some(s) => s@,
        None => default,
    }
}

/// The direction of a `scroll` step from its optional `direction` parameter:
/// `down` when absent; an unknown text is refused with
/// `Invalid scroll direction: "{text}"`.
pub fn scroll_direction(param: Option<&str>) -> (r: Result<Direction, String>)
    ensures
        param is None ==> (r matches Ok(d) && d == Direction::Down),
        param matches Some(s) ==> match spec_direction(s@) {
            Some(d) => (r matches Ok(x) && x == d),
            None => (r matches Err(m) && m@ == invalid_direction_message("scroll"@, s@)),
        },
{
    let s = match param {
        Some(s) => s,
        None => "down",
    };
    proof {
        reveal_strlit("down");
        reveal_strlit("up");
        assert("down"@.len() != "up"@.len());
    }
    match parse_direction(s) {
        Some(d) => Ok(d),
        None => Err(invalid_direction("scroll", s)),
    }
}

/// The direction of a `swipe` step whose path resolved to no point, from its
/// optional `direction` parameter: an absent or unknown text is refused with
/// `Invalid swipe direction: "{text}"` (the empty text when absent).
pub fn swipe_direction(param: Option<&str>) -> (r: Result<Direction, String>)
    ensures
        match spec_direction(param_or(param, Seq::empty())) {
            Some(d) => (r matches Ok(x) && x == d),
            None => (r matches Err(m) && m@ == invalid_direction_message("swipe"@, param_or(param, Seq::empty()))),
        },
{
    let s = match param {
        Some(s) => s,
        None => "",
    };
    proof {
        reveal_strlit("");
        assert(s@ =~= param_or(param, Seq::empty()));
    }
    match parse_direction(s) {
        Some(d) => Ok(d),
        None => Err(invalid_direction("swipe", s)),
    }
}

/// A point given by optional coordinates, each missing one at the centre of
/// the viewport on its axis.
pub open spec fn spec_point_or_centre(x: Option<i32>, y: Option<i32>, vp: Viewport) -> (int, int) {
    (
        match x {
            Some(v) => v as int,
            None => tdiv(vp.width as int, 2),
        },
        match y {
            Some(v) => v as int,
            None => tdiv(vp.height as int, 2),
        },
    )
}

/// A gesture or swipe point from its resolved coordinates, a missing one
/// falling back to the viewport's centre on that axis.
pub fn point_or_centre(x: Option<i32>, y: Option<i32>, vp: &Viewport) -> (r: (i32, i32))
    ensures
        (r.0 as int, r.1 as int) == spec_point_or_centre(x, y, *vp),
{
    let px = match x {
        Some(v) => v,
        None => vp.width / 2,
    };
    let py = match y {
        Some(v) => v,
        None => vp.height / 2,
    };
    (px, py)
}

/// What a swipe over resolved points does.
#[derive(Debug, PartialEq, Eq)]
pub enum SwipePlan {
    /// No point resolved: the device's default swipe in this direction
    /// (its geometry comes from the device's safe viewport).
    FromDirection(Direction),
    /// A plain swipe between two points.
    Swipe { from: (i32, i32), to: (i32, i32) },
    /// One finger along three or more points without lifting, over
    /// `duration_ms`.
    Gesture { points: Vec<(i32, i32)>, duration_ms: u64 },
}

/// Why a swipe cannot be performed.
#[derive(Debug, PartialEq, Eq)]
pub enum SwipeError {
    /// No point resolved and the direction is absent or unknown; the
    /// message names it (`Invalid swipe direction: "…"`).
    InvalidDirection(String),
    /// A single point and no usable direction.
    OnePointNeedsDirection,
}

impl SwipeError {
    /// The error's message.
    pub fn message(&self) -> (r: String)
        ensures
            self matches SwipeError::InvalidDirection(m) ==> r@ == m@,
            *self == SwipeError::OnePointNeedsDirection ==> r@ == "swipe with one point requires direction"@,
    {
        match self {
            SwipeError::InvalidDirection(m) => m.clone(),
            SwipeError::OnePointNeedsDirection => "swipe with one point requires direction".to_string(),
        }
    }
}

/// The default duration of a multi-point swipe or gesture, in milliseconds.
pub const DEFAULT_GESTURE_MS: u64 = 300;

/// The plan for a swipe over the resolved path `points`: with no point, the
/// step's `direction` gives a default swipe (an absent or unknown one is
/// refused, see `swipe_direction`); one point is extended by the
/// `direction` (see `spec_swipe_end`, the empty text when absent); two
/// points make a plain swipe; three or more one continuous gesture over
/// `duration` (300 ms when absent).
pub fn swipe_plan(points: &[(i32, i32)], direction: Option<&str>, vp_height: i32, duration: Option<u64>) -> (r:
    Result<SwipePlan, SwipeError>)
    requires
        points@.len() == 1 ==> (spec_swipe_end(points@[0], param_or(direction, Seq::empty()), vp_height as int) matches Some(
            e,
        ) ==> i32::MIN <= e.0 <= i32::MAX && i32::MIN <= e.1 <= i32::MAX),
    ensures
        points@.len() == 0 ==> match spec_direction(param_or(direction, Seq::empty())) {
            Some(d) => (r matches Ok(SwipePlan::FromDirection(x)) && x == d),
            None => (r matches Err(SwipeError::InvalidDirection(m)) && m@ == invalid_direction_message(
                "swipe"@,
                param_or(direction, Seq::empty()),
            )),
        },
        points@.len() == 1 ==> match spec_swipe_end(points@[0], param_or(direction, Seq::empty()), vp_height as int) {
            Some(end) => (r matches Ok(SwipePlan::Swipe { from, to }) && from == points@[0] && to.0 == end.0
                && to.1 == end.1),
            None => (r matches Err(e) && e == SwipeError::OnePointNeedsDirection),
        },
        points@.len() == 2 ==> (r matches Ok(SwipePlan::Swipe { from, to }) && from == points@[0] && to == points@[1]),
        points@.len() >= 3 ==> (r matches Ok(SwipePlan::Gesture { points: ps, duration_ms }) && ps@ == points@
            && duration_ms == (match duration {
            Some(d) => d,
            None => 300,
        })),
{
    if points.len() == 0 {
        return match swipe_direction(direction) {
            Ok(d) => Ok(SwipePlan::FromDirection(d)),
            Err(m) => Err(SwipeError::InvalidDirection(m)),
        };
    }
    if points.len() == 1 {
        let dir = match direction {
            Some(s) => s,
            None => "",
        };
        proof {
            reveal_strlit("");
            assert(dir@ =~= param_or(direction, Seq::empty()));
        }
        return match swipe_end(points[0], dir, vp_height) {
            Some(end) => Ok(SwipePlan::Swipe { from: points[0], to: end }),
            None => Err(SwipeError::OnePointNeedsDirection),
        };
    }
    if points.len() == 2 {
        return Ok(SwipePlan::Swipe { from: points[0], to: points[1] });
    }
    let mut ps: Vec<(i32, i32)> = Vec::new();
    let mut i: usize = 0;
    while i < points.len()
        invariant
            i <= points@.len(),
            ps@ == points@.take(i as int),
        decreases points@.len() - i,
    {
        ps.push(points[i]);
        i = i + 1;
        assert(ps@ =~= points@.take(i as int));
    }
    assert(points@.take(points@.len() as int) =~= points@);
    let d = match duration {
        Some(d) => d,
        None => DEFAULT_GESTURE_MS,
    };
    Ok(SwipePlan::Gesture { points: ps, duration_ms: d })
}

/// Why a multi-touch gesture cannot be performed.
#[derive(Debug, PartialEq, Eq)]
pub enum GestureError {
    /// The step lists no finger.
    NoFingers,
    /// Some finger has fewer than two points.
    TooFewPoints,
}

impl GestureError {
    /// The error's message.
    pub fn message(&self) -> (r: &'static str)
        ensures
            *self == GestureError::NoFingers ==> r@ == "gesture requires at least one finger in 'fingers' array"@,
            *self == GestureError::TooFewPoints ==> r@ == "each finger needs at least 2 points"@,
    {
        match self {
            GestureError::NoFingers => "gesture requires at least one finger in 'fingers' array",
            GestureError::TooFewPoints => "each finger needs at least 2 points",
        }
    }
}

/// Checks a gesture's fingers, given how many points each has, and gives
/// the duration every finger's path takes: `duration`, or 300 ms when
/// absent. No finger, or a finger with fewer than two points, refuses it.
pub fn gesture_plan(finger_point_counts: &[usize], duration: Option<u64>) -> (r: Result<u64, GestureError>)
    ensures
        finger_point_counts@.len() == 0 ==> (r matches Err(e) && e == GestureError::NoFingers),
        finger_point_counts@.len() > 0 && (exists|i: int|
            0 <= i < finger_point_counts@.len() && #[trigger] finger_point_counts@[i] < 2) ==> (r matches Err(e)
            && e == GestureError::TooFewPoints),
        finger_point_counts@.len() > 0 && (forall|i: int|
            0 <= i < finger_point_counts@.len() ==> #[trigger] finger_point_counts@[i] >= 2) ==> r == Ok::<
            u64,
            GestureError,
        >(
            match duration {
                Some(d) => d,
                None => 300,
            },
        ),
{
    if finger_point_counts.len() == 0 {
        return Err(GestureError::NoFingers);
    }
    let mut i: usize = 0;
    while i < finger_point_counts.len()
        invariant
            i <= finger_point_counts@.len(),
            forall|j: int| 0 <= j < i ==> #[trigger] finger_point_counts@[j] >= 2,
        decreases finger_point_counts@.len() - i,
    {
        if finger_point_counts[i] < 2 {
            return Err(GestureError::TooFewPoints);
        }
        i = i + 1;
    }
    match duration {
        Some(d) => Ok(d),
        None => Ok(DEFAULT_GESTURE_MS),
    }
}


/// Direction words mean what they say in screen coordinates (y grows
/// downward): `up` lowers y, `down` raises it, `left` lowers x, `right`
/// raises it, each by two fifths of the viewport height; other words are
/// no direction.
pub proof fn lemma_direction_words(start: (i32, i32), vp_height: int)
    requires
        vp_height >= 0,
    ensures
        spec_direction("up"@) == Some(Direction::Up),
        spec_direction("down"@) == Some(Direction::Down),
        spec_direction("left"@) == Some(Direction::Left),
        spec_direction("right"@) == Some(Direction::Right),
        spec_direction(Seq::<char>::empty()) is None,
        spec_swipe_end(start, "up"@, vp_height) == Some((start.0 as int, start.1 - tdiv(2 * vp_height, 5))),
        spec_swipe_end(start, "down"@, vp_height) == Some((start.0 as int, start.1 + tdiv(2 * vp_height, 5))),
        spec_swipe_end(start, "left"@, vp_height) == Some((start.0 - tdiv(2 * vp_height, 5), start.1 as int)),
        spec_swipe_end(start, "right"@, vp_height) == Some((start.0 + tdiv(2 * vp_height, 5), start.1 as int)),
        tdiv(2 * vp_height, 5) >= 0,
{
    reveal_strlit("up");
    reveal_strlit("down");
    reveal_strlit("left");
    reveal_strlit("right");
    assert("up"@.len() == 2 && "down"@.len() == 4 && "left"@.len() == 4 && "right"@.len() == 5);
    assert("down"@[0] != "left"@[0]);
}

/// A container hanging more than 50 below the viewport (and starting more
/// than 50 from its top) is nudged by a swipe that moves up the screen, one
/// hanging more than 50 above it by a swipe that moves down; the swipe
/// covers at most a third of the viewport height.
pub proof fn lemma_nudge_direction(b: Bounds, vp: Viewport)
    requires
        vp.height >= 0,
    ensures
        b.y + b.height - vp.height > 50 && b.y > 50 ==> (spec_nudge_swipe(b, vp) matches Some(s) && s.1 >= s.3
            && s.1 - s.3 <= tdiv(vp.height as int, 3)),
        !(b.y + b.height - vp.height > 50 && b.y > 50) && -b.y > 50 && b.y + b.height < vp.height - 50
            ==> (spec_nudge_swipe(b, vp) matches Some(s) && s.1 <= s.3 && s.3 - s.1 <= tdiv(vp.height as int, 3)),
{
}

} // verus!
