//! Layout arithmetic for annotated screenshots.
use vstd::prelude::*;

verus! {

/// Twice the sum of the horizontal centres (`2x + w`) of the rectangles
/// `(x, y, w, h)`.
pub open spec fn centre_sum_x(ms: Seq<(i32, i32, i32, i32)>) -> int
    decreases ms.len(),
{
    if ms.len() == 0 {
        0
    } else {
        centre_sum_x(ms.drop_last()) + 2 * ms.last().0 + ms.last().2
    }
}

/// Twice the sum of the vertical centres (`2y + h`) of the rectangles.
pub open spec fn centre_sum_y(ms: Seq<(i32, i32, i32, i32)>) -> int
    decreases ms.len(),
{
    if ms.len() == 0 {
        0
    } else {
        centre_sum_y(ms.drop_last()) + 2 * ms.last().1 + ms.last().3
    }
}

/// `a / b` for `b > 0`, rounded to the nearest integer, halves away from
/// zero.
pub open spec fn round_div(a: int, b: int) -> int {
    if a >= 0 {
        (2 * a + b) / (2 * b)
    } else {
        -((-2 * a + b) / (2 * b))
    }
}

/// `v` clamped to the `i32` range.
pub open spec fn saturate_i32(v: int) -> int {
    if v > i32::MAX {
        i32::MAX as int
    } else if v < i32::MIN {
        i32::MIN as int
    } else {
        v
    }
}

/// The rounded mean of the rectangle centres (the origin for none).
pub open spec fn spec_centroid(ms: Seq<(i32, i32, i32, i32)>) -> (int, int) {
    let n = if ms.len() == 0 { 1 } else { ms.len() as int };
    (saturate_i32(round_div(centre_sum_x(ms), 2 * n)), saturate_i32(round_div(centre_sum_y(ms), 2 * n)))
}

fn round_div_exec(a: i128, b: i128) -> (r: i128)
    requires
        b > 0,
        -0x10_0000_0000_0000_0000_0000_0000 <= a <= 0x10_0000_0000_0000_0000_0000_0000,
        b <= 0x10_0000_0000_0000_0000_0000_0000,
    ensures
        r == round_div(a as int, b as int),
        -0x10_0000_0000_0000_0000_0000_0000 <= r <= 0x10_0000_0000_0000_0000_0000_0000,
{
    if a >= 0 {
        let r = (2 * a + b) / (2 * b);
        assert(0 <= r <= a) by (nonlinear_arith)
            requires
                r == (2 * a + b) / (2 * b),
                b > 0,
                a >= 0,
        ;
        r
    } else {
        let q = (-2 * a + b) / (2 * b);
        assert(0 <= q <= -a) by (nonlinear_arith)
            requires
                q == (-2 * a + b) / (2 * b),
                b > 0,
                a < 0,
        ;
        -q
    }
}

fn saturate_exec(v: i128) -> (r: i32)
    ensures
        r == saturate_i32(v as int),
{
    if v > i32::MAX as i128 {
        i32::MAX
    } else if v < i32::MIN as i128 {
        i32::MIN
    } else {
        v as i32
    }
}

/// The centroid of the rectangles' centres, rounded to whole pixels
/// (halves away from zero): where one marker for a group of rectangles
/// goes. The origin for no rectangles.
pub fn centroid(members: &[(i32, i32, i32, i32)]) -> (r: (i32, i32))
    ensures
        (r.0 as int, r.1 as int) == spec_centroid(members@),
{
    let mut sx: i128 = 0;
    let mut sy: i128 = 0;
    let mut i: usize = 0;
    while i < members.len()
        invariant
            i <= members@.len(),
            sx == centre_sum_x(members@.take(i as int)),
            sy == centre_sum_y(members@.take(i as int)),
            -(i as int) * 0x2_0000_0000 <= sx <= (i as int) * 0x2_0000_0000,
            -(i as int) * 0x2_0000_0000 <= sy <= (i as int) * 0x2_0000_0000,
        decreases members@.len() - i,
    {
        let (x, y, w, h) = members[i];
        proof {
            let t = members@.take(i + 1);
            assert(t.drop_last() =~= members@.take(i as int));
            assert(t.last() == members@[i as int]);
            assert((i as int) * 0x2_0000_0000 <= 0xFFFF_FFFF_FFFF_FFFF * 0x2_0000_0000) by (nonlinear_arith)
                requires
                    i <= 0xFFFF_FFFF_FFFF_FFFF,
            ;
        }
        sx = sx + 2 * (x as i128) + (w as i128);
        sy = sy + 2 * (y as i128) + (h as i128);
        i = i + 1;
    }
    assert(members@.take(members@.len() as int) =~= members@);
    let n: i128 = if members.len() == 0 { 1 } else { members.len() as i128 };
    proof {
        assert((i as int) * 0x2_0000_0000 <= 0xFFFF_FFFF_FFFF_FFFF * 0x2_0000_0000) by (nonlinear_arith)
            requires
                i <= 0xFFFF_FFFF_FFFF_FFFF,
        ;
    }
    assert(0xFFFF_FFFF_FFFF_FFFF * 0x2_0000_0000 <= 0x10_0000_0000_0000_0000_0000_0000);
    let cx = round_div_exec(sx, 2 * n);
    let cy = round_div_exec(sy, 2 * n);
    (saturate_exec(cx), saturate_exec(cy))
}

/// The marker glyph scale for a screenshot `img_width` pixels wide: a
/// 350th of the width, kept between 2 and 5.
pub open spec fn spec_glyph_scale(img_width: u32) -> u32 {
    if img_width / 350 < 2 {
        2
    } else if img_width / 350 > 5 {
        5
    } else {
        img_width / 350
    }
}

/// The marker glyph scale, so that numbers stay legible on phone and
/// tablet captures alike.
pub fn glyph_scale(img_width: u32) -> (r: u32)
    ensures
        r == spec_glyph_scale(img_width),
{
    let s = img_width / 350;
    if s < 2 {
        2
    } else if s > 5 {
        5
    } else {
        s
    }
}

/// The first shift recorded for `corner` in `s`, or 0.
pub open spec fn shift_in(s: Seq<((i32, i32), i32)>, corner: (i32, i32)) -> int
    decreases s.len(),
{
    if s.len() == 0 {
        0
    } else if s[0].0 == corner {
        s[0].1 as int
    } else {
        shift_in(s.drop_first(), corner)
    }
}

/// Left edge of a chip `chip_w` wide for a corner at `corner_x` already
/// shifted by `shift`, in an image `img_w` wide: the shifted corner, but no
/// further right than the image allows, and never left of 0.
pub open spec fn spec_chip_x(corner_x: int, shift: int, chip_w: int, img_w: int) -> int {
    let limit = if img_w - chip_w > 0 { img_w - chip_w } else { 0 };
    let want = corner_x + shift;
    if want < limit { want } else { limit }
}

/// Where single-element markers go: markers sharing a top-left corner
/// cascade to the right, each past the ones placed before it.
pub struct CornerCascade {
    shifts: Vec<((i32, i32), i32)>,
}

impl CornerCascade {
    /// How far right the next marker at `corner` is pushed.
    pub closed spec fn shift_at(&self, corner: (i32, i32)) -> int {
        shift_in(self.shifts@, corner)
    }

    /// No markers placed yet.
    pub fn new() -> (r: Self)
        ensures
            forall|c: (i32, i32)| r.shift_at(c) == 0,
    {
        CornerCascade { shifts: Vec::new() }
    }

    fn position_of(&self, corner: (i32, i32)) -> (r: Option<usize>)
        ensures
            match r {
                Some(i) => i < self.shifts@.len() && self.shifts@[i as int].0 == corner && forall|j: int|
                    0 <= j < i ==> #[trigger] self.shifts@[j].0 != corner,
                None => forall|j: int| 0 <= j < self.shifts@.len() ==> #[trigger] self.shifts@[j].0 != corner,
            },
    {
        let mut i: usize = 0;
        while i < self.shifts.len()
            invariant
                i <= self.shifts@.len(),
                forall|j: int| 0 <= j < i ==> #[trigger] self.shifts@[j].0 != corner,
            decreases self.shifts@.len() - i,
        {
            let (cx, cy) = self.shifts[i].0;
            if cx == corner.0 && cy == corner.1 {
                return Some(i);
            }
            i = i + 1;
        }
        None
    }

    /// Places a marker chip `chip_w` wide at the top-left corner `corner` of
    /// an image `img_w` wide: it goes right of the markers already at that
    /// corner, but never past the image's right edge; the corner's shift
    /// then grows by the chip's width plus the glyph scale.
    pub fn place(&mut self, corner: (i32, i32), chip_w: i32, gscale: u32, img_w: i32) -> (r: i32)
        requires
            i32::MIN <= corner.0 + old(self).shift_at(corner) <= i32::MAX,
            i32::MIN <= old(self).shift_at(corner) + chip_w + gscale <= i32::MAX,
            i32::MIN <= img_w - chip_w <= i32::MAX,
        ensures
            r == spec_chip_x(corner.0 as int, old(self).shift_at(corner), chip_w as int, img_w as int),
            final(self).shift_at(corner) == old(self).shift_at(corner) + chip_w + gscale,
            forall|c: (i32, i32)| c != corner ==> final(self).shift_at(c) == old(self).shift_at(c),
    {
        let ghost s0 = self.shifts@;
        let found = self.position_of(corner);
        let i: usize = match found {
            Some(k) => k,
            None => self.shifts.len(),
        };
        proof {
            lemma_shift_in_first(s0, corner);
        }
        let current: i64 = if i < self.shifts.len() { self.shifts[i].1 as i64 } else { 0 };
        assert(current == shift_in(s0, corner));
        let limit: i64 = if img_w as i64 - chip_w as i64 > 0 { img_w as i64 - chip_w as i64 } else { 0 };
        let want: i64 = corner.0 as i64 + current;
        let x: i64 = if want < limit { want } else { limit };
        let next: i32 = (current + chip_w as i64 + gscale as i64) as i32;
        if i < self.shifts.len() {
            self.shifts.set(i, (corner, next));
            proof {
                lemma_shift_in_update(s0, i as int, corner, next, corner);
                assert forall|c: (i32, i32)| c != corner implies shift_in(self.shifts@, c) == shift_in(s0, c) by {
                    lemma_shift_in_update(s0, i as int, corner, next, c);
                }
            }
        } else {
            self.shifts.push((corner, next));
            proof {
                lemma_shift_in_push(s0, corner, next, corner);
                assert forall|c: (i32, i32)| c != corner implies shift_in(self.shifts@, c) == shift_in(s0, c) by {
                    lemma_shift_in_push(s0, corner, next, c);
                }
            }
        }
        x as i32
    }
}

/// Colliding markers cascade right: the next marker at a corner is never
/// left of the previous one, and unless the image edge stops it, it starts
/// clear of the previous chip.
pub proof fn lemma_cascade_moves_right(corner_x: int, shift: int, chip_w: int, gscale: int, img_w: int)
    requires
        chip_w >= 0,
        gscale >= 0,
    ensures
        spec_chip_x(corner_x, shift + chip_w + gscale, chip_w, img_w) >= spec_chip_x(corner_x, shift, chip_w, img_w),
        corner_x + shift + chip_w + gscale < (if img_w - chip_w > 0 { img_w - chip_w } else { 0 }) ==> spec_chip_x(
            corner_x,
            shift + chip_w + gscale,
            chip_w,
            img_w,
        ) >= spec_chip_x(corner_x, shift, chip_w, img_w) + chip_w,
{
}

proof fn lemma_shift_in_first(s: Seq<((i32, i32), i32)>, corner: (i32, i32))
    ensures
        (forall|j: int| 0 <= j < s.len() ==> #[trigger] s[j].0 != corner) ==> shift_in(s, corner) == 0,
        forall|i: int|
            0 <= i < s.len() && s[i].0 == corner && (forall|j: int| 0 <= j < i ==> #[trigger] s[j].0 != corner)
                ==> shift_in(s, corner) == s[i].1,
    decreases s.len(),
{
    if s.len() > 0 {
        lemma_shift_in_first(s.drop_first(), corner);
        assert forall|i: int|
            0 <= i < s.len() && s[i].0 == corner && (forall|j: int| 0 <= j < i ==> #[trigger] s[j].0 != corner)
            implies shift_in(s, corner) == s[i].1 by {
            if i > 0 {
                assert(s[0].0 != corner);
                assert(s.drop_first()[i - 1] == s[i]);
                assert forall|j: int| 0 <= j < i - 1 implies #[trigger] s.drop_first()[j].0 != corner by {
                    assert(s.drop_first()[j] == s[j + 1]);
                }
            }
        }
        if forall|j: int| 0 <= j < s.len() ==> #[trigger] s[j].0 != corner {
            assert(s[0].0 != corner);
            assert forall|j: int| 0 <= j < s.len() - 1 implies #[trigger] s.drop_first()[j].0 != corner by {
                assert(s.drop_first()[j] == s[j + 1]);
            }
        }
    }
}

proof fn lemma_shift_in_update(s: Seq<((i32, i32), i32)>, i: int, corner: (i32, i32), v: i32, c: (i32, i32))
    requires
        0 <= i < s.len(),
        s[i].0 == corner,
        forall|j: int| 0 <= j < i ==> #[trigger] s[j].0 != corner,
    ensures
        shift_in(s.update(i, (corner, v)), corner) == v,
        c != corner ==> shift_in(s.update(i, (corner, v)), c) == shift_in(s, c),
    decreases i,
{
    let u = s.update(i, (corner, v));
    if i == 0 {
        assert(u[0] == (corner, v));
        assert(u.drop_first() =~= s.drop_first());
    } else {
        assert forall|j: int| 0 <= j < i - 1 implies #[trigger] s.drop_first()[j].0 != corner by {
            assert(s.drop_first()[j] == s[j + 1]);
        }
        lemma_shift_in_update(s.drop_first(), i - 1, corner, v, c);
        assert(u.drop_first() =~= s.drop_first().update(i - 1, (corner, v)));
        assert(s[0].0 != corner);
        assert(u[0] == s[0]);
    }
}

proof fn lemma_shift_in_push(s: Seq<((i32, i32), i32)>, corner: (i32, i32), v: i32, c: (i32, i32))
    requires
        forall|j: int| 0 <= j < s.len() ==> #[trigger] s[j].0 != corner,
    ensures
        shift_in(s.push((corner, v)), corner) == v,
        c != corner ==> shift_in(s.push((corner, v)), c) == shift_in(s, c),
    decreases s.len(),
{
    let p = s.push((corner, v));
    if s.len() == 0 {
        assert(p[0] == (corner, v));
        assert(p.drop_first() =~= Seq::<((i32, i32), i32)>::empty());
        if c != corner {
            assert(shift_in(p.drop_first(), c) == 0);
        }
    } else {
        assert forall|j: int| 0 <= j < s.len() - 1 implies #[trigger] s.drop_first()[j].0 != corner by {
            assert(s.drop_first()[j] == s[j + 1]);
        }
        assert(s[0].0 != corner);
        lemma_shift_in_push(s.drop_first(), corner, v, c);
        assert(p.drop_first() =~= s.drop_first().push((corner, v)));
        assert(p[0] == s[0]);
    }
}


/// The marker glyph scale stays between 2 and 5, grows with the
/// screenshot's width, and is the width's 350th part in between.
pub proof fn lemma_glyph_scale_bounds(w1: u32, w2: u32)
    ensures
        2 <= spec_glyph_scale(w1) <= 5,
        700 <= w1 < 2100 ==> spec_glyph_scale(w1) == w1 / 350,
        w1 < 700 ==> spec_glyph_scale(w1) == 2,
        w1 >= 1750 ==> spec_glyph_scale(w1) == 5,
        w1 <= w2 ==> spec_glyph_scale(w1) <= spec_glyph_scale(w2),
{
    assert(w1 <= w2 ==> w1 / 350 <= w2 / 350) by (nonlinear_arith);
}

proof fn lemma_round_half_of_double(k: int)
    ensures
        round_div(2 * k, 2) == k,
{
    if k >= 0 {
        assert((2 * (2 * k) + 2) / (4 as int) == k) by (nonlinear_arith)
            requires
                k >= 0,
        ;
    } else {
        assert((-2 * (2 * k) + 2) / (4 as int) == -k) by (nonlinear_arith)
            requires
                k < 0,
        ;
    }
}

/// The marker for a single rectangle of even width and height goes at its
/// exact centre.
pub proof fn lemma_centroid_of_one(r: (i32, i32, i32, i32))
    requires
        r.2 % 2 == 0,
        r.3 % 2 == 0,
        i32::MIN <= r.0 + r.2 / 2 <= i32::MAX,
        i32::MIN <= r.1 + r.3 / 2 <= i32::MAX,
    ensures
        spec_centroid(seq![r]) == (r.0 + r.2 / 2, r.1 + r.3 / 2),
{
    let ms = seq![r];
    assert(ms.drop_last() =~= Seq::<(i32, i32, i32, i32)>::empty());
    assert(ms.last() == r);
    assert(centre_sum_x(ms.drop_last()) == 0);
    assert(centre_sum_y(ms.drop_last()) == 0);
    assert(centre_sum_x(ms) == 2 * r.0 + r.2);
    assert(centre_sum_y(ms) == 2 * r.1 + r.3);
    let m: int = r.2 / 2;
    let n: int = r.3 / 2;
    assert(r.2 == 2 * m);
    assert(r.3 == 2 * n);
    assert(2 * r.0 + r.2 == 2 * (r.0 + m));
    assert(2 * r.1 + r.3 == 2 * (r.1 + n));
    lemma_round_half_of_double(r.0 + m);
    lemma_round_half_of_double(r.1 + n);
    assert(round_div(2 * r.0 + r.2, 2) == r.0 + r.2 / 2);
    assert(round_div(2 * r.1 + r.3, 2) == r.1 + r.3 / 2);
}

} // verus!
