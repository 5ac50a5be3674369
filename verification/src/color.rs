//! Pixel analysis behind the contrast check: dominant colour, colour
//! clusters, the text band of a cropped box and its ink colour.
//!
//! Colours are grouped into buckets by quantising each channel to its top
//! four bits; a bucket's colour is the mean of its pixels. Buckets are kept
//! in the order their first pixel appears.
use vstd::prelude::*;

verus! {

/// An sRGB colour.
pub type Rgb = [u8; 3];

/// Squared distance beyond which a pixel counts as ink against a background
/// (48², a tolerance that absorbs anti-aliasing).
pub open spec fn ink_threshold() -> int {
    2304
}

/// Largest pixel count the bucket sums are sized for.
pub open spec fn max_pixels() -> int {
    0x00FF_FFFF_FFFF_FFFF
}

/// Squared Euclidean distance between two colours.
pub open spec fn spec_color_distance(a: Rgb, b: Rgb) -> int {
    let dr = a[0] as int - b[0] as int;
    let dg = a[1] as int - b[1] as int;
    let db = a[2] as int - b[2] as int;
    dr * dr + dg * dg + db * db
}

/// Squared Euclidean distance between two colours.
pub fn color_distance(a: Rgb, b: Rgb) -> (r: i32)
    ensures
        r == spec_color_distance(a, b),
        0 <= r <= 3 * 255 * 255,
{
    let dr = a[0] as i32 - b[0] as i32;
    let dg = a[1] as i32 - b[1] as i32;
    let db = a[2] as i32 - b[2] as i32;
    assert(0 <= dr * dr <= 255 * 255) by (nonlinear_arith)
        requires
            -255 <= dr <= 255,
    ;
    assert(0 <= dg * dg <= 255 * 255) by (nonlinear_arith)
        requires
            -255 <= dg <= 255,
    ;
    assert(0 <= db * db <= 255 * 255) by (nonlinear_arith)
        requires
            -255 <= db <= 255,
    ;
    dr * dr + dg * dg + db * db
}

/// Whether `p` is ink against `bg`.
pub open spec fn is_ink(p: Rgb, bg: Rgb) -> bool {
    spec_color_distance(p, bg) > ink_threshold()
}

/// The bucket key of a colour: each channel's top four bits.
pub open spec fn spec_quantize(p: Rgb) -> Rgb {
    [p[0] & 0xF0u8, p[1] & 0xF0u8, p[2] & 0xF0u8]
}

fn quantize(p: Rgb) -> (r: Rgb)
    ensures
        r == spec_quantize(p),
{
    [p[0] & 0xF0, p[1] & 0xF0, p[2] & 0xF0]
}

fn rgb_eq(a: Rgb, b: Rgb) -> (r: bool)
    ensures
        r == (a == b),
{
    let r = a[0] == b[0] && a[1] == b[1] && a[2] == b[2];
    proof {
        if r {
            assert(a =~= b);
        }
    }
    r
}

/// The bucket keys of `px`, in order of first appearance.
pub open spec fn bucket_keys(px: Seq<Rgb>) -> Seq<Rgb>
    decreases px.len(),
{
    if px.len() == 0 {
        Seq::empty()
    } else {
        let d = bucket_keys(px.drop_last());
        let k = spec_quantize(px.last());
        if d.contains(k) {
            d
        } else {
            d.push(k)
        }
    }
}

/// How many pixels of `px` fall in bucket `k`.
pub open spec fn bucket_count(px: Seq<Rgb>, k: Rgb) -> nat
    decreases px.len(),
{
    if px.len() == 0 {
        0
    } else {
        bucket_count(px.drop_last(), k) + if spec_quantize(px.last()) == k {
            1nat
        } else {
            0nat
        }
    }
}

/// Sum of channel `c` over the pixels of `px` in bucket `k`.
pub open spec fn bucket_sum(px: Seq<Rgb>, k: Rgb, c: int) -> nat
    decreases px.len(),
{
    if px.len() == 0 {
        0
    } else {
        bucket_sum(px.drop_last(), k, c) + if spec_quantize(px.last()) == k {
            px.last()[c] as nat
        } else {
            0nat
        }
    }
}

/// The mean colour of bucket `k`.
pub open spec fn bucket_mean(px: Seq<Rgb>, k: Rgb) -> Rgb {
    let n = bucket_count(px, k);
    [
        (bucket_sum(px, k, 0) / n) as u8,
        (bucket_sum(px, k, 1) / n) as u8,
        (bucket_sum(px, k, 2) / n) as u8,
    ]
}

/// `k` is a bucket of `px` holding at least as many pixels as any other.
pub open spec fn is_dominant_key(px: Seq<Rgb>, k: Rgb) -> bool {
    &&& bucket_keys(px).contains(k)
    &&& forall|j: int|
        0 <= j < bucket_keys(px).len() ==> bucket_count(px, #[trigger] bucket_keys(px)[j])
            <= bucket_count(px, k)
}

/// A bucket that holds a share of at least one in `parts` of `px`.
pub open spec fn is_significant(px: Seq<Rgb>, k: Rgb, parts: nat) -> bool {
    bucket_count(px, k) * parts >= px.len()
}

/// How many of the keys `ks` are significant buckets of `px`.
pub open spec fn count_significant(ks: Seq<Rgb>, px: Seq<Rgb>, parts: nat) -> nat
    decreases ks.len(),
{
    if ks.len() == 0 {
        0
    } else {
        count_significant(ks.drop_last(), px, parts) + if is_significant(px, ks.last(), parts) {
            1nat
        } else {
            0nat
        }
    }
}

proof fn lemma_bucket_keys_distinct(px: Seq<Rgb>)
    ensures
        forall|a: int, b: int|
            0 <= a < b < bucket_keys(px).len() ==> #[trigger] bucket_keys(px)[a] != #[trigger] bucket_keys(px)[b],
    decreases px.len(),
{
    if px.len() > 0 {
        lemma_bucket_keys_distinct(px.drop_last());
        let d = bucket_keys(px.drop_last());
        let k = spec_quantize(px.last());
        if !d.contains(k) {
            let e = d.push(k);
            assert forall|a: int, b: int| 0 <= a < b < e.len() implies #[trigger] e[a] != #[trigger] e[b] by {
                if b == d.len() {
                    assert(e[a] == d[a]);
                    assert(!(d[a] == k));
                } else {
                    assert(e[a] == d[a] && e[b] == d[b]);
                }
            }
        }
    }
}

proof fn lemma_bucket_keys_cover(px: Seq<Rgb>, i: int)
    requires
        0 <= i < px.len(),
    ensures
        bucket_keys(px).contains(spec_quantize(px[i])),
    decreases px.len(),
{
    let d = bucket_keys(px.drop_last());
    if i < px.len() - 1 {
        lemma_bucket_keys_cover(px.drop_last(), i);
        assert(px.drop_last()[i] == px[i]);
        if !d.contains(spec_quantize(px.last())) {
            let j = choose|j: int| 0 <= j < d.len() && d[j] == spec_quantize(px[i]);
            assert(d.push(spec_quantize(px.last()))[j] == spec_quantize(px[i]));
        }
    } else {
        if !d.contains(spec_quantize(px.last())) {
            assert(d.push(spec_quantize(px.last()))[d.len() as int] == spec_quantize(px[i]));
        }
    }
}

proof fn lemma_bucket_keys_nonempty(px: Seq<Rgb>, k: Rgb)
    requires
        bucket_keys(px).contains(k),
    ensures
        bucket_count(px, k) > 0,
    decreases px.len(),
{
    if px.len() > 0 {
        let d = bucket_keys(px.drop_last());
        if d.contains(k) {
            lemma_bucket_keys_nonempty(px.drop_last(), k);
        }
    }
}

proof fn lemma_bucket_bounds(px: Seq<Rgb>, k: Rgb, c: int)
    requires
        0 <= c < 3,
    ensures
        bucket_sum(px, k, c) <= 255 * bucket_count(px, k),
        bucket_count(px, k) <= px.len(),
    decreases px.len(),
{
    if px.len() > 0 {
        lemma_bucket_bounds(px.drop_last(), k, c);
    }
}

/// One bucket while it is being filled.
#[derive(Clone, Copy)]
struct Bucket {
    key: Rgb,
    count: u64,
    sum: [u64; 3],
}

/// The buckets agree with `bucket_keys`, `bucket_count` and `bucket_sum`
/// over `px`.
spec fn buckets_match(b: Seq<Bucket>, px: Seq<Rgb>) -> bool {
    &&& b.len() == bucket_keys(px).len()
    &&& forall|j: int|
        0 <= j < b.len() ==> {
            &&& #[trigger] b[j].key == bucket_keys(px)[j]
            &&& b[j].count == bucket_count(px, b[j].key)
            &&& b[j].sum[0] == bucket_sum(px, b[j].key, 0)
            &&& b[j].sum[1] == bucket_sum(px, b[j].key, 1)
            &&& b[j].sum[2] == bucket_sum(px, b[j].key, 2)
        }
}

fn build_buckets(px: &[Rgb]) -> (b: Vec<Bucket>)
    requires
        px@.len() <= max_pixels(),
    ensures
        buckets_match(b@, px@),
{
    let mut b: Vec<Bucket> = Vec::new();
    let mut i: usize = 0;
    while i < px.len()
        invariant
            i <= px@.len(),
            px@.len() <= max_pixels(),
            buckets_match(b@, px@.take(i as int)),
        decreases px@.len() - i,
    {
        let p = px[i];
        let q = quantize(p);
        let ghost pre = px@.take(i as int);
        let ghost post = px@.take(i + 1);
        proof {
            assert(post.drop_last() =~= pre);
            assert(post.last() == p);
            lemma_bucket_keys_distinct(pre);
        }
        let mut j: usize = 0;
        while j < b.len() && !rgb_eq(b[j].key, q)
            invariant
                j <= b@.len(),
                forall|m: int| 0 <= m < j ==> #[trigger] b@[m].key != q,
            decreases b@.len() - j,
        {
            j = j + 1;
        }
        if j < b.len() {
            let old_b = b[j];
            proof {
                lemma_bucket_bounds(pre, q, 0);
                lemma_bucket_bounds(pre, q, 1);
                lemma_bucket_bounds(pre, q, 2);
            }
            b.set(
                j,
                Bucket {
                    key: q,
                    count: old_b.count + 1,
                    sum: [
                        old_b.sum[0] + p[0] as u64,
                        old_b.sum[1] + p[1] as u64,
                        old_b.sum[2] + p[2] as u64,
                    ],
                },
            );
            proof {
                assert(bucket_keys(pre).contains(q)) by {
                    assert(bucket_keys(pre)[j as int] == q);
                }
                assert(bucket_keys(post) == bucket_keys(pre));
                assert forall|m: int| 0 <= m < b@.len() implies {
                    &&& #[trigger] b@[m].key == bucket_keys(post)[m]
                    &&& b@[m].count == bucket_count(post, b@[m].key)
                    &&& b@[m].sum[0] == bucket_sum(post, b@[m].key, 0)
                    &&& b@[m].sum[1] == bucket_sum(post, b@[m].key, 1)
                    &&& b@[m].sum[2] == bucket_sum(post, b@[m].key, 2)
                } by {
                    if m != j {
                        assert(bucket_keys(pre)[m] != bucket_keys(pre)[j as int]);
                    }
                }
            }
        } else {
            proof {
                lemma_bucket_bounds(pre, q, 0);
                assert(!bucket_keys(pre).contains(q)) by {
                    if bucket_keys(pre).contains(q) {
                        let m = choose|m: int| 0 <= m < bucket_keys(pre).len() && bucket_keys(pre)[m] == q;
                        assert(b@[m].key == q);
                    }
                }
                assert(bucket_count(pre, q) == 0) by {
                    if bucket_count(pre, q) != 0 {
                        lemma_count_implies_key(pre, q);
                    }
                }
                lemma_zero_count_zero_sum(pre, q, 0);
                lemma_zero_count_zero_sum(pre, q, 1);
                lemma_zero_count_zero_sum(pre, q, 2);
            }
            b.push(Bucket { key: q, count: 1, sum: [p[0] as u64, p[1] as u64, p[2] as u64] });
            proof {
                assert(bucket_keys(post) == bucket_keys(pre).push(q));
                assert forall|m: int| 0 <= m < b@.len() implies {
                    &&& #[trigger] b@[m].key == bucket_keys(post)[m]
                    &&& b@[m].count == bucket_count(post, b@[m].key)
                    &&& b@[m].sum[0] == bucket_sum(post, b@[m].key, 0)
                    &&& b@[m].sum[1] == bucket_sum(post, b@[m].key, 1)
                    &&& b@[m].sum[2] == bucket_sum(post, b@[m].key, 2)
                } by {
                    if m < b@.len() - 1 {
                        assert(bucket_keys(pre)[m] != q);
                    }
                }
            }
        }
        i = i + 1;
    }
    assert(px@.take(px@.len() as int) =~= px@);
    b
}

proof fn lemma_count_implies_key(px: Seq<Rgb>, k: Rgb)
    requires
        bucket_count(px, k) > 0,
    ensures
        bucket_keys(px).contains(k),
    decreases px.len(),
{
    let d = bucket_keys(px.drop_last());
    if spec_quantize(px.last()) == k {
        if !d.contains(k) {
            assert(d.push(k)[d.len() as int] == k);
        }
    } else {
        lemma_count_implies_key(px.drop_last(), k);
        if !d.contains(spec_quantize(px.last())) {
            let j = choose|j: int| 0 <= j < d.len() && d[j] == k;
            assert(d.push(spec_quantize(px.last()))[j] == k);
        }
    }
}

proof fn lemma_zero_count_zero_sum(px: Seq<Rgb>, k: Rgb, c: int)
    requires
        bucket_count(px, k) == 0,
    ensures
        bucket_sum(px, k, c) == 0,
    decreases px.len(),
{
    if px.len() > 0 {
        lemma_zero_count_zero_sum(px.drop_last(), k, c);
    }
}

fn bucket_mean_exec(bk: Bucket, Ghost(px): Ghost<Seq<Rgb>>) -> (r: Rgb)
    requires
        bucket_keys(px).contains(bk.key),
        bk.count == bucket_count(px, bk.key),
        bk.sum[0] == bucket_sum(px, bk.key, 0),
        bk.sum[1] == bucket_sum(px, bk.key, 1),
        bk.sum[2] == bucket_sum(px, bk.key, 2),
    ensures
        r == bucket_mean(px, bk.key),
{
    proof {
        lemma_bucket_keys_nonempty(px, bk.key);
        lemma_bucket_bounds(px, bk.key, 0);
        lemma_bucket_bounds(px, bk.key, 1);
        lemma_bucket_bounds(px, bk.key, 2);
        lemma_mean_fits(bk.sum[0] as nat, bk.count as nat);
        lemma_mean_fits(bk.sum[1] as nat, bk.count as nat);
        lemma_mean_fits(bk.sum[2] as nat, bk.count as nat);
    }
    [(bk.sum[0] / bk.count) as u8, (bk.sum[1] / bk.count) as u8, (bk.sum[2] / bk.count) as u8]
}

proof fn lemma_mean_fits(s: nat, n: nat)
    requires
        n > 0,
        s <= 255 * n,
    ensures
        s / n <= 255,
{
    assert(s / n <= 255) by (nonlinear_arith)
        requires
            n > 0,
            s <= 255 * n,
    ;
}

/// The most common colour of `px`: the mean of a fullest bucket. `None` for
/// no pixels. Which of several equally full buckets is chosen is not fixed.
pub fn dominant_color(pixels: &[Rgb]) -> (r: Option<Rgb>)
    requires
        pixels@.len() <= max_pixels(),
    ensures
        r is None <==> pixels@.len() == 0,
        r matches Some(c) ==> exists|k: Rgb| is_dominant_key(pixels@, k) && c == bucket_mean(pixels@, k),
{
    if pixels.len() == 0 {
        return None;
    }
    let b = build_buckets(pixels);
    proof {
        lemma_bucket_keys_cover(pixels@, 0);
    }
    let mut best: usize = 0;
    let mut j: usize = 1;
    while j < b.len()
        invariant
            1 <= j <= b@.len(),
            best < j,
            buckets_match(b@, pixels@),
            forall|m: int| 0 <= m < j ==> #[trigger] b@[m].count <= b@[best as int].count,
        decreases b@.len() - j,
    {
        if b[j].count > b[best].count {
            best = j;
        }
        j = j + 1;
    }
    let bk = b[best];
    proof {
        assert(bucket_keys(pixels@)[best as int] == bk.key);
        assert forall|m: int| 0 <= m < bucket_keys(pixels@).len() implies bucket_count(
            pixels@,
            #[trigger] bucket_keys(pixels@)[m],
        ) <= bucket_count(pixels@, bk.key) by {
            assert(b@[m].key == bucket_keys(pixels@)[m]);
        }
    }
    Some(bucket_mean_exec(bk, Ghost(pixels@)))
}

/// How many colour buckets each hold at least 5% of the pixels — more than
/// three means a gradient or photo, where contrast cannot be read reliably.
pub fn significant_cluster_count(pixels: &[Rgb]) -> (r: usize)
    requires
        pixels@.len() <= max_pixels(),
    ensures
        r == count_significant(bucket_keys(pixels@), pixels@, 20),
{
    if pixels.len() == 0 {
        return 0;
    }
    let b = build_buckets(pixels);
    let total = pixels.len() as u64;
    let mut n: usize = 0;
    let mut j: usize = 0;
    while j < b.len()
        invariant
            j <= b@.len(),
            n <= j,
            total == pixels@.len(),
            pixels@.len() <= max_pixels(),
            buckets_match(b@, pixels@),
            n == count_significant(bucket_keys(pixels@).take(j as int), pixels@, 20),
        decreases b@.len() - j,
    {
        proof {
            let ks = bucket_keys(pixels@);
            assert(ks.take(j + 1).drop_last() =~= ks.take(j as int));
            assert(ks.take(j + 1).last() == b@[j as int].key);
            lemma_bucket_bounds(pixels@, b@[j as int].key, 0);
        }
        if b[j].count * 20 >= total {
            n = n + 1;
        }
        j = j + 1;
    }
    assert(bucket_keys(pixels@).take(b@.len() as int) =~= bucket_keys(pixels@));
    n
}

// ── The ink colour of a set of ink pixels ────────────────────────────

/// `c` is the mean of a bucket holding at least 10% of `ink` that lies
/// farthest from `bg` among all such buckets.
pub open spec fn is_farthest_ink(ink: Seq<Rgb>, bg: Rgb, c: Rgb) -> bool {
    let ks = bucket_keys(ink);
    &&& exists|k: Rgb| ks.contains(k) && is_significant(ink, k, 10) && c == bucket_mean(ink, k)
    &&& forall|j: int|
        0 <= j < ks.len() && is_significant(ink, #[trigger] ks[j], 10) ==> spec_color_distance(
            bucket_mean(ink, ks[j]),
            bg,
        ) <= spec_color_distance(c, bg)
}

/// The ink colour farthest from `bg` among colour buckets holding at least
/// 10% of the ink — the glyph core rather than its anti-aliasing halo.
/// `None` when no bucket holds 10% (in particular for no ink). Which of
/// several equally far buckets is chosen is not fixed.
pub fn farthest_ink_color(ink: &[Rgb], bg: Rgb) -> (r: Option<Rgb>)
    requires
        ink@.len() <= max_pixels(),
    ensures
        r is None <==> forall|j: int|
            0 <= j < bucket_keys(ink@).len() ==> !is_significant(ink@, #[trigger] bucket_keys(ink@)[j], 10),
        r matches Some(c) ==> is_farthest_ink(ink@, bg, c),
{
    let b = build_buckets(ink);
    let total = ink.len() as u64;
    let ghost ks = bucket_keys(ink@);
    let mut best: Option<(Rgb, i32)> = None;
    let mut j: usize = 0;
    while j < b.len()
        invariant
            j <= b@.len(),
            total == ink@.len(),
            ink@.len() <= max_pixels(),
            ks == bucket_keys(ink@),
            buckets_match(b@, ink@),
            match best {
                None => forall|m: int| 0 <= m < j ==> !is_significant(ink@, #[trigger] ks[m], 10),
                Some((c, d)) => {
                    &&& d == spec_color_distance(c, bg)
                    &&& exists|k: Rgb| ks.contains(k) && is_significant(ink@, k, 10) && c == bucket_mean(ink@, k)
                    &&& forall|m: int|
                        0 <= m < j && is_significant(ink@, #[trigger] ks[m], 10) ==> spec_color_distance(
                            bucket_mean(ink@, ks[m]),
                            bg,
                        ) <= d
                },
            },
        decreases b@.len() - j,
    {
        let bk = b[j];
        proof {
            lemma_bucket_bounds(ink@, bk.key, 0);
            assert(ks[j as int] == bk.key);
        }
        assert(is_significant(ink@, ks[j as int], 10) == (bk.count * 10 >= total));
        let ghost prev = best;
        if bk.count * 10 >= total {
            let m = bucket_mean_exec(bk, Ghost(ink@));
            let d = color_distance(m, bg);
            let better = match best {
                None => true,
                Some((_, bd)) => d > bd,
            };
            if better {
                best = Some((m, d));
            }
        }
        proof {
            if best is None {
                assert(prev is None);
                assert forall|m: int| 0 <= m < j + 1 implies !is_significant(ink@, #[trigger] ks[m], 10) by {
                    if m < j {
                    } else {
                        assert(!is_significant(ink@, ks[j as int], 10));
                    }
                }
            }
        }
        j = j + 1;
    }
    match best {
        None => None,
        Some((c, _)) => Some(c),
    }
}

// ── The text band of a box ───────────────────────────────────────────

/// Ink pixels among the first `n` pixels of row `row` (rows are `w` wide).
pub open spec fn row_ink(px: Seq<Rgb>, w: int, bg: Rgb, row: int, n: int) -> nat
    decreases n,
{
    if n <= 0 {
        0
    } else {
        row_ink(px, w, bg, row, n - 1) + if is_ink(px[row * w + n - 1], bg) {
            1nat
        } else {
            0nat
        }
    }
}

/// A text row has moderate ink: at least 5% of the width, less than 90% (a
/// near-full-width ink row is a border or divider).
pub open spec fn is_text_row(px: Seq<Rgb>, w: int, bg: Rgb, row: int) -> bool {
    let ink = row_ink(px, w, bg, row, w);
    ink * 20 >= w && ink * 10 < w * 9
}

/// Rows `a..=b` are all text rows.
pub open spec fn all_text_rows(px: Seq<Rgb>, w: int, bg: Rgb, a: int, b: int) -> bool {
    forall|r: int| a <= r <= b ==> #[trigger] is_text_row(px, w, bg, r)
}

/// Rows `s..=e` are the tallest run of text rows among the `px.len() as int / w`
/// whole rows, and the earliest among equally tall runs.
pub open spec fn is_text_band(px: Seq<Rgb>, w: int, bg: Rgb, s: int, e: int) -> bool {
    let h = px.len() as int / w;
    &&& 0 <= s <= e < h
    &&& all_text_rows(px, w, bg, s, e)
    &&& forall|a: int, b: int|
        0 <= a <= b < h && #[trigger] all_text_rows(px, w, bg, a, b) ==> b - a <= e - s && (b - a
            == e - s ==> s <= a)
}

spec fn band_run_ok(px: Seq<Rgb>, w: int, bg: Rgb, run: Option<usize>, row: int) -> bool {
    match run {
        Some(st) => st < row && all_text_rows(px, w, bg, st as int, row - 1) && (st == 0
            || !is_text_row(px, w, bg, st - 1)),
        None => row == 0 || !is_text_row(px, w, bg, row - 1),
    }
}

spec fn band_best_ok(px: Seq<Rgb>, w: int, bg: Rgb, best: Option<(usize, usize)>, lim: int) -> bool {
    match best {
        Some((bs, be)) => {
            &&& bs <= be < lim
            &&& all_text_rows(px, w, bg, bs as int, be as int)
            &&& forall|a: int, b: int|
                0 <= a <= b < lim && #[trigger] all_text_rows(px, w, bg, a, b) ==> b - a <= be - bs && (b
                    - a == be - bs ==> bs <= a)
        },
        None => forall|a: int, b: int| 0 <= a <= b < lim ==> !#[trigger] all_text_rows(px, w, bg, a, b),
    }
}

spec fn band_pick(best: Option<(usize, usize)>, st: usize, end: usize) -> Option<(usize, usize)> {
    match best {
        None => Some((st, (end - 1) as usize)),
        Some((bs, be)) => if end - st > be - bs + 1 {
            Some((st, (end - 1) as usize))
        } else {
            best
        },
    }
}

proof fn lemma_close_run(px: Seq<Rgb>, w: int, bg: Rgb, best: Option<(usize, usize)>, st: usize, end: usize)
    requires
        st < end,
        band_best_ok(px, w, bg, best, st as int),
        all_text_rows(px, w, bg, st as int, end - 1),
        st == 0 || !is_text_row(px, w, bg, st - 1),
    ensures
        band_best_ok(px, w, bg, band_pick(best, st, end), end as int),
{
    let nb = band_pick(best, st, end);
    let (nbs, nbe) = nb.unwrap();
    assert forall|a: int, b: int| 0 <= a <= b < end && #[trigger] all_text_rows(px, w, bg, a, b) implies b
        - a <= nbe - nbs && (b - a == nbe - nbs ==> nbs <= a) by {
        if b >= st {
            if a < st {
                assert(is_text_row(px, w, bg, st - 1));
            }
        }
    }
}

proof fn lemma_row_in_bounds(len: int, w: int, row: int, x: int)
    requires
        w > 0,
        0 <= row < len / w,
        0 <= x < w,
        len >= 0,
    ensures
        0 <= row * w + x < len,
        row * w + w <= len,
{
    assert(row * w + w <= (len / w) * w) by (nonlinear_arith)
        requires
            row + 1 <= len / w,
            w > 0,
    ;
    assert((len / w) * w <= len) by (nonlinear_arith)
        requires
            w > 0,
            len >= 0,
    ;
    assert(0 <= row * w) by (nonlinear_arith)
        requires
            row >= 0,
            w > 0,
    ;
}

fn row_ink_exec(px: &[Rgb], width: usize, bg: Rgb, row: usize) -> (r: usize)
    requires
        width > 0,
        row < px@.len() as int / (width as int),
    ensures
        r == row_ink(px@, width as int, bg, row as int, width as int),
        r <= width,
{
    let mut n: usize = 0;
    let mut x: usize = 0;
    proof {
        lemma_row_in_bounds(px@.len() as int, width as int, row as int, 0);
        assert(row * width + width <= px@.len());
    }
    let plen = px.len();
    assert(row * width + width <= plen);
    let base = row * width;
    while x < width
        invariant
            x <= width,
            n <= x,
            width > 0,
            row < px@.len() as int / (width as int),
            base == row * width,
            base + width <= px@.len(),
            plen == px@.len(),
            n == row_ink(px@, width as int, bg, row as int, x as int),
        decreases width - x,
    {
        if color_distance(px[base + x], bg) > 2304 {
            n = n + 1;
        }
        x = x + 1;
    }
    n
}

fn is_text_row_exec(px: &[Rgb], width: usize, bg: Rgb, row: usize) -> (r: bool)
    requires
        width > 0,
        row < px@.len() as int / (width as int),
        px@.len() <= max_pixels(),
    ensures
        r == is_text_row(px@, width as int, bg, row as int),
{
    let ink = row_ink_exec(px, width, bg, row) as u64;
    let w = width as u64;
    assert(w <= max_pixels()) by {
        lemma_row_in_bounds(px@.len() as int, width as int, row as int, 0);
    }
    ink * 20 >= w && ink * 10 < w * 9
}

/// The tallest contiguous band of text rows in a box of `width`-pixel rows
/// against background `bg`, as an inclusive row range; the earliest such
/// band when several are equally tall. `None` when there is no text row.
pub fn text_band(pixels: &[Rgb], width: usize, bg: Rgb) -> (r: Option<(usize, usize)>)
    requires
        pixels@.len() <= max_pixels(),
    ensures
        width == 0 || pixels@.len() == 0 ==> r is None,
        width > 0 && pixels@.len() > 0 ==> {
            &&& r is None <==> forall|row: int|
                0 <= row < pixels@.len() as int / (width as int) ==> !#[trigger] is_text_row(
                    pixels@,
                    width as int,
                    bg,
                    row,
                )
            &&& r matches Some((s, e)) ==> is_text_band(pixels@, width as int, bg, s as int, e as int)
        },
{
    if width == 0 || pixels.len() == 0 {
        return None;
    }
    let ghost w = width as int;
    let ghost px = pixels@;
    let height = pixels.len() / width;
    let mut best: Option<(usize, usize)> = None;
    let mut run: Option<usize> = None;
    let mut row: usize = 0;
    while row < height
        invariant
            width > 0,
            w == width as int,
            px == pixels@,
            px.len() <= max_pixels(),
            height == px.len() as int / w,
            row <= height,
            band_run_ok(px, w, bg, run, row as int),
            band_best_ok(
                px,
                w,
                bg,
                best,
                match run {
                    Some(st) => st as int,
                    None => row as int,
                },
            ),
        decreases height - row,
    {
        let text = is_text_row_exec(pixels, width, bg, row);
        if text {
            match run {
                None => {
                    run = Some(row);
                    assert(all_text_rows(px, w, bg, row as int, row as int));
                },
                Some(st) => {
                    assert(all_text_rows(px, w, bg, st as int, row as int));
                },
            }
        } else {
            match run {
                None => {
                    proof {
                        lemma_extend_nontext(px, w, bg, best, row as int);
                    }
                },
                Some(st) => {
                    let ghost prev = best;
                    proof {
                        lemma_close_run(px, w, bg, best, st, row);
                    }
                    let pick = match best {
                        None => true,
                        Some((bs, be)) => row - st > be - bs + 1,
                    };
                    if pick {
                        best = Some((st, row - 1));
                    }
                    assert(best == band_pick(prev, st, row));
                    proof {
                        lemma_extend_nontext(px, w, bg, best, row as int);
                    }
                    run = None;
                },
            }
        }
        row = row + 1;
    }
    match run {
        None => {},
        Some(st) => {
            let ghost prev = best;
            proof {
                lemma_close_run(px, w, bg, best, st, height);
            }
            let pick = match best {
                None => true,
                Some((bs, be)) => height - st > be - bs + 1,
            };
            if pick {
                best = Some((st, height - 1));
            }
            assert(best == band_pick(prev, st, height));
        },
    }
    proof {
        assert(band_best_ok(px, w, bg, best, height as int));
        match best {
            None => {
                assert forall|r: int| 0 <= r < height implies !#[trigger] is_text_row(px, w, bg, r) by {
                    assert(!all_text_rows(px, w, bg, r, r));
                }
            },
            Some((bs, be)) => {
                assert(is_text_row(px, w, bg, bs as int));
            },
        }
    }
    best
}

proof fn lemma_extend_nontext(px: Seq<Rgb>, w: int, bg: Rgb, best: Option<(usize, usize)>, lim: int)
    requires
        band_best_ok(px, w, bg, best, lim),
        !is_text_row(px, w, bg, lim),
    ensures
        band_best_ok(px, w, bg, best, lim + 1),
{
    assert forall|a: int, b: int| 0 <= a <= b < lim + 1 && #[trigger] all_text_rows(px, w, bg, a, b) implies b
        < lim by {
        if b == lim {
            assert(is_text_row(px, w, bg, lim));
        }
    }
}

// ── Background and foreground of a text box ──────────────────────────

/// The ink pixels of `s` against `bg`, in order.
pub open spec fn ink_of(s: Seq<Rgb>, bg: Rgb) -> Seq<Rgb>
    decreases s.len(),
{
    if s.len() == 0 {
        Seq::empty()
    } else if is_ink(s.last(), bg) {
        ink_of(s.drop_last(), bg).push(s.last())
    } else {
        ink_of(s.drop_last(), bg)
    }
}

/// The ink pixels of rows `r0..=r1`, row by row.
pub open spec fn band_ink(px: Seq<Rgb>, w: int, bg: Rgb, r0: int, r1: int) -> Seq<Rgb> {
    ink_of(px.subrange(r0 * w, (r1 + 1) * w), bg)
}

/// `bg` is the mean colour of a fullest bucket of `px`.
pub open spec fn is_background(px: Seq<Rgb>, bg: Rgb) -> bool {
    exists|k: Rgb| is_dominant_key(px, k) && bg == bucket_mean(px, k)
}

/// The box is a gradient or photo: more than three buckets each hold 5%.
pub open spec fn is_complex(px: Seq<Rgb>) -> bool {
    count_significant(bucket_keys(px), px, 20) > 3
}

/// With background `bg` there is no readable text: no text row, or no ink
/// bucket in the text band holding 10% of its ink.
pub open spec fn no_text_against(px: Seq<Rgb>, w: int, bg: Rgb) -> bool {
    ||| forall|row: int| 0 <= row < px.len() as int / w ==> !#[trigger] is_text_row(px, w, bg, row)
    ||| exists|s: int, e: int| {
        &&& #[trigger] is_text_band(px, w, bg, s, e)
        &&& forall|j: int|
            0 <= j < bucket_keys(band_ink(px, w, bg, s, e)).len() ==> !is_significant(
                band_ink(px, w, bg, s, e),
                #[trigger] bucket_keys(band_ink(px, w, bg, s, e))[j],
                10,
            )
    }
}

/// Background and foreground (glyph ink) of a text box of `width`-pixel
/// rows, with the height of its text band in rows. The background is the
/// dominant colour; the foreground is the farthest-from-background ink
/// colour within the text band. `None` when there are no pixels, the box is
/// a gradient or photo, or there is no readable text.
pub fn extract_text_colors(pixels: &[Rgb], width: usize) -> (r: Option<(Rgb, Rgb, u32)>)
    requires
        pixels@.len() <= max_pixels(),
    ensures
        r matches Some((bg, fg, h)) ==> {
            &&& width > 0
            &&& is_background(pixels@, bg)
            &&& !is_complex(pixels@)
            &&& exists|s: int, e: int| {
                &&& #[trigger] is_text_band(pixels@, width as int, bg, s, e)
                &&& h == #[verifier::truncate] ((e - s + 1) as u32)
                &&& is_farthest_ink(band_ink(pixels@, width as int, bg, s, e), bg, fg)
            }
        },
        r is None ==> {
            ||| pixels@.len() == 0
            ||| width == 0
            ||| is_complex(pixels@)
            ||| exists|bg: Rgb| is_background(pixels@, bg) && no_text_against(pixels@, width as int, bg)
        },
{
    let bg = match dominant_color(pixels) {
        None => {
            return None;
        },
        Some(c) => c,
    };
    if significant_cluster_count(pixels) > 3 {
        return None;
    }
    if width == 0 {
        return None;
    }
    let ghost w = width as int;
    let (r0, r1) = match text_band(pixels, width, bg) {
        None => {
            assert(is_background(pixels@, bg));
            assert(no_text_against(pixels@, w, bg));
            return None;
        },
        Some(b) => b,
    };
    proof {
        lemma_row_in_bounds(pixels@.len() as int, w, r1 as int, 0);
        assert(0 <= r0 * w) by (nonlinear_arith)
            requires
                r0 >= 0,
                w > 0,
        ;
        assert(r0 * w <= (r1 + 1) * w) by (nonlinear_arith)
            requires
                r0 <= r1 + 1,
                w > 0,
        ;
        assert((r1 + 1) * w == r1 * w + w) by (nonlinear_arith);
    }
    let plen = pixels.len();
    let start = r0 * width;
    let end = (r1 + 1) * width;
    let mut ink: Vec<Rgb> = Vec::new();
    let mut i = start;
    let ghost seg = pixels@.subrange(start as int, end as int);
    while i < end
        invariant
            start <= i <= end,
            end <= plen,
            plen == pixels@.len(),
            seg == pixels@.subrange(start as int, end as int),
            ink@ == ink_of(seg.take(i - start), bg),
        decreases end - i,
    {
        let p = pixels[i];
        proof {
            assert(seg.take(i + 1 - start).drop_last() =~= seg.take(i - start));
            assert(seg.take(i + 1 - start).last() == p);
        }
        if color_distance(p, bg) > 2304 {
            ink.push(p);
        }
        i = i + 1;
    }
    assert(seg.take(end - start) =~= seg);
    proof {
        lemma_ink_of_len(seg, bg);
    }
    let fg = farthest_ink_color(ink.as_slice(), bg);
    assert(ink@ == band_ink(pixels@, w, bg, r0 as int, r1 as int));
    assert(is_background(pixels@, bg));
    match fg {
        None => {
            assert(is_text_band(pixels@, w, bg, r0 as int, r1 as int));
            assert(no_text_against(pixels@, w, bg));
            None
        },
        Some(fg) => {
            let h: u32 = #[verifier::truncate] ((r1 - r0 + 1) as u32);
            assert(is_text_band(pixels@, w, bg, r0 as int, r1 as int));
            assert(h == (r1 as int - r0 as int + 1) as u32);
            assert(is_farthest_ink(band_ink(pixels@, w, bg, r0 as int, r1 as int), bg, fg));
            assert(!is_complex(pixels@));
            assert(exists|s: int, e: int| {
                &&& #[trigger] is_text_band(pixels@, width as int, bg, s, e)
                &&& h == #[verifier::truncate] ((e - s + 1) as u32)
                &&& is_farthest_ink(band_ink(pixels@, width as int, bg, s, e), bg, fg)
            });
            let res = Some((bg, fg, h));
            assert(res matches Some((b2, f2, h2)) && b2 == bg && f2 == fg && h2 == h);
            res
        },
    }
}

proof fn lemma_ink_of_len(s: Seq<Rgb>, bg: Rgb)
    ensures
        ink_of(s, bg).len() <= s.len(),
    decreases s.len(),
{
    if s.len() > 0 {
        lemma_ink_of_len(s.drop_last(), bg);
    }
}

/// The text band is unique: at most one row range is the tallest,
/// earliest run of text rows.
pub proof fn lemma_text_band_unique(px: Seq<Rgb>, w: int, bg: Rgb, s1: int, e1: int, s2: int, e2: int)
    requires
        is_text_band(px, w, bg, s1, e1),
        is_text_band(px, w, bg, s2, e2),
    ensures
        s1 == s2 && e1 == e2,
{
    assert(all_text_rows(px, w, bg, s2, e2));
    assert(all_text_rows(px, w, bg, s1, e1));
}

// ── Cropping a region out of a screenshot ─────────────────────────────

/// `v` clamped to `lo..=hi` (`lo <= hi`).
pub open spec fn clamp(v: int, lo: int, hi: int) -> int {
    if v < lo {
        lo
    } else if v > hi {
        hi
    } else {
        v
    }
}

/// The pixels of the region `(x, y, w, h)` of a row-major `iw`×`ih` image,
/// clamped to the image, row by row; with the region's width.
pub open spec fn spec_crop(px: Seq<Rgb>, iw: int, ih: int, x: int, y: int, w: int, h: int) -> (Seq<Rgb>, int) {
    let x0 = clamp(x, 0, iw);
    let y0 = clamp(y, 0, ih);
    let x1 = clamp(x + w, 0, iw);
    let y1 = clamp(y + h, 0, ih);
    let cw = if x1 - x0 > 0 { x1 - x0 } else { 0 };
    let rows = if y1 - y0 > 0 { y1 - y0 } else { 0 };
    (Seq::new((rows * cw) as nat, |k: int| px[(y0 + k / cw) * iw + x0 + k % cw]), cw)
}

/// Crops the region `(x, y, w, h)` (clamped to the image) out of a
/// row-major RGB image of `img_width`×`img_height` pixels: the region's
/// pixels row by row, and its width.
pub fn crop_pixels(pixels: &[Rgb], img_width: u32, img_height: u32, x: i32, y: i32, w: i32, h: i32) -> (r: (
    Vec<Rgb>,
    usize,
))
    requires
        pixels@.len() == img_width * img_height,
        img_width <= i32::MAX,
        img_height <= i32::MAX,
        i32::MIN <= x + w <= i32::MAX,
        i32::MIN <= y + h <= i32::MAX,
    ensures
        r.0@ == spec_crop(pixels@, img_width as int, img_height as int, x as int, y as int, w as int, h as int).0,
        r.1 == spec_crop(pixels@, img_width as int, img_height as int, x as int, y as int, w as int, h as int).1,
{
    let iw = img_width as i64;
    let ih = img_height as i64;
    let clamp_exec = |v: i64, hi: i64| -> (c: i64)
        requires
            hi >= 0,
        ensures
            c == clamp(v as int, 0, hi as int),
    { if v < 0 { 0 } else if v > hi { hi } else { v } };
    let x0 = clamp_exec(x as i64, iw);
    let y0 = clamp_exec(y as i64, ih);
    let x1 = clamp_exec(x as i64 + w as i64, iw);
    let y1 = clamp_exec(y as i64 + h as i64, ih);
    let cw: i64 = if x1 - x0 > 0 { x1 - x0 } else { 0 };
    let ghost spec = spec_crop(pixels@, iw as int, ih as int, x as int, y as int, w as int, h as int);
    let mut out: Vec<Rgb> = Vec::new();
    let mut yy = y0;
    while yy < y1
        invariant
            0 <= y0 <= yy,
            yy <= y1 || y1 < y0,
            y1 < y0 ==> yy == y0,
            y1 <= ih,
            iw <= i32::MAX,
            ih <= i32::MAX,
            0 <= x0 <= iw,
            0 <= x1 <= iw,
            iw == img_width,
            ih == img_height,
            pixels@.len() == iw * ih,
            cw == (if x1 - x0 > 0 { x1 - x0 } else { 0 }),
            x0 == clamp(x as int, 0, iw as int),
            y0 == clamp(y as int, 0, ih as int),
            x1 == clamp(x + w, 0, iw as int),
            y1 == clamp(y + h, 0, ih as int),
            out@.len() == (yy - y0) * cw,
            forall|k: int| 0 <= k < out@.len() ==> #[trigger] out@[k] == pixels@[(y0 as int + k / (cw as int)) * (iw as int) + x0 as int + k % (cw as int)],
        decreases y1 - yy,
    {
        let mut xx = x0;
        let ghost row_start = out@.len();
        while xx < x1 && cw > 0
            invariant
                x0 <= xx,
                cw > 0 ==> xx <= x1,
                0 <= x0,
                x1 <= iw,
                0 <= y0 <= yy < y1,
                y1 <= ih,
                iw == img_width,
                ih == img_height,
                iw <= i32::MAX,
                ih <= i32::MAX,
                pixels@.len() == iw * ih,
                cw == (if x1 - x0 > 0 { x1 - x0 } else { 0 }),
                cw == 0 ==> xx == x0,
                row_start == (yy - y0) * cw,
                out@.len() == row_start + (xx - x0),
                forall|k: int| 0 <= k < out@.len() ==> #[trigger] out@[k] == pixels@[(y0 as int + k / (cw as int)) * (iw as int) + x0 as int + k % (cw as int)],
            decreases x1 - xx,
        {
            proof {
                let k = out@.len() as int;
                let c = cw as int;
                assert(k / c == yy - y0 && k % c == xx - x0) by (nonlinear_arith)
                    requires
                        k == (yy - y0) * c + (xx - x0),
                        0 <= xx - x0 < c,
                        yy - y0 >= 0,
                ;
                assert(0 <= yy * iw + xx < iw * ih) by (nonlinear_arith)
                    requires
                        0 <= yy < ih,
                        0 <= xx < iw,
                ;
                assert(iw * ih <= 0x4000_0000_0000_0000) by (nonlinear_arith)
                    requires
                        0 <= iw <= 0x7FFF_FFFF,
                        0 <= ih <= 0x7FFF_FFFF,
                ;
            }
            let idx = (yy * iw + xx) as usize;
            out.push(pixels[idx]);
            xx = xx + 1;
        }
        proof {
            if x1 - x0 > 0 {
                assert(out@.len() == (yy + 1 - y0) * cw) by (nonlinear_arith)
                    requires
                        out@.len() == (yy - y0) * cw + (x1 - x0),
                        cw == x1 - x0,
                ;
            } else {
                assert(out@.len() == (yy + 1 - y0) * cw) by (nonlinear_arith)
                    requires
                        out@.len() == (yy - y0) * cw,
                        cw == 0,
                ;
            }
        }
        yy = yy + 1;
    }
    proof {
        let rows = if y1 - y0 > 0 { y1 - y0 } else { 0 };
        assert(out@.len() == rows * cw);
        assert(out@ =~= spec.0);
    }
    (out, cw as usize)
}


/// The colour distance is a squared distance: it is symmetric, zero exactly
/// for equal colours, and at least the square of each channel's difference.
pub proof fn lemma_color_distance_is_squared(a: Rgb, b: Rgb)
    ensures
        spec_color_distance(a, b) == spec_color_distance(b, a),
        spec_color_distance(a, b) == 0 <==> (a[0] == b[0] && a[1] == b[1] && a[2] == b[2]),
        spec_color_distance(a, b) >= (a[0] - b[0]) * (a[0] - b[0]),
        spec_color_distance(a, b) >= (a[1] - b[1]) * (a[1] - b[1]),
        spec_color_distance(a, b) >= (a[2] - b[2]) * (a[2] - b[2]),
{
    let dr = a[0] as int - b[0] as int;
    let dg = a[1] as int - b[1] as int;
    let db = a[2] as int - b[2] as int;
    assert(dr * dr >= 0 && dg * dg >= 0 && db * db >= 0) by (nonlinear_arith);
    assert((-dr) * (-dr) == dr * dr && (-dg) * (-dg) == dg * dg && (-db) * (-db) == db * db) by (nonlinear_arith);
    assert(dr * dr + dg * dg + db * db == 0 ==> dr == 0 && dg == 0 && db == 0) by (nonlinear_arith);
    assert(spec_color_distance(a, b) == dr * dr + dg * dg + db * db);
    if spec_color_distance(a, b) == 0 {
        assert(dr == 0 && dg == 0 && db == 0);
        assert(a[0] == b[0]);
        assert(a[1] == b[1]);
        assert(a[2] == b[2]);
    }
    if a[0] == b[0] && a[1] == b[1] && a[2] == b[2] {
        assert(dr == 0 && dg == 0 && db == 0);
        assert(dr * dr == 0 && dg * dg == 0 && db * db == 0);
    }
}


/// Colours are bucketed by the top four bits of each channel: a channel's
/// bucket value is the channel rounded down to a multiple of 16, so two
/// colours share a bucket exactly when each channel agrees in its top bits.
pub proof fn lemma_quantize_rounds_to_sixteen(p: Rgb)
    ensures
        spec_quantize(p)[0] == p[0] / 16 * 16,
        spec_quantize(p)[1] == p[1] / 16 * 16,
        spec_quantize(p)[2] == p[2] / 16 * 16,
{
    let (a, b, c) = (p[0], p[1], p[2]);
    assert(a & 0xF0u8 == a / 16 * 16) by (bit_vector);
    assert(b & 0xF0u8 == b / 16 * 16) by (bit_vector);
    assert(c & 0xF0u8 == c / 16 * 16) by (bit_vector);
}

} // verus!
