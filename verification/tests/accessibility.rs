use golem_runner::accessibility::A11yLevel;
use golem_runner::color::{
    color_distance, crop_pixels, dominant_color, extract_text_colors, farthest_ink_color,
    significant_cluster_count, text_band,
};

type Rgb = [u8; 3];

fn relative_luminance(c: Rgb) -> f64 {
    fn lin(v: u8) -> f64 {
        let s = v as f64 / 255.0;
        if s <= 0.03928 {
            s / 12.92
        } else {
            ((s + 0.055) / 1.055).powf(2.4)
        }
    }
    0.2126 * lin(c[0]) + 0.7152 * lin(c[1]) + 0.0722 * lin(c[2])
}

fn wcag_contrast_ratio(a: Rgb, b: Rgb) -> f64 {
    let la = relative_luminance(a);
    let lb = relative_luminance(b);
    let (hi, lo) = if la >= lb { (la, lb) } else { (lb, la) };
    (hi + 0.05) / (lo + 0.05)
}

fn text_box() -> (Vec<Rgb>, usize) {
    let w = 10usize;
    let mut px = vec![[255u8, 255, 255]; w * 10];
    for row in 4..7 {
        for x in 1..(w - 1) {
            px[row * w + x] = [0, 0, 0];
        }
    }
    (px, w)
}

#[test]
fn level_parse_known_and_unknown() {
    assert_eq!(A11yLevel::parse("off"), Some(A11yLevel::Off));
    assert_eq!(A11yLevel::parse("relaxed"), Some(A11yLevel::Relaxed));
    assert_eq!(A11yLevel::parse("strict"), Some(A11yLevel::Strict));
    assert_eq!(A11yLevel::parse("banana"), None);
}

#[test]
fn level_screenshot_semantics() {
    assert!(!A11yLevel::Critical.forces_screenshot());
    assert!(!A11yLevel::Relaxed.forces_screenshot());
    assert!(A11yLevel::Strict.forces_screenshot());
}

#[test]
fn level_names_round_trip() {
    for l in [A11yLevel::Off, A11yLevel::Critical, A11yLevel::Relaxed, A11yLevel::Strict] {
        assert_eq!(A11yLevel::parse(l.as_str()), Some(l));
    }
    assert!(!A11yLevel::Off.is_enabled());
    assert!(A11yLevel::Critical.is_enabled());
    assert_eq!(A11yLevel::parse("Strict"), None);
}

#[test]
fn extract_text_colors_isolates_band_ink() {
    let (px, w) = text_box();
    let (bg, fg, h) = extract_text_colors(&px, w).expect("text present");
    assert!(bg[0] > 200, "bg ~white");
    assert!(fg[0] < 60, "fg ~black (glyph ink from band)");
    assert_eq!(h, 3, "band height = 3 rows");
    assert!(wcag_contrast_ratio(bg, fg) > 15.0, "black-on-white is high contrast");
}

#[test]
fn extract_text_colors_sparse_text_still_finds_ink() {
    let w = 20usize;
    let mut px = vec![[255u8, 255, 255]; w * 40];
    for x in 2..(w - 2) {
        px[5 * w + x] = [0, 0, 0];
    }
    let (bg, fg, _) = extract_text_colors(&px, w).expect("sparse text found");
    assert!(bg[0] > 200 && fg[0] < 60, "bg white, fg black");
}

#[test]
fn extract_text_colors_solid_is_none() {
    let px = vec![[128u8, 128, 128]; 100];
    assert!(extract_text_colors(&px, 10).is_none(), "no ink → None");
}

#[test]
fn extract_text_colors_complex_is_none() {
    let mut px = Vec::new();
    for c in [[10u8, 10, 10], [90, 90, 90], [170, 170, 170], [250, 250, 250]] {
        px.extend(vec![c; 25]);
    }
    assert!(extract_text_colors(&px, 10).is_none(), ">3 clusters → None");
}

#[test]
fn text_band_strips_padding() {
    let (px, w) = text_box();
    assert_eq!(text_band(&px, w, [255, 255, 255]), Some((4, 6)));
}

#[test]
fn text_band_all_background_is_none() {
    let px = vec![[255u8, 255, 255]; 100];
    assert!(text_band(&px, 10, [255, 255, 255]).is_none());
}

#[test]
fn color_distance_is_squared_euclidean() {
    assert_eq!(color_distance([0, 0, 0], [255, 255, 255]), 3 * 255 * 255);
    assert_eq!(color_distance([10, 20, 30], [13, 16, 30]), 9 + 16);
    assert_eq!(color_distance([7, 7, 7], [7, 7, 7]), 0);
}

#[test]
fn dominant_color_is_mean_of_fullest_bucket() {
    assert_eq!(dominant_color(&[]), None);
    let px = vec![[16u8, 32, 48], [18, 34, 50], [200, 200, 200]];
    assert_eq!(dominant_color(&px), Some([17, 33, 49]));
}

#[test]
fn significant_clusters_count_five_percent_buckets() {
    assert_eq!(significant_cluster_count(&[]), 0);
    let mut px = vec![[0u8, 0, 0]; 95];
    px.extend(vec![[255u8, 255, 255]; 5]);
    assert_eq!(significant_cluster_count(&px), 2);
    px.push([128, 0, 0]);
    assert_eq!(significant_cluster_count(&px), 1);
}

#[test]
fn farthest_ink_prefers_the_glyph_core_over_its_halo() {
    let bg = [255u8, 255, 255];
    let mut ink = vec![[128u8, 128, 128]; 6];
    ink.extend(vec![[0u8, 0, 0]; 4]);
    assert_eq!(farthest_ink_color(&ink, bg), Some([0, 0, 0]));
    assert_eq!(farthest_ink_color(&[], bg), None);
}

#[test]
fn a_divider_row_is_not_text() {
    let w = 10usize;
    let mut px = vec![[255u8, 255, 255]; w * 5];
    for x in 0..w {
        px[2 * w + x] = [0, 0, 0];
    }
    assert_eq!(text_band(&px, w, [255, 255, 255]), None);
    assert_eq!(text_band(&px, 0, [255, 255, 255]), None);
}

#[test]
fn crop_clamps_the_region_to_the_image() {
    let (w, h) = (4u32, 3u32);
    let px: Vec<Rgb> = (0..h).flat_map(|y| (0..w).map(move |x| [x as u8, y as u8, 0])).collect();
    let (out, cw) = crop_pixels(&px, w, h, 1, 1, 2, 5);
    assert_eq!(cw, 2);
    assert_eq!(out, vec![[1, 1, 0], [2, 1, 0], [1, 2, 0], [2, 2, 0]]);
    assert_eq!(crop_pixels(&px, w, h, -5, -5, 2, 2), (vec![], 0));
    assert_eq!(crop_pixels(&px, w, h, 10, 0, 5, 5), (vec![], 0));
    let (all, cw) = crop_pixels(&px, w, h, -1, -1, 10, 10);
    assert_eq!((all.len(), cw), (12, 4));
    assert_eq!(all, px);
}
