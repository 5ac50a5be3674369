use golem_runner::capture::{
    build_recording_path, build_screenshot_path, build_sidecar_path, build_trace_path,
    build_tree_path, embed_png_metadata, failure_capture_enabled, recording_name,
    recording_was_active, sanitize_filename, trace_capture_enabled, trace_png_entries,
    write_png_chunk, CaptureConfig, TraceMeta,
};
use std::path::{Path, PathBuf};

fn test_config() -> CaptureConfig {
    CaptureConfig {
        flow_name: "login_flow".to_string(),
        device_name: "iPhone_16e".to_string(),
        ..CaptureConfig::default()
    }
}

fn minimal_png() -> Vec<u8> {
    let mut out = Vec::new();
    out.extend_from_slice(&[0x89, 0x50, 0x4E, 0x47, 0x0D, 0x0A, 0x1A, 0x0A]);
    let ihdr_data: [u8; 13] = [0, 0, 0, 1, 0, 0, 0, 1, 8, 2, 0, 0, 0];
    write_png_chunk(&mut out, b"IHDR", &ihdr_data);
    write_png_chunk(&mut out, b"IEND", &[]);
    out
}

#[test]
fn build_screenshot_path_generates_correct_filename() {
    let config = test_config();
    let path = build_screenshot_path(&config, "verify_block", 3, 0, 1, "error");
    assert_eq!(
        PathBuf::from(path),
        PathBuf::from(".golem/results/login_flow/iPhone_16e/screenshots/3_verify_block_0_1_error.png")
    );
}

#[test]
fn build_screenshot_path_sanitizes_special_characters() {
    let config = CaptureConfig {
        flow_name: "my flow!".to_string(),
        device_name: "iPhone 16 Pro".to_string(),
        ..CaptureConfig::default()
    };
    let path = build_screenshot_path(&config, "block #1", 5, 2, 0, "warn");
    assert_eq!(
        PathBuf::from(path),
        PathBuf::from(".golem/results/my_flow_/iPhone_16_Pro/screenshots/5_block__1_2_0_warn.png")
    );
}

#[test]
fn capture_config_defaults() {
    let config = CaptureConfig::default();
    assert!(config.screenshot_on_failure);
    assert!(config.write_to_disk);
    assert!(config.cli_force_record.is_none());
    assert!(config.project_record.is_none());
    assert_eq!(PathBuf::from(config.output_dir), PathBuf::from(".golem/results"));
}

#[test]
fn sanitize_filename_handles_special_chars() {
    assert_eq!(sanitize_filename("hello world"), "hello_world");
    assert_eq!(sanitize_filename("test/flow.v2"), "test_flow_v2");
    assert_eq!(sanitize_filename("keep-dashes_and_underscores"), "keep-dashes_and_underscores");
    assert_eq!(sanitize_filename("emoji\u{1F600}name"), "emoji_name");
    assert_eq!(sanitize_filename(""), "");
}

#[test]
fn screenshot_path_components() {
    let config = CaptureConfig {
        output_dir: "/tmp/out".to_string(),
        flow_name: "checkout".to_string(),
        device_name: "Pixel-6".to_string(),
        ..CaptureConfig::default()
    };
    let path = PathBuf::from(build_screenshot_path(&config, "payment", 7, 1, 3, "warn"));
    let filename = path
        .file_name()
        .expect("should have filename")
        .to_str()
        .expect("should be valid utf8");
    assert_eq!(filename, "7_payment_1_3_warn.png");
    assert_eq!(
        path.parent().expect("should have parent"),
        Path::new("/tmp/out/checkout/Pixel-6/screenshots")
    );
}

#[test]
fn recording_path_components() {
    let config = CaptureConfig {
        output_dir: "/tmp/out".to_string(),
        flow_name: "signup".to_string(),
        device_name: "Pixel-6".to_string(),
        ..CaptureConfig::default()
    };
    let path = build_recording_path(&config, "login", 0);
    assert_eq!(PathBuf::from(path), PathBuf::from("/tmp/out/signup/Pixel-6/recordings/login_0.mp4"));
}

#[test]
fn embed_png_metadata_returns_original_for_malformed_input() {
    let garbage = vec![0u8; 4];
    let out = embed_png_metadata(&garbage, &[("key", "value")]);
    assert_eq!(out, garbage, "malformed input SHALL be returned unchanged");
}

#[test]
fn embed_png_metadata_preserves_signature_and_iend() {
    let png = minimal_png();
    let out = embed_png_metadata(&png, &[("golem-flow", "demo")]);
    assert_eq!(&out[..8], &[0x89, 0x50, 0x4E, 0x47, 0x0D, 0x0A, 0x1A, 0x0A]);
    assert_eq!(&out[12..16], b"IHDR");
    assert!(out.windows(4).any(|w| w == b"IEND"));
}

#[test]
fn embed_png_metadata_inserts_text_chunks() {
    let png = minimal_png();
    let entries = [
        ("golem-flow", "tap.test"),
        ("golem-device", "iPhone 17"),
        ("golem-boundary", "3"),
    ];
    let out = embed_png_metadata(&png, &entries);
    for (k, v) in &entries {
        let mut needle = Vec::from(*b"tEXt");
        needle.extend_from_slice(k.as_bytes());
        needle.push(0);
        needle.extend_from_slice(v.as_bytes());
        assert!(
            out.windows(needle.len()).any(|w| w == needle.as_slice()),
            "tEXt chunk for {k}={v} SHALL be present in output"
        );
    }
    assert!(out.len() > png.len());
}

#[test]
fn embed_png_metadata_strips_null_bytes() {
    let png = minimal_png();
    let out = embed_png_metadata(&png, &[("with\0null", "ok")]);
    let illegal: &[u8] = b"with\0null\0ok";
    assert!(!out.windows(illegal.len()).any(|w| w == illegal));
    let cleaned: &[u8] = b"withnull\0ok";
    assert!(out.windows(cleaned.len()).any(|w| w == cleaned));
}

#[test]
fn embed_png_metadata_returns_original_for_truncated_ihdr() {
    let mut truncated = vec![0x89, 0x50, 0x4E, 0x47, 0x0D, 0x0A, 0x1A, 0x0A];
    truncated.extend_from_slice(&[0u8; 12]);
    assert!(truncated.len() < 33, "fixture SHALL be shorter than IHDR end");
    let out = embed_png_metadata(&truncated, &[("k", "v")]);
    assert_eq!(out, truncated, "truncated IHDR SHALL be returned unchanged");
}

#[test]
fn embed_png_metadata_empty_entries_preserves_bytes() {
    let png = minimal_png();
    let out = embed_png_metadata(&png, &[]);
    assert_eq!(out, png, "no entries SHALL leave PNG byte-identical");
}

#[test]
fn build_tree_path_uses_tree_json_suffix() {
    let config = test_config();
    let path = build_tree_path(&config, "verify block", 3, 0, 1, "error");
    assert_eq!(
        PathBuf::from(path),
        PathBuf::from(".golem/results/login_flow/iPhone_16e/screenshots/3_verify_block_0_1_error_tree.json")
    );
}

#[test]
fn build_trace_path_zero_pads_boundary_index() {
    let config = test_config();
    let path = build_trace_path(&config, 0, "preflow", "png");
    assert_eq!(
        PathBuf::from(path),
        PathBuf::from(".golem/results/login_flow/iPhone_16e/trace/000_preflow.png")
    );
    let path2 = build_trace_path(&config, 42, "after", "json");
    assert_eq!(
        PathBuf::from(path2),
        PathBuf::from(".golem/results/login_flow/iPhone_16e/trace/042_after.json")
    );
}

#[test]
fn build_trace_path_large_index_not_truncated() {
    let config = test_config();
    let path = PathBuf::from(build_trace_path(&config, 1234, "after", "png"));
    assert_eq!(path.file_name().and_then(|f| f.to_str()), Some("1234_after.png"));
}

#[test]
fn png_chunk_crc_matches_known_iend() {
    let mut out = Vec::new();
    write_png_chunk(&mut out, b"IEND", &[]);
    assert_eq!(out, vec![0, 0, 0, 0, b'I', b'E', b'N', b'D', 0xAE, 0x42, 0x60, 0x82]);
}

#[test]
fn png_chunk_crc_matches_known_ihdr() {
    let mut out = Vec::new();
    let ihdr: [u8; 13] = [0, 0, 0, 1, 0, 0, 0, 1, 8, 2, 0, 0, 0];
    write_png_chunk(&mut out, b"IHDR", &ihdr);
    assert_eq!(&out[..8], &[0, 0, 0, 13, b'I', b'H', b'D', b'R']);
    assert_eq!(&out[21..], &[0x90, 0x77, 0x53, 0xDE]);
}

#[test]
fn embedded_chunk_sits_right_after_ihdr() {
    let png = minimal_png();
    let out = embed_png_metadata(&png, &[("k", "v")]);
    assert_eq!(&out[..33], &png[..33]);
    assert_eq!(&out[33..37], &[0, 0, 0, 3]);
    assert_eq!(&out[37..41], b"tEXt");
    assert_eq!(&out[41..44], b"k\0v");
    assert_eq!(&out[out.len() - 12..], &png[33..]);
}

#[test]
fn capture_switches_follow_config() {
    let mut config = test_config();
    assert!(failure_capture_enabled(&config));
    assert!(!trace_capture_enabled(&config));
    config.trace = true;
    assert!(trace_capture_enabled(&config));
    config.write_to_disk = false;
    assert!(!failure_capture_enabled(&config));
    assert!(!trace_capture_enabled(&config));
}

#[test]
fn recording_name_joins_sanitized_parts() {
    let config = CaptureConfig {
        flow_name: "my-flow".to_string(),
        device_name: "iPhone14".to_string(),
        ..CaptureConfig::default()
    };
    assert_eq!(recording_name(&config, "login", 2).as_deref(), Some("my-flow_iPhone14_login_2"));
    let off = CaptureConfig { write_to_disk: false, ..test_config() };
    assert_eq!(recording_name(&off, "login", 2), None);
    assert!(recording_was_active("/sdcard/rec.mp4"));
    assert!(!recording_was_active(""));
}

#[test]
fn sidecar_path_is_in_recordings_dir() {
    let config = test_config();
    assert_eq!(
        build_sidecar_path(&config, "auth block", 3).as_deref(),
        Some(".golem/results/login_flow/iPhone_16e/recordings/auth_block_3_steps.json")
    );
    let off = CaptureConfig { write_to_disk: false, ..test_config() };
    assert_eq!(build_sidecar_path(&off, "auth", 0), None);
}

#[test]
fn trace_entries_include_optional_step_and_action() {
    let config = test_config();
    let meta = TraceMeta { after_step: Some(4), action: Some("tap"), wall_clock: "2024-01-01T00:00:00Z" };
    let e = trace_png_entries(&config, 5, &meta, "1.2.3");
    let keys: Vec<&str> = e.iter().map(|(k, _)| k.as_str()).collect();
    assert_eq!(
        keys,
        [
            "golem-flow",
            "golem-device",
            "golem-boundary",
            "golem-wall-clock",
            "golem-version",
            "golem-after-step",
            "golem-action"
        ]
    );
    assert_eq!(e[2].1, "5");
    assert_eq!(e[5].1, "4");
    let pre = TraceMeta { after_step: None, action: None, wall_clock: "t" };
    assert_eq!(trace_png_entries(&config, 0, &pre, "1.2.3").len(), 5);
}

#[test]
fn sanitizing_twice_changes_nothing() {
    for name in ["my flow!", "test/flow.v2", "emoji\u{1F600}name", "ok-name_1", ""] {
        let once = sanitize_filename(name);
        assert_eq!(sanitize_filename(&once), once);
        assert_eq!(once.chars().count(), name.chars().count());
        assert!(once.chars().all(|c| c.is_alphanumeric() || c == '_' || c == '-'));
    }
}

#[test]
fn embed_png_metadata_returns_original_without_ihdr_chunk() {
    let mut png = vec![0x89, 0x50, 0x4E, 0x47, 0x0D, 0x0A, 0x1A, 0x0A];
    png.extend_from_slice(&[0u8; 25]);
    let out = embed_png_metadata(&png, &[("k", "v")]);
    assert_eq!(out, png, "a signature with no IHDR chunk is malformed and comes back unchanged");
}
