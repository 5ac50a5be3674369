use golem_runner::media::detect_media_kind;

#[test]
fn detect_media_kind_accepts_images_and_video() {
    assert_eq!(detect_media_kind(b"\x89PNG\r\n\x1a\n....."), Some("png"));
    assert_eq!(detect_media_kind(b"\xFF\xD8\xFF\xE0JFIF"), Some("jpeg"));
    assert_eq!(detect_media_kind(b"GIF89a......."), Some("gif"));
    assert_eq!(detect_media_kind(b"BM????????????"), Some("bmp"));
    assert_eq!(detect_media_kind(b"II\x2A\x00????????"), Some("tiff"));
    assert_eq!(detect_media_kind(b"RIFF????WEBPVP8 "), Some("webp"));
    assert_eq!(detect_media_kind(b"\x00\x00\x00\x18ftypheic"), Some("heif"));
    assert_eq!(detect_media_kind(b"\x00\x00\x00\x18ftypqt  "), Some("mov"));
    assert_eq!(detect_media_kind(b"\x00\x00\x00\x18ftypisom"), Some("mp4"));
}

#[test]
fn detect_media_kind_rejects_non_media() {
    assert_eq!(detect_media_kind(b"hello, this is text"), None);
    assert_eq!(detect_media_kind(b""), None);
    assert_eq!(detect_media_kind(b"\x89PN"), None);
    assert_eq!(detect_media_kind(b"ftypmp42"), None);
}

#[test]
fn detect_media_kind_other_signatures() {
    assert_eq!(detect_media_kind(b"GIF87a......."), Some("gif"));
    assert_eq!(detect_media_kind(b"MM\x00\x2A????????"), Some("tiff"));
    assert_eq!(detect_media_kind(b"RIFF????AVI LIST"), None);
}
