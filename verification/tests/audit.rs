use golem_runner::audit::{audit_from_chunks, audit_summary, read_embedded_audit, A11yMeta, AuditReadError};

fn png_with(chunks: &[(&str, &str)]) -> Vec<u8> {
    let mut out = Vec::new();
    {
        let mut enc = png::Encoder::new(&mut out, 1, 1);
        enc.set_color(png::ColorType::Rgba);
        enc.set_depth(png::BitDepth::Eight);
        for (k, v) in chunks {
            enc.add_itxt_chunk(k.to_string(), v.to_string()).expect("add chunk");
        }
        let mut writer = enc.write_header().expect("header");
        writer.write_image_data(&[255, 255, 255, 255]).expect("data");
    }
    out
}

fn meta() -> A11yMeta {
    A11yMeta {
        app: "com.example".to_string(),
        device: "Pixel 8".to_string(),
        platform: "android".to_string(),
        flow: "login".to_string(),
        block: "auth".to_string(),
        iteration: 0,
        seed: 42,
        level: "strict".to_string(),
    }
}

#[test]
fn read_embedded_audit_roundtrips_and_rejects_foreign() {
    let golem = png_with(&[("Software", "Golem"), ("Golem-Audit", "{\"seed\":42}")]);
    assert_eq!(read_embedded_audit(&golem).expect("golem audit reads"), "{\"seed\":42}");

    let foreign = png_with(&[("Software", "Acme Snipper"), ("Golem-Audit", "{}")]);
    assert!(
        matches!(read_embedded_audit(&foreign), Err(AuditReadError::NotGolem)),
        "non-golem Software SHALL be rejected"
    );

    assert!(matches!(read_embedded_audit(b"not a png"), Err(AuditReadError::NotPng(_))));
}

#[test]
fn golem_png_without_audit_chunk_is_missing_audit() {
    let png = png_with(&[("Software", "Golem"), ("Golem-Summary", "x")]);
    assert_eq!(read_embedded_audit(&png), Err(AuditReadError::MissingAudit));
    let bare = png_with(&[]);
    assert_eq!(read_embedded_audit(&bare), Err(AuditReadError::NotGolem));
}

#[test]
fn first_chunk_of_a_keyword_decides() {
    let entries = vec![
        ("Software".to_string(), Some("Golem".to_string())),
        ("Golem-Audit".to_string(), Some("first".to_string())),
        ("Golem-Audit".to_string(), Some("second".to_string())),
    ];
    assert_eq!(audit_from_chunks(&entries), Ok("first".to_string()));
    let undecodable = vec![
        ("Software".to_string(), Some("Golem".to_string())),
        ("Golem-Audit".to_string(), None),
        ("Golem-Audit".to_string(), Some("later".to_string())),
    ];
    assert_eq!(audit_from_chunks(&undecodable), Err(AuditReadError::MissingAudit));
    let spoofed = vec![
        ("Software".to_string(), Some("Other".to_string())),
        ("Software".to_string(), Some("Golem".to_string())),
        ("Golem-Audit".to_string(), Some("x".to_string())),
    ];
    assert_eq!(audit_from_chunks(&spoofed), Err(AuditReadError::NotGolem));
}

#[test]
fn error_messages() {
    assert_eq!(AuditReadError::NotPng("bad".to_string()).message(), "not a readable PNG: bad");
    assert_eq!(
        AuditReadError::NotGolem.message(),
        "no Golem metadata (Software != \"Golem\") — not a golem annotated screenshot"
    );
    assert_eq!(AuditReadError::MissingAudit.message(), "Golem PNG has no Golem-Audit chunk");
}

#[test]
fn summary_line_names_the_run() {
    assert_eq!(
        audit_summary(&meta(), 2, 13),
        "golem a11y · flow \"login\" block \"auth\" · Pixel 8 · 2 error(s), 13 warning(s) · seed 42 · level strict"
    );
}
