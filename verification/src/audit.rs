//! Reading the audit record back out of an annotated screenshot, and the
//! one-line summary written beside it.
use vstd::prelude::*;
use crate::element::opt_view;
use crate::text::{append_str, push_decimal, str_eq, string_from_chars};

verus! {

/// Context embedded in an annotated screenshot.
pub struct A11yMeta {
    pub app: String,
    pub device: String,
    /// Platform string (`ios`/`android`).
    pub platform: String,
    pub flow: String,
    pub block: String,
    pub iteration: u32,
    pub seed: u64,
    pub level: String,
}

/// Why an annotated PNG cannot be read as an audit.
#[derive(Debug, PartialEq, Eq)]
pub enum AuditReadError {
    /// The bytes are not a decodable PNG (the decoder's message).
    NotPng(String),
    /// No `Software = Golem` chunk: a foreign image, or a re-encoded one.
    NotGolem,
    /// A golem PNG without a `Golem-Audit` chunk.
    MissingAudit,
}

/// The iTXt chunks that the PNG decoder reports for `png` in its metadata
/// (read up to the first image-data chunk), in file order: each chunk's
/// keyword, and its text when it decompresses to UTF-8. `None` when the
/// bytes are not a decodable PNG.
pub uninterp spec fn png_itxt_chunks(png: Seq<u8>) -> Option<Seq<(Seq<char>, Option<Seq<char>>)>>;

/// The character views of decoded (keyword, text) pairs.
pub open spec fn itxt_views(v: Seq<(String, Option<String>)>) -> Seq<(Seq<char>, Option<Seq<char>>)> {
    v.map_values(|e: (String, Option<String>)| (e.0@, opt_view(e.1)))
}

/// Decodes the PNG's header and metadata with `png::Decoder::new(..)
/// .read_info()` and lists `info().utf8_text`: each chunk's `keyword`, and
/// the text that `decompress_text` then `get_text` yield on a copy of it
/// (`None` when either fails). On a decoding error, its message. What the
/// message says is not stated.
#[verifier::external_body]
fn decode_itxt_chunks(png_bytes: &[u8]) -> (r: Result<Vec<(String, Option<String>)>, String>)
    ensures
        r is Ok <==> png_itxt_chunks(png_bytes@) is Some,
        r matches Ok(v) ==> png_itxt_chunks(png_bytes@) == Some(itxt_views(v@)),
{
    let reader = match png::Decoder::new(std::io::Cursor::new(png_bytes)).read_info() {
        Ok(reader) => reader,
        Err(e) => return Err(e.to_string()),
    };
    let mut out = Vec::new();
    for chunk in reader.info().utf8_text.iter() {
        let mut c = chunk.clone();
        let text = match c.decompress_text() {
            Ok(()) => c.get_text().ok(),
            Err(_) => None,
        };
        out.push((chunk.keyword.clone(), text));
    }
    Ok(out)
}

/// The text of the first chunk whose keyword is `key` (`None` when there is
/// no such chunk, or its text did not decode).
pub open spec fn text_of(es: Seq<(Seq<char>, Option<Seq<char>>)>, key: Seq<char>) -> Option<Seq<char>>
    decreases es.len(),
{
    if es.len() == 0 {
        None
    } else if es[0].0 == key {
        es[0].1
    } else {
        text_of(es.drop_first(), key)
    }
}

/// The chunks mark a golem image: `Software` reads `Golem`.
pub open spec fn is_golem(es: Seq<(Seq<char>, Option<Seq<char>>)>) -> bool {
    text_of(es, "Software"@) == Some("Golem"@)
}

fn find_text(entries: &Vec<(String, Option<String>)>, key: &str) -> (r: Option<String>)
    ensures
        opt_view(r) == text_of(itxt_views(entries@), key@),
{
    let ghost es = itxt_views(entries@);
    let mut i: usize = 0;
    assert(es.skip(0) =~= es);
    while i < entries.len()
        invariant
            i <= entries.len(),
            es == itxt_views(entries@),
            text_of(es, key@) == text_of(es.skip(i as int), key@),
        decreases entries.len() - i,
    {
        let ghost rest = es.skip(i as int);
        assert(rest[0] == es[i as int]);
        assert(rest.drop_first() =~= es.skip(i + 1));
        if str_eq(entries[i].0.as_str(), key) {
            return entries[i].1.clone();
        }
        i = i + 1;
    }
    assert(es.skip(i as int).len() == 0);
    None
}

/// The audit record held by decoded iTXt chunks: `NotGolem` unless the
/// first `Software` chunk reads `Golem`, then the text of the first
/// `Golem-Audit` chunk, or `MissingAudit` when it has none.
pub fn audit_from_chunks(entries: &Vec<(String, Option<String>)>) -> (r: Result<String, AuditReadError>)
    ensures
        r is Ok <==> is_golem(itxt_views(entries@)) && text_of(itxt_views(entries@), "Golem-Audit"@) is Some,
        r matches Ok(s) ==> text_of(itxt_views(entries@), "Golem-Audit"@) == Some(s@),
        r matches Err(e) ==> (e is NotGolem <==> !is_golem(itxt_views(entries@))),
        r matches Err(e) ==> (e is NotGolem || e is MissingAudit),
{
    let software = find_text(entries, "Software");
    let golem = match software {
        Some(s) => str_eq(s.as_str(), "Golem"),
        None => false,
    };
    if !golem {
        return Err(AuditReadError::NotGolem);
    }
    match find_text(entries, "Golem-Audit") {
        Some(a) => Ok(a),
        None => Err(AuditReadError::MissingAudit),
    }
}

/// Reads the embedded `Golem-Audit` JSON out of an annotated PNG. A PNG
/// without `Software = Golem` is refused rather than misread.
pub fn read_embedded_audit(png_bytes: &[u8]) -> (r: Result<String, AuditReadError>)
    ensures
        r matches Err(e) ==> (e is NotPng <==> png_itxt_chunks(png_bytes@) is None),
        png_itxt_chunks(png_bytes@) matches Some(es) ==> {
            &&& r is Ok <==> is_golem(es) && text_of(es, "Golem-Audit"@) is Some
            &&& r matches Ok(s) ==> text_of(es, "Golem-Audit"@) == Some(s@)
            &&& r matches Err(e) ==> (e is NotGolem <==> !is_golem(es))
        },
{
    match decode_itxt_chunks(png_bytes) {
        Err(msg) => Err(AuditReadError::NotPng(msg)),
        Ok(entries) => audit_from_chunks(&entries),
    }
}

impl AuditReadError {
    /// The error's message.
    pub fn message(&self) -> (r: String)
        ensures
            self matches AuditReadError::NotPng(e) ==> r@ == "not a readable PNG: "@ + e@,
            self is NotGolem ==> r@ == "no Golem metadata (Software != \"Golem\") — not a golem annotated screenshot"@,
            self is MissingAudit ==> r@ == "Golem PNG has no Golem-Audit chunk"@,
    {
        let mut out: Vec<char> = Vec::new();
        match self {
            AuditReadError::NotPng(e) => {
                append_str(&mut out, "not a readable PNG: ");
                append_str(&mut out, e.as_str());
            },
            AuditReadError::NotGolem => {
                append_str(
                    &mut out,
                    "no Golem metadata (Software != \"Golem\") — not a golem annotated screenshot",
                );
            },
            AuditReadError::MissingAudit => {
                append_str(&mut out, "Golem PNG has no Golem-Audit chunk");
            },
        }
        string_from_chars(&out)
    }
}

/// The human one-line summary stored beside the audit record.
pub open spec fn spec_audit_summary(meta: A11yMeta, errors: nat, warnings: nat) -> Seq<char> {
    "golem a11y · flow \""@ + meta.flow@ + "\" block \""@ + meta.block@ + "\" · "@ + meta.device@
        + " · "@ + crate::text::spec_decimal(errors) + " error(s), "@ + crate::text::spec_decimal(warnings)
        + " warning(s) · seed "@ + crate::text::spec_decimal(meta.seed as nat) + " · level "@
        + meta.level@
}

/// The summary line: flow, block, device, error and warning counts, seed and
/// level.
pub fn audit_summary(meta: &A11yMeta, errors: usize, warnings: usize) -> (r: String)
    ensures
        r@ == spec_audit_summary(*meta, errors as nat, warnings as nat),
{
    let mut out: Vec<char> = Vec::new();
    append_str(&mut out, "golem a11y · flow \"");
    append_str(&mut out, meta.flow.as_str());
    append_str(&mut out, "\" block \"");
    append_str(&mut out, meta.block.as_str());
    append_str(&mut out, "\" · ");
    append_str(&mut out, meta.device.as_str());
    append_str(&mut out, " · ");
    push_decimal(&mut out, errors as u64);
    append_str(&mut out, " error(s), ");
    push_decimal(&mut out, warnings as u64);
    append_str(&mut out, " warning(s) · seed ");
    push_decimal(&mut out, meta.seed);
    append_str(&mut out, " · level ");
    append_str(&mut out, meta.level.as_str());
    string_from_chars(&out)
}

} // verus!
