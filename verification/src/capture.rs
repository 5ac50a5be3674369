//! Screenshot, tree-dump, trace and recording paths for one flow on one device,
//! and the PNG `tEXt` metadata splice used by trace snapshots.
//!
//! Paths are `{output_dir}/{flow}/{device}/screenshots/…`,
//! `…/trace/…` and `…/recordings/…`, with `/` as the separator. Every
//! component joined onto `output_dir` is either a fixed directory name, a
//! sanitized name, or a filename that starts with a digit or a sanitized
//! name, so no component is ever absolute.
use vstd::prelude::*;
use vstd::string::StringSliceAdditionalSpecFns;
use crate::text::{
    append_chars, append_str, char_is_alphanumeric, chars_of, push_decimal, push_decimal_padded,
    spec_decimal, spec_decimal_padded, string_from_chars, unicode_alphanumeric,
};

verus! {

/// Configuration for automatic screenshot and recording capture.
pub struct CaptureConfig {
    /// Capture a screenshot (and tree dump) on step failure or warning.
    pub screenshot_on_failure: bool,
    /// CLI override of the per-block recording setting.
    pub cli_force_record: Option<bool>,
    /// Project-wide recording fallback.
    pub project_record: Option<bool>,
    /// Capture a screenshot + tree at every step boundary.
    pub trace: bool,
    /// When false, nothing is written to disk.
    pub write_to_disk: bool,
    /// Root output directory.
    pub output_dir: String,
    /// Flow name.
    pub flow_name: String,
    /// Device name.
    pub device_name: String,
}

impl Default for CaptureConfig {
    fn default() -> (r: Self)
        ensures
            r.screenshot_on_failure,
            r.cli_force_record is None,
            r.project_record is None,
            !r.trace,
            r.write_to_disk,
            r.output_dir@ == ".golem/results"@,
            r.flow_name@ == Seq::<char>::empty(),
            r.device_name@ == Seq::<char>::empty(),
    {
        CaptureConfig {
            screenshot_on_failure: true,
            cli_force_record: None,
            project_record: None,
            trace: false,
            write_to_disk: true,
            output_dir: ".golem/results".to_string(),
            flow_name: String::new(),
            device_name: String::new(),
        }
    }
}

/// Whether a character survives sanitization unchanged.
pub open spec fn keeps_char(c: char) -> bool {
    unicode_alphanumeric(c) || c == '_' || c == '-'
}

/// `name` with every character that is not alphanumeric, `_` or `-`
/// replaced by `_`.
pub open spec fn spec_sanitize(name: Seq<char>) -> Seq<char> {
    name.map_values(|c: char| if keeps_char(c) { c } else { '_' })
}

/// `base` joined with a relative component `comp`.
pub open spec fn spec_join(base: Seq<char>, comp: Seq<char>) -> Seq<char> {
    if base.len() == 0 {
        comp
    } else if base.last() == '/' {
        base + comp
    } else {
        base + seq!['/'] + comp
    }
}

/// `{output_dir}/{flow}/{device}/{leaf}`, with flow and device sanitized.
pub open spec fn spec_device_dir(config: CaptureConfig, leaf: Seq<char>) -> Seq<char> {
    spec_join(
        spec_join(
            spec_join(config.output_dir@, spec_sanitize(config.flow_name@)),
            spec_sanitize(config.device_name@),
        ),
        leaf,
    )
}

/// `{global}_{block}_{iter}_{step}_{failure_type}` — the stem shared by a
/// failure screenshot and its tree dump.
pub open spec fn spec_failure_stem(
    block_name: Seq<char>,
    global_step_index: u64,
    block_iteration: u32,
    step_index: usize,
    failure_type: Seq<char>,
) -> Seq<char> {
    spec_decimal(global_step_index as nat) + "_"@ + spec_sanitize(block_name) + "_"@
        + spec_decimal(block_iteration as nat) + "_"@ + spec_decimal(step_index as nat) + "_"@
        + failure_type
}

/// Sanitize a string so it is safe as a filename component: every character
/// that is not alphanumeric, `_` or `-` becomes `_`.
pub fn sanitize_filename(name: &str) -> (r: String)
    ensures
        r@ == spec_sanitize(name@),
{
    let cs = sanitized_chars(name);
    string_from_chars(&cs)
}

fn sanitized_chars(name: &str) -> (r: Vec<char>)
    ensures
        r@ == spec_sanitize(name@),
{
    let cs = chars_of(name);
    let mut out: Vec<char> = Vec::new();
    let mut i: usize = 0;
    while i < cs.len()
        invariant
            i <= cs.len(),
            cs@ == name@,
            out@ == spec_sanitize(cs@.take(i as int)),
        decreases cs.len() - i,
    {
        let c = cs[i];
        if char_is_alphanumeric(c) || c == '_' || c == '-' {
            out.push(c);
        } else {
            out.push('_');
        }
        i = i + 1;
        assert(out@ =~= spec_sanitize(cs@.take(i as int)));
    }
    assert(cs@.take(cs.len() as int) =~= cs@);
    out
}

/// Joins `comp` onto the path held in `base`.
fn join_onto(base: &mut Vec<char>, comp: &Vec<char>)
    ensures
        final(base)@ == spec_join(old(base)@, comp@),
{
    if base.len() == 0 {
    } else if base[base.len() - 1] == '/' {
    } else {
        base.push('/');
    }
    append_chars(base, comp);
    assert(base@ =~= spec_join(old(base)@, comp@));
}

/// `{output_dir}/{flow}/{device}/{leaf}`.
fn device_dir(config: &CaptureConfig, leaf: &str) -> (r: Vec<char>)
    ensures
        r@ == spec_device_dir(*config, leaf@),
{
    let mut p = chars_of(config.output_dir.as_str());
    let flow = sanitized_chars(config.flow_name.as_str());
    join_onto(&mut p, &flow);
    let device = sanitized_chars(config.device_name.as_str());
    join_onto(&mut p, &device);
    let l = chars_of(leaf);
    join_onto(&mut p, &l);
    p
}

fn failure_stem(
    block_name: &str,
    global_step_index: u64,
    block_iteration: u32,
    step_index: usize,
    failure_type: &str,
) -> (r: Vec<char>)
    ensures
        r@ == spec_failure_stem(block_name@, global_step_index, block_iteration, step_index, failure_type@),
{
    let mut f: Vec<char> = Vec::new();
    push_decimal(&mut f, global_step_index);
    append_str(&mut f, "_");
    let b = sanitized_chars(block_name);
    append_chars(&mut f, &b);
    append_str(&mut f, "_");
    push_decimal(&mut f, block_iteration as u64);
    append_str(&mut f, "_");
    push_decimal(&mut f, step_index as u64);
    append_str(&mut f, "_");
    append_str(&mut f, failure_type);
    f
}

/// The screenshots directory for this flow/device.
pub open spec fn spec_screenshot_dir(config: CaptureConfig) -> Seq<char> {
    spec_device_dir(config, "screenshots"@)
}

/// Path of a failure screenshot:
/// `{output_dir}/{flow}/{device}/screenshots/{global}_{block}_{iter}_{step}_{type}.png`.
pub fn build_screenshot_path(
    config: &CaptureConfig,
    block_name: &str,
    global_step_index: u64,
    block_iteration: u32,
    step_index: usize,
    failure_type: &str,
) -> (r: String)
    ensures
        r@ == spec_join(
            spec_screenshot_dir(*config),
            spec_failure_stem(block_name@, global_step_index, block_iteration, step_index, failure_type@)
                + ".png"@,
        ),
{
    let mut name = failure_stem(block_name, global_step_index, block_iteration, step_index, failure_type);
    append_str(&mut name, ".png");
    let mut p = device_dir(config, "screenshots");
    join_onto(&mut p, &name);
    string_from_chars(&p)
}

/// Path of the hierarchy dump that accompanies a failure screenshot: same
/// directory and stem, `_tree.json` suffix.
pub fn build_tree_path(
    config: &CaptureConfig,
    block_name: &str,
    global_step_index: u64,
    block_iteration: u32,
    step_index: usize,
    failure_type: &str,
) -> (r: String)
    ensures
        r@ == spec_join(
            spec_screenshot_dir(*config),
            spec_failure_stem(block_name@, global_step_index, block_iteration, step_index, failure_type@)
                + "_tree.json"@,
        ),
{
    let mut name = failure_stem(block_name, global_step_index, block_iteration, step_index, failure_type);
    append_str(&mut name, "_tree.json");
    let mut p = device_dir(config, "screenshots");
    join_onto(&mut p, &name);
    string_from_chars(&p)
}

/// Path of one trace boundary snapshot:
/// `{output_dir}/{flow}/{device}/trace/{boundary:03}_{suffix}.{ext}` — the
/// index is zero-padded to at least three digits, never truncated.
pub fn build_trace_path(config: &CaptureConfig, boundary_idx: u64, suffix: &str, ext: &str) -> (r: String)
    ensures
        r@ == spec_join(
            spec_device_dir(*config, "trace"@),
            spec_decimal_padded(boundary_idx as nat, 3) + "_"@ + suffix@ + "."@ + ext@,
        ),
{
    let mut name: Vec<char> = Vec::new();
    push_decimal_padded(&mut name, boundary_idx, 3);
    append_str(&mut name, "_");
    append_str(&mut name, suffix);
    append_str(&mut name, ".");
    append_str(&mut name, ext);
    let mut p = device_dir(config, "trace");
    join_onto(&mut p, &name);
    string_from_chars(&p)
}

/// Path of the recording of one block iteration:
/// `{output_dir}/{flow}/{device}/recordings/{block}_{iter}.mp4`.
pub fn build_recording_path(config: &CaptureConfig, block_name: &str, iteration: u32) -> (r: String)
    ensures
        r@ == spec_join(
            spec_device_dir(*config, "recordings"@),
            spec_sanitize(block_name@) + "_"@ + spec_decimal(iteration as nat) + ".mp4"@,
        ),
{
    let mut name = sanitized_chars(block_name);
    append_str(&mut name, "_");
    push_decimal(&mut name, iteration as u64);
    append_str(&mut name, ".mp4");
    let mut p = device_dir(config, "recordings");
    join_onto(&mut p, &name);
    string_from_chars(&p)
}

// ── PNG tEXt metadata ─────────────────────────────────────────────

/// The eight-byte PNG signature.
pub open spec fn spec_png_signature() -> Seq<u8> {
    seq![0x89u8, 0x50u8, 0x4Eu8, 0x47u8, 0x0Du8, 0x0Au8, 0x1Au8, 0x0Au8]
}

/// Offset just past the IHDR chunk: signature (8) + length (4) + type (4)
/// + data (13) + CRC (4).
pub open spec fn spec_ihdr_end() -> int {
    33
}

/// The chunk type `tEXt`.
pub open spec fn spec_text_type() -> Seq<u8> {
    seq![0x74u8, 0x45u8, 0x58u8, 0x74u8]
}

/// `k` rounds of the reflected CRC-32 shift (polynomial `0xEDB88320`).
pub open spec fn crc_shift(crc: u32, k: nat) -> u32
    decreases k,
{
    if k == 0 {
        crc
    } else {
        let c = crc_shift(crc, (k - 1) as nat);
        if c & 1 != 0 {
            0xEDB8_8320u32 ^ (c >> 1)
        } else {
            c >> 1
        }
    }
}

/// The CRC register after absorbing one byte.
pub open spec fn crc_byte(crc: u32, b: u8) -> u32 {
    crc_shift(crc ^ (b as u32), 8)
}

/// The CRC register after absorbing `data` in order.
pub open spec fn crc_fold(crc: u32, data: Seq<u8>) -> u32
    decreases data.len(),
{
    if data.len() == 0 {
        crc
    } else {
        crc_byte(crc_fold(crc, data.drop_last()), data.last())
    }
}

/// The CRC-32 (as used by PNG, zlib and Ethernet) of `data`.
pub open spec fn spec_crc32(data: Seq<u8>) -> u32 {
    !crc_fold(0xFFFF_FFFFu32, data)
}

/// Big-endian bytes of a `u32`.
pub open spec fn spec_be32(x: u32) -> Seq<u8> {
    seq![(x / 0x100_0000) as u8, ((x / 0x1_0000) % 256) as u8, ((x / 0x100) % 256) as u8, (x % 256) as u8]
}

/// A PNG chunk: length, type, data, CRC of type and data.
pub open spec fn spec_chunk(chunk_type: Seq<u8>, data: Seq<u8>) -> Seq<u8> {
    spec_be32(data.len() as u32) + chunk_type + data + spec_be32(spec_crc32(chunk_type + data))
}

/// `s` without its zero bytes.
pub open spec fn drop_nuls(s: Seq<u8>) -> Seq<u8>
    decreases s.len(),
{
    if s.len() == 0 {
        s
    } else if s.last() == 0 {
        drop_nuls(s.drop_last())
    } else {
        drop_nuls(s.drop_last()).push(s.last())
    }
}

/// The `tEXt` payload for one entry: keyword, a zero byte, text — with any
/// zero bytes of keyword and text removed.
pub open spec fn spec_text_payload(key: Seq<u8>, value: Seq<u8>) -> Seq<u8> {
    drop_nuls(key) + seq![0u8] + drop_nuls(value)
}

/// The `tEXt` chunks for `entries`, in order.
pub open spec fn spec_text_chunks(entries: Seq<(&str, &str)>) -> Seq<u8>
    decreases entries.len(),
{
    if entries.len() == 0 {
        Seq::empty()
    } else {
        spec_text_chunks(entries.drop_last()) + spec_chunk(
            spec_text_type(),
            spec_text_payload(entries.last().0.spec_bytes(), entries.last().1.spec_bytes()),
        )
    }
}

/// The header of an IHDR chunk: data length 13, then the type `IHDR`.
pub open spec fn spec_ihdr_header() -> Seq<u8> {
    seq![0x00u8, 0x00u8, 0x00u8, 0x0Du8, 0x49u8, 0x48u8, 0x44u8, 0x52u8]
}

/// Whether `png` starts with the signature followed by a complete IHDR
/// chunk (length 13, type `IHDR`).
pub open spec fn spec_png_splicable(png: Seq<u8>) -> bool {
    &&& png.len() >= spec_ihdr_end()
    &&& png.take(8) == spec_png_signature()
    &&& png.subrange(8, 16) == spec_ihdr_header()
}

/// `png` with the `tEXt` chunks for `entries` inserted right after IHDR;
/// unchanged when the input is not splicable.
pub open spec fn spec_embed_png_metadata(png: Seq<u8>, entries: Seq<(&str, &str)>) -> Seq<u8> {
    if spec_png_splicable(png) {
        png.take(spec_ihdr_end()) + spec_text_chunks(entries) + png.skip(spec_ihdr_end())
    } else {
        png
    }
}

fn crc_update(crc: u32, b: u8) -> (r: u32)
    ensures
        r == crc_byte(crc, b),
{
    let start = crc ^ (b as u32);
    let mut c = start;
    let mut k: u32 = 0;
    while k < 8
        invariant
            k <= 8,
            c == crc_shift(start, k as nat),
        decreases 8 - k,
    {
        c = if c & 1 != 0 {
            0xEDB8_8320u32 ^ (c >> 1)
        } else {
            c >> 1
        };
        k = k + 1;
    }
    c
}

fn push_be32(out: &mut Vec<u8>, x: u32)
    ensures
        final(out)@ == old(out)@ + spec_be32(x),
{
    out.push((x / 0x100_0000) as u8);
    out.push(((x / 0x1_0000) % 256) as u8);
    out.push(((x / 0x100) % 256) as u8);
    out.push((x % 256) as u8);
    assert(out@ =~= old(out)@ + spec_be32(x));
}

/// Appends `src[from..to]`.
fn push_range(out: &mut Vec<u8>, src: &[u8], from: usize, to: usize)
    requires
        from <= to <= src@.len(),
    ensures
        final(out)@ == old(out)@ + src@.subrange(from as int, to as int),
{
    let ghost start = out@;
    let mut i = from;
    while i < to
        invariant
            from <= i <= to,
            to <= src@.len(),
            out@ == start + src@.subrange(from as int, i as int),
        decreases to - i,
    {
        out.push(src[i]);
        i = i + 1;
        assert(out@ =~= start + src@.subrange(from as int, i as int));
    }
}

proof fn lemma_crc_fold_push(crc: u32, s: Seq<u8>, b: u8)
    ensures
        crc_fold(crc, s.push(b)) == crc_byte(crc_fold(crc, s), b),
{
    assert(s.push(b).drop_last() =~= s);
}

/// Appends one PNG chunk of the given type holding `data`.
pub fn write_png_chunk(out: &mut Vec<u8>, chunk_type: &[u8; 4], data: &[u8])
    ensures
        final(out)@ == old(out)@ + spec_chunk(chunk_type@, data@),
{
    push_be32(out, data.len() as u32);
    let mut crc: u32 = 0xFFFF_FFFF;
    let mut i: usize = 0;
    let ghost ty = chunk_type@;
    while i < 4
        invariant
            i <= 4,
            chunk_type@ == ty,
            ty.len() == 4,
            crc == crc_fold(0xFFFF_FFFFu32, ty.take(i as int)),
        decreases 4 - i,
    {
        proof {
            lemma_crc_fold_push(0xFFFF_FFFFu32, ty.take(i as int), ty[i as int]);
            assert(ty.take(i as int).push(ty[i as int]) =~= ty.take(i + 1));
        }
        crc = crc_update(crc, chunk_type[i]);
        i = i + 1;
    }
    assert(ty.take(4) =~= ty);
    let mut j: usize = 0;
    while j < data.len()
        invariant
            j <= data@.len(),
            crc == crc_fold(0xFFFF_FFFFu32, ty + data@.take(j as int)),
        decreases data@.len() - j,
    {
        proof {
            lemma_crc_fold_push(0xFFFF_FFFFu32, ty + data@.take(j as int), data@[j as int]);
            assert((ty + data@.take(j as int)).push(data@[j as int]) =~= ty + data@.take(j + 1));
        }
        crc = crc_update(crc, data[j]);
        j = j + 1;
    }
    assert(data@.take(data@.len() as int) =~= data@);
    let ghost before_type = out@;
    let mut k: usize = 0;
    while k < 4
        invariant
            k <= 4,
            chunk_type@ == ty,
            out@ == before_type + ty.take(k as int),
        decreases 4 - k,
    {
        out.push(chunk_type[k]);
        k = k + 1;
        assert(out@ =~= before_type + ty.take(k as int));
    }
    push_range(out, data, 0, data.len());
    assert(data@.subrange(0, data@.len() as int) =~= data@);
    push_be32(out, !crc);
    assert(out@ =~= old(out)@ + spec_chunk(chunk_type@, data@));
}

/// `s` without its zero bytes.
fn without_nuls(out: &mut Vec<u8>, s: &[u8])
    ensures
        final(out)@ == old(out)@ + drop_nuls(s@),
{
    let ghost start = out@;
    let mut i: usize = 0;
    while i < s.len()
        invariant
            i <= s@.len(),
            out@ == start + drop_nuls(s@.take(i as int)),
        decreases s@.len() - i,
    {
        let b = s[i];
        proof {
            assert(s@.take(i + 1).drop_last() =~= s@.take(i as int));
        }
        if b != 0 {
            out.push(b);
        }
        i = i + 1;
        assert(out@ =~= start + drop_nuls(s@.take(i as int)));
    }
    assert(s@.take(s@.len() as int) =~= s@);
}

/// Whether `png` starts with the PNG signature.
fn has_png_signature(png: &[u8]) -> (r: bool)
    ensures
        r == (png@.len() >= 8 && png@.take(8) == spec_png_signature()),
{
    if png.len() < 8 {
        return false;
    }
    let ok = png[0] == 0x89 && png[1] == 0x50 && png[2] == 0x4E && png[3] == 0x47 && png[4] == 0x0D
        && png[5] == 0x0A && png[6] == 0x1A && png[7] == 0x0A;
    proof {
        if ok {
            assert(png@.take(8) =~= spec_png_signature());
        } else {
            if png@.take(8) == spec_png_signature() {
                assert(png@.take(8)[0] == png@[0]);
                assert(png@.take(8)[7] == png@[7]);
            }
        }
    }
    ok
}

/// Whether `png` holds, after at least eight bytes, the header of an IHDR
/// chunk followed by its data and CRC.
fn has_ihdr_chunk(png: &[u8]) -> (r: bool)
    requires
        png@.len() >= 8,
    ensures
        r == (png@.len() >= spec_ihdr_end() && png@.subrange(8, 16) == spec_ihdr_header()),
{
    if png.len() < 33 {
        return false;
    }
    let ok = png[8] == 0x00 && png[9] == 0x00 && png[10] == 0x00 && png[11] == 0x0D && png[12] == 0x49
        && png[13] == 0x48 && png[14] == 0x44 && png[15] == 0x52;
    proof {
        let h = png@.subrange(8, 16);
        if ok {
            assert(h =~= spec_ihdr_header());
        } else if h == spec_ihdr_header() {
            assert(h[0] == png@[8]);
            assert(h[1] == png@[9]);
            assert(h[2] == png@[10]);
            assert(h[3] == png@[11]);
            assert(h[4] == png@[12]);
            assert(h[5] == png@[13]);
            assert(h[6] == png@[14]);
            assert(h[7] == png@[15]);
        }
    }
    ok
}

/// Splice PNG `tEXt` chunks, one per `(keyword, text)` entry, between IHDR
/// and the rest of the stream, so the snapshot is self-describing. Zero
/// bytes are stripped from keywords and texts. Malformed input (no PNG
/// signature, or no complete IHDR chunk right after it) is returned
/// unchanged.
pub fn embed_png_metadata(png: &[u8], entries: &[(&str, &str)]) -> (r: Vec<u8>)
    ensures
        r@ == spec_embed_png_metadata(png@, entries@),
{
    let mut out: Vec<u8> = Vec::new();
    if !has_png_signature(png) || !has_ihdr_chunk(png) {
        push_range(&mut out, png, 0, png.len());
        assert(png@.subrange(0, png@.len() as int) =~= png@);
        return out;
    }
    push_range(&mut out, png, 0, 33);
    let ghost head = out@;
    let text_type: [u8; 4] = [0x74, 0x45, 0x58, 0x74];
    assert(text_type@ =~= spec_text_type());
    let mut i: usize = 0;
    while i < entries.len()
        invariant
            i <= entries@.len(),
            text_type@ == spec_text_type(),
            out@ == head + spec_text_chunks(entries@.take(i as int)),
        decreases entries@.len() - i,
    {
        let (key, value) = entries[i];
        let mut payload: Vec<u8> = Vec::new();
        without_nuls(&mut payload, key.as_bytes());
        payload.push(0);
        without_nuls(&mut payload, value.as_bytes());
        assert(payload@ =~= spec_text_payload(key.spec_bytes(), value.spec_bytes()));
        write_png_chunk(&mut out, &text_type, payload.as_slice());
        proof {
            assert(entries@.take(i + 1).drop_last() =~= entries@.take(i as int));
            assert(entries@.take(i + 1).last() == entries@[i as int]);
        }
        i = i + 1;
        assert(out@ =~= head + spec_text_chunks(entries@.take(i as int)));
    }
    assert(entries@.take(entries@.len() as int) =~= entries@);
    push_range(&mut out, png, 33, png.len());
    assert(png@.take(33) =~= png@.subrange(0, 33));
    assert(png@.skip(33) =~= png@.subrange(33, png@.len() as int));
    out
}

// ── What each capture does, given the configuration ──────────────

/// Whether failure-time capture (screenshot and tree dump) runs: it needs
/// `screenshot_on_failure` and `write_to_disk`.
pub fn failure_capture_enabled(config: &CaptureConfig) -> (r: bool)
    ensures
        r == (config.screenshot_on_failure && config.write_to_disk),
{
    config.screenshot_on_failure && config.write_to_disk
}

/// Whether trace boundary capture runs: it needs `trace` and `write_to_disk`.
pub fn trace_capture_enabled(config: &CaptureConfig) -> (r: bool)
    ensures
        r == (config.trace && config.write_to_disk),
{
    config.trace && config.write_to_disk
}

/// The name handed to the driver when a block's recording starts:
/// `{flow}_{device}_{block}_{iter}`, all names sanitized. `None` when
/// nothing is written to disk, in which case the driver is not contacted.
pub fn recording_name(config: &CaptureConfig, block_name: &str, iteration: u32) -> (r: Option<String>)
    ensures
        !config.write_to_disk ==> r is None,
        config.write_to_disk ==> r is Some && r->0@ == spec_sanitize(config.flow_name@) + "_"@
            + spec_sanitize(config.device_name@) + "_"@ + spec_sanitize(block_name@) + "_"@
            + spec_decimal(iteration as nat),
{
    if !config.write_to_disk {
        return None;
    }
    let mut n = sanitized_chars(config.flow_name.as_str());
    append_str(&mut n, "_");
    let d = sanitized_chars(config.device_name.as_str());
    append_chars(&mut n, &d);
    append_str(&mut n, "_");
    let b = sanitized_chars(block_name);
    append_chars(&mut n, &b);
    append_str(&mut n, "_");
    push_decimal(&mut n, iteration as u64);
    Some(string_from_chars(&n))
}

/// Whether the driver's reported recording path names a recording: an empty
/// path means recording was not active.
pub fn recording_was_active(source_path: &str) -> (r: bool)
    ensures
        r == (source_path@.len() > 0),
{
    let cs = chars_of(source_path);
    cs.len() > 0
}

/// Path of the trace sidecar for one block iteration:
/// `{output_dir}/{flow}/{device}/recordings/{block}_{iter}_steps.json`.
/// `None` when nothing is written to disk.
pub fn build_sidecar_path(config: &CaptureConfig, block_name: &str, iteration: u32) -> (r: Option<String>)
    ensures
        !config.write_to_disk ==> r is None,
        config.write_to_disk ==> r is Some && r->0@ == spec_join(
            spec_device_dir(*config, "recordings"@),
            spec_sanitize(block_name@) + "_"@ + spec_decimal(iteration as nat) + "_steps.json"@,
        ),
{
    if !config.write_to_disk {
        return None;
    }
    let mut name = sanitized_chars(block_name);
    append_str(&mut name, "_");
    push_decimal(&mut name, iteration as u64);
    append_str(&mut name, "_steps.json");
    let mut p = device_dir(config, "recordings");
    join_onto(&mut p, &name);
    Some(string_from_chars(&p))
}

/// Snapshot-level metadata embedded into a trace PNG.
pub struct TraceMeta<'a> {
    /// `None` for the pre-flow boundary, else the global step index.
    pub after_step: Option<u64>,
    /// Action that produced this boundary; `None` for the pre-flow boundary.
    pub action: Option<&'a str>,
    /// ISO-8601 UTC wall-clock at capture time.
    pub wall_clock: &'a str,
}

/// One boundary within a block recording.
pub struct TraceBoundary {
    /// Global boundary index (0 = pre-flow, N = after step N).
    pub boundary: u64,
    /// `None` for the pre-flow boundary.
    pub after_step: Option<u64>,
    /// Milliseconds from the recording start to this boundary.
    pub offset_ms: u64,
}

/// The trace boundaries of one block recording.
pub struct TraceSidecar {
    pub flow: String,
    pub device: String,
    pub block: String,
    pub iteration: u32,
    pub golem_version: String,
    pub recording_started_at_ms: u64,
    pub boundaries: Vec<TraceBoundary>,
}

/// The `(keyword, text)` entries a trace snapshot carries, in order: flow,
/// device, boundary, wall clock, version, then the step it follows and the
/// action, each only when known.
pub open spec fn spec_trace_entries(
    config: CaptureConfig,
    boundary_idx: u64,
    after_step: Option<u64>,
    action: Option<Seq<char>>,
    wall_clock: Seq<char>,
    version: Seq<char>,
) -> Seq<(Seq<char>, Seq<char>)> {
    let base = seq![
        ("golem-flow"@, config.flow_name@),
        ("golem-device"@, config.device_name@),
        ("golem-boundary"@, spec_decimal(boundary_idx as nat)),
        ("golem-wall-clock"@, wall_clock),
        ("golem-version"@, version),
    ];
    let with_step = match after_step {
        Some(n) => base.push(("golem-after-step"@, spec_decimal(n as nat))),
        None => base,
    };
    match action {
        Some(a) => with_step.push(("golem-action"@, a)),
        None => with_step,
    }
}

/// The views of a list of string pairs.
pub open spec fn pair_views(v: Seq<(String, String)>) -> Seq<(Seq<char>, Seq<char>)> {
    v.map_values(|p: (String, String)| (p.0@, p.1@))
}

fn decimal_string(n: u64) -> (r: String)
    ensures
        r@ == spec_decimal(n as nat),
{
    let mut cs: Vec<char> = Vec::new();
    push_decimal(&mut cs, n);
    string_from_chars(&cs)
}

/// The metadata entries embedded into the PNG of one trace boundary;
/// `version` is the runner's version string.
pub fn trace_png_entries(
    config: &CaptureConfig,
    boundary_idx: u64,
    meta: &TraceMeta,
    version: &str,
) -> (r: Vec<(String, String)>)
    ensures
        pair_views(r@) == spec_trace_entries(
            *config,
            boundary_idx,
            meta.after_step,
            match meta.action {
                Some(a) => Some(a@),
                None => None,
            },
            meta.wall_clock@,
            version@,
        ),
{
    let mut v: Vec<(String, String)> = Vec::new();
    v.push(("golem-flow".to_string(), config.flow_name.clone()));
    v.push(("golem-device".to_string(), config.device_name.clone()));
    v.push(("golem-boundary".to_string(), decimal_string(boundary_idx)));
    v.push(("golem-wall-clock".to_string(), meta.wall_clock.to_string()));
    v.push(("golem-version".to_string(), version.to_string()));
    match meta.after_step {
        Some(n) => {
            v.push(("golem-after-step".to_string(), decimal_string(n)));
        },
        None => {},
    }
    match meta.action {
        Some(a) => {
            v.push(("golem-action".to_string(), a.to_string()));
        },
        None => {},
    }
    assert(pair_views(v@) =~= spec_trace_entries(
        *config,
        boundary_idx,
        meta.after_step,
        match meta.action {
            Some(a) => Some(a@),
            None => None,
        },
        meta.wall_clock@,
        version@,
    ));
    v
}

// ── Laws ─────────────────────────────────────────────────────────────

/// Sanitizing keeps the length, leaves only alphanumerics, `_` and `-`, and
/// sanitizing again changes nothing; each character is either kept as it
/// is or replaced by `_`, and `_`, `-` and every alphanumeric character
/// are kept.
pub proof fn lemma_sanitize_is_safe(name: Seq<char>)
    ensures
        spec_sanitize(name).len() == name.len(),
        forall|i: int| 0 <= i < name.len() ==> keeps_char(#[trigger] spec_sanitize(name)[i]),
        spec_sanitize(spec_sanitize(name)) == spec_sanitize(name),
        forall|i: int|
            0 <= i < name.len() ==> #[trigger] spec_sanitize(name)[i] == name[i] || spec_sanitize(name)[i] == '_',
        forall|i: int|
            0 <= i < name.len() && (name[i] == '_' || name[i] == '-' || unicode_alphanumeric(name[i]))
                ==> #[trigger] spec_sanitize(name)[i] == name[i],
        forall|i: int|
            0 <= i < name.len() && !(name[i] == '_' || name[i] == '-' || unicode_alphanumeric(name[i]))
                ==> #[trigger] spec_sanitize(name)[i] == '_',
{
    assert(spec_sanitize(spec_sanitize(name)) =~= spec_sanitize(name));
}

proof fn lemma_decimal_len(n: nat)
    ensures
        spec_decimal(n).len() >= 1,
        n >= 10 ==> spec_decimal(n).len() >= 2,
        n >= 100 ==> spec_decimal(n).len() >= 3,
    decreases n,
{
    if n >= 10 {
        lemma_decimal_len(n / 10);
    }
}

/// A boundary index is written with at least three digits, and an index of
/// 100 or more is written in full, without padding or truncation.
pub proof fn lemma_boundary_index_digits(n: nat)
    ensures
        spec_decimal_padded(n, 3).len() >= 3,
        n >= 100 ==> spec_decimal_padded(n, 3) == spec_decimal(n),
        n < 10 ==> spec_decimal_padded(n, 3) == seq!['0', '0'] + spec_decimal(n),
{
    lemma_decimal_len(n);
    if n < 10 {
        assert(spec_decimal(n).len() == 1);
        assert(Seq::new(2, |i: int| '0') =~= seq!['0', '0']);
    }
}

/// Embedding no entries leaves the bytes as they were.
pub proof fn lemma_embed_nothing_is_identity(png: Seq<u8>)
    ensures
        spec_embed_png_metadata(png, Seq::empty()) == png,
{
    if spec_png_splicable(png) {
        assert(spec_text_chunks(Seq::<(&str, &str)>::empty()) == Seq::<u8>::empty());
        assert(png.take(spec_ihdr_end()) + Seq::<u8>::empty() + png.skip(spec_ihdr_end()) =~= png);
    }
}

/// Embedding keeps the input stream around the inserted chunks: the
/// signature and IHDR come first, and everything after IHDR follows
/// unchanged at the end.
pub proof fn lemma_embed_keeps_input(png: Seq<u8>, entries: Seq<(&str, &str)>)
    requires
        spec_png_splicable(png),
    ensures
        spec_embed_png_metadata(png, entries).take(spec_ihdr_end()) == png.take(spec_ihdr_end()),
        spec_embed_png_metadata(png, entries).skip(
            spec_embed_png_metadata(png, entries).len() - (png.len() - spec_ihdr_end()),
        ) == png.skip(spec_ihdr_end()),
        spec_embed_png_metadata(png, entries).len() == png.len() + spec_text_chunks(entries).len(),
{
    let r = spec_embed_png_metadata(png, entries);
    let head = png.take(spec_ihdr_end());
    let mid = spec_text_chunks(entries);
    let tail = png.skip(spec_ihdr_end());
    assert(r == head + mid + tail);
    assert(r.take(spec_ihdr_end()) =~= head);
    assert(r.skip(r.len() - tail.len()) =~= tail);
}


/// Every chunk spliced in is a well-formed PNG `tEXt` chunk: its data
/// length in four big-endian bytes, the type `tEXt`, the data (keyword
/// without zero bytes, one zero byte, text without zero bytes), and the
/// big-endian CRC-32 of type and data together; the chunks follow the
/// entries' order.
pub proof fn lemma_text_chunks_well_formed(entries: Seq<(&str, &str)>)
    ensures
        entries.len() == 0 ==> spec_text_chunks(entries) == Seq::<u8>::empty(),
        entries.len() > 0 ==> ({
            let t = seq![0x74u8, 0x45u8, 0x58u8, 0x74u8];
            let d = drop_nuls(entries.last().0.spec_bytes()) + seq![0u8] + drop_nuls(
                entries.last().1.spec_bytes(),
            );
            let crc = !crc_fold(0xFFFF_FFFFu32, t + d);
            spec_text_chunks(entries) == spec_text_chunks(entries.drop_last()) + (seq![
                ((d.len() as u32) / 0x100_0000) as u8,
                (((d.len() as u32) / 0x1_0000) % 256) as u8,
                (((d.len() as u32) / 0x100) % 256) as u8,
                ((d.len() as u32) % 256) as u8,
            ] + t + d + seq![
                (crc / 0x100_0000) as u8,
                ((crc / 0x1_0000) % 256) as u8,
                ((crc / 0x100) % 256) as u8,
                (crc % 256) as u8,
            ])
        }),
{
}

/// The CRC is the standard CRC-32 (reflected, polynomial `0xEDB88320`,
/// initial and final inversion): the CRC of the single byte `a` is
/// `0xE8B7BE43`.
pub proof fn lemma_crc32_of_a()
    ensures
        spec_crc32(seq![0x61u8]) == 0xE8B7_BE43u32,
{
    assert(0xFFFF_FFFFu32 ^ (0x61u8 as u32) == 0xFFFF_FF9Eu32) by (bit_vector);
    assert(crc_shift(0xFFFF_FF9Eu32, 0) == 0xFFFF_FF9Eu32);
    assert(0xFFFFFF9Eu32 & 1 == 0 && 0xFFFFFF9Eu32 >> 1 == 0x7FFFFFCFu32) by (bit_vector);
    assert(crc_shift(0xFFFFFF9Eu32, 1) == 0x7FFFFFCFu32);
    assert(0x7FFFFFCFu32 & 1 != 0 && 0xEDB8_8320u32 ^ (0x7FFFFFCFu32 >> 1) == 0xD2477CC7u32) by (bit_vector);
    assert(crc_shift(0xFFFFFF9Eu32, 2) == 0xD2477CC7u32);
    assert(0xD2477CC7u32 & 1 != 0 && 0xEDB8_8320u32 ^ (0xD2477CC7u32 >> 1) == 0x849B3D43u32) by (bit_vector);
    assert(crc_shift(0xFFFFFF9Eu32, 3) == 0x849B3D43u32);
    assert(0x849B3D43u32 & 1 != 0 && 0xEDB8_8320u32 ^ (0x849B3D43u32 >> 1) == 0xAFF51D81u32) by (bit_vector);
    assert(crc_shift(0xFFFFFF9Eu32, 4) == 0xAFF51D81u32);
    assert(0xAFF51D81u32 & 1 != 0 && 0xEDB8_8320u32 ^ (0xAFF51D81u32 >> 1) == 0xBA420DE0u32) by (bit_vector);
    assert(crc_shift(0xFFFFFF9Eu32, 5) == 0xBA420DE0u32);
    assert(0xBA420DE0u32 & 1 == 0 && 0xBA420DE0u32 >> 1 == 0x5D2106F0u32) by (bit_vector);
    assert(crc_shift(0xFFFFFF9Eu32, 6) == 0x5D2106F0u32);
    assert(0x5D2106F0u32 & 1 == 0 && 0x5D2106F0u32 >> 1 == 0x2E908378u32) by (bit_vector);
    assert(crc_shift(0xFFFFFF9Eu32, 7) == 0x2E908378u32);
    assert(0x2E908378u32 & 1 == 0 && 0x2E908378u32 >> 1 == 0x174841BCu32) by (bit_vector);
    assert(crc_shift(0xFFFFFF9Eu32, 8) == 0x174841BCu32);
    assert(seq![0x61u8].drop_last() =~= Seq::<u8>::empty());
    assert(crc_fold(0xFFFF_FFFFu32, Seq::<u8>::empty()) == 0xFFFF_FFFFu32);
    assert(crc_byte(0xFFFF_FFFFu32, 0x61u8) == crc_shift(0xFFFF_FF9Eu32, 8));
    assert(crc_fold(0xFFFF_FFFFu32, seq![0x61u8]) == 0x174841BCu32);
    assert(!0x174841BCu32 == 0xE8B7_BE43u32) by (bit_vector);
}


/// Stripping zero bytes leaves no zero byte, keeps a text without zero
/// bytes as it is, and drops exactly the zero bytes: every other byte is
/// kept, in order (stripping `a ++ b` strips `a` then `b`).
pub proof fn lemma_drop_nuls_strips_only_zeros(s: Seq<u8>, t: Seq<u8>)
    ensures
        forall|i: int| 0 <= i < drop_nuls(s).len() ==> #[trigger] drop_nuls(s)[i] != 0,
        (forall|i: int| 0 <= i < s.len() ==> #[trigger] s[i] != 0) ==> drop_nuls(s) == s,
        drop_nuls(s + t) == drop_nuls(s) + drop_nuls(t),
        drop_nuls(seq![0u8]) == Seq::<u8>::empty(),
    decreases t.len(),
{
    lemma_drop_nuls_no_zero(s);
    lemma_drop_nuls_keeps_nonzero(s);
    if t.len() > 0 {
        lemma_drop_nuls_strips_only_zeros(s, t.drop_last());
        assert((s + t).drop_last() =~= s + t.drop_last());
        assert((s + t).last() == t.last());
    } else {
        assert(s + t =~= s);
        assert(drop_nuls(t) =~= Seq::<u8>::empty());
    }
    assert(seq![0u8].drop_last() =~= Seq::<u8>::empty());
}

proof fn lemma_drop_nuls_no_zero(s: Seq<u8>)
    ensures
        forall|i: int| 0 <= i < drop_nuls(s).len() ==> #[trigger] drop_nuls(s)[i] != 0,
    decreases s.len(),
{
    if s.len() > 0 {
        lemma_drop_nuls_no_zero(s.drop_last());
        let p = drop_nuls(s.drop_last());
        if s.last() != 0 {
            assert forall|i: int| 0 <= i < p.push(s.last()).len() implies #[trigger] p.push(s.last())[i] != 0 by {
                if i < p.len() {
                    assert(p.push(s.last())[i] == p[i]);
                }
            }
        }
    }
}

proof fn lemma_drop_nuls_keeps_nonzero(s: Seq<u8>)
    ensures
        (forall|i: int| 0 <= i < s.len() ==> #[trigger] s[i] != 0) ==> drop_nuls(s) == s,
    decreases s.len(),
{
    if s.len() > 0 {
        lemma_drop_nuls_keeps_nonzero(s.drop_last());
        if forall|i: int| 0 <= i < s.len() ==> #[trigger] s[i] != 0 {
            assert forall|i: int| 0 <= i < s.drop_last().len() implies #[trigger] s.drop_last()[i] != 0 by {
                assert(s.drop_last()[i] == s[i]);
            }
            assert(s.last() != 0);
            assert(s.drop_last().push(s.last()) =~= s);
        }
    }
}

} // verus!
