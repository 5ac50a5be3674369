//! Content sniffing for gallery-importable media.
use vstd::prelude::*;

verus! {

/// Whether `head` holds `sig` at offset `off`.
pub open spec fn has_at(head: Seq<u8>, off: int, sig: Seq<u8>) -> bool {
    head.len() >= off + sig.len() && head.subrange(off, off + sig.len()) == sig
}

/// The ISO base-media brands of the HEIF family.
pub open spec fn heif_brand(brand: Seq<u8>) -> bool {
    ||| brand == seq![0x68u8, 0x65u8, 0x69u8, 0x63u8]  // heic
    ||| brand == seq![0x68u8, 0x65u8, 0x69u8, 0x78u8]  // heix
    ||| brand == seq![0x68u8, 0x65u8, 0x76u8, 0x63u8]  // hevc
    ||| brand == seq![0x68u8, 0x65u8, 0x69u8, 0x6Du8]  // heim
    ||| brand == seq![0x68u8, 0x65u8, 0x69u8, 0x73u8]  // heis
    ||| brand == seq![0x6Du8, 0x69u8, 0x66u8, 0x31u8]  // mif1
    ||| brand == seq![0x6Du8, 0x73u8, 0x66u8, 0x31u8]  // msf1
}

/// The media format named by a file's leading bytes, if it is one the device
/// gallery imports: png, jpeg, gif, bmp, tiff, webp, or an ISO base-media
/// container (`ftyp` at bytes 4..8) — heif for the HEIF brands, mov for `qt  `,
/// mp4 for any other brand.
pub open spec fn spec_media_kind(head: Seq<u8>) -> Option<Seq<char>> {
    if has_at(head, 0, seq![0x89u8, 0x50u8, 0x4Eu8, 0x47u8, 0x0Du8, 0x0Au8, 0x1Au8, 0x0Au8]) {
        Some("png"@)
    } else if has_at(head, 0, seq![0xFFu8, 0xD8u8, 0xFFu8]) {
        Some("jpeg"@)
    } else if has_at(head, 0, seq![0x47u8, 0x49u8, 0x46u8, 0x38u8, 0x37u8, 0x61u8])
        || has_at(head, 0, seq![0x47u8, 0x49u8, 0x46u8, 0x38u8, 0x39u8, 0x61u8]) {
        Some("gif"@)
    } else if has_at(head, 0, seq![0x42u8, 0x4Du8]) {
        Some("bmp"@)
    } else if has_at(head, 0, seq![0x49u8, 0x49u8, 0x2Au8, 0x00u8])
        || has_at(head, 0, seq![0x4Du8, 0x4Du8, 0x00u8, 0x2Au8]) {
        Some("tiff"@)
    } else if has_at(head, 0, seq![0x52u8, 0x49u8, 0x46u8, 0x46u8])
        && has_at(head, 8, seq![0x57u8, 0x45u8, 0x42u8, 0x50u8]) {
        Some("webp"@)
    } else if head.len() >= 12 && has_at(head, 4, seq![0x66u8, 0x74u8, 0x79u8, 0x70u8]) {
        let brand = head.subrange(8, 12);
        if heif_brand(brand) {
            Some("heif"@)
        } else if brand == seq![0x71u8, 0x74u8, 0x20u8, 0x20u8] {
            Some("mov"@)
        } else {
            Some("mp4"@)
        }
    } else {
        None
    }
}

/// Whether `head` holds `sig` at offset `off`.
fn bytes_at(head: &[u8], off: usize, sig: &[u8]) -> (r: bool)
    ensures
        r == has_at(head@, off as int, sig@),
{
    if off > head.len() || head.len() - off < sig.len() {
        return false;
    }
    let mut i: usize = 0;
    while i < sig.len()
        invariant
            i <= sig@.len(),
            off + sig@.len() <= head@.len(),
            head@.len() <= usize::MAX,
            forall|j: int| 0 <= j < i ==> head@[off + j] == sig@[j],
        decreases sig@.len() - i,
    {
        if head[off + i] != sig[i] {
            assert(head@.subrange(off as int, off + sig@.len())[i as int] == head@[off + i]);
            return false;
        }
        i = i + 1;
    }
    assert(head@.subrange(off as int, off + sig@.len()) =~= sig@);
    true
}

/// Detect a gallery-importable media type from a file's leading bytes, by
/// content rather than extension. Returns the format label, or `None`.
pub fn detect_media_kind(head: &[u8]) -> (r: Option<&'static str>)
    ensures
        match r {
            Some(s) => spec_media_kind(head@) == Some(s@),
            None => spec_media_kind(head@) is None,
        },
{
    let png: [u8; 8] = [0x89, 0x50, 0x4E, 0x47, 0x0D, 0x0A, 0x1A, 0x0A];
    let jpeg: [u8; 3] = [0xFF, 0xD8, 0xFF];
    let gif87: [u8; 6] = [0x47, 0x49, 0x46, 0x38, 0x37, 0x61];
    let gif89: [u8; 6] = [0x47, 0x49, 0x46, 0x38, 0x39, 0x61];
    let bmp: [u8; 2] = [0x42, 0x4D];
    let tiff_le: [u8; 4] = [0x49, 0x49, 0x2A, 0x00];
    let tiff_be: [u8; 4] = [0x4D, 0x4D, 0x00, 0x2A];
    let riff: [u8; 4] = [0x52, 0x49, 0x46, 0x46];
    let webp: [u8; 4] = [0x57, 0x45, 0x42, 0x50];
    let ftyp: [u8; 4] = [0x66, 0x74, 0x79, 0x70];
    assert(png@ =~= seq![0x89u8, 0x50u8, 0x4Eu8, 0x47u8, 0x0Du8, 0x0Au8, 0x1Au8, 0x0Au8]);
    assert(jpeg@ =~= seq![0xFFu8, 0xD8u8, 0xFFu8]);
    assert(gif87@ =~= seq![0x47u8, 0x49u8, 0x46u8, 0x38u8, 0x37u8, 0x61u8]);
    assert(gif89@ =~= seq![0x47u8, 0x49u8, 0x46u8, 0x38u8, 0x39u8, 0x61u8]);
    assert(bmp@ =~= seq![0x42u8, 0x4Du8]);
    assert(tiff_le@ =~= seq![0x49u8, 0x49u8, 0x2Au8, 0x00u8]);
    assert(tiff_be@ =~= seq![0x4Du8, 0x4Du8, 0x00u8, 0x2Au8]);
    assert(riff@ =~= seq![0x52u8, 0x49u8, 0x46u8, 0x46u8]);
    assert(webp@ =~= seq![0x57u8, 0x45u8, 0x42u8, 0x50u8]);
    assert(ftyp@ =~= seq![0x66u8, 0x74u8, 0x79u8, 0x70u8]);
    if bytes_at(head, 0, png.as_slice()) {
        Some("png")
    } else if bytes_at(head, 0, jpeg.as_slice()) {
        Some("jpeg")
    } else if bytes_at(head, 0, gif87.as_slice()) || bytes_at(head, 0, gif89.as_slice()) {
        Some("gif")
    } else if bytes_at(head, 0, bmp.as_slice()) {
        Some("bmp")
    } else if bytes_at(head, 0, tiff_le.as_slice()) || bytes_at(head, 0, tiff_be.as_slice()) {
        Some("tiff")
    } else if bytes_at(head, 0, riff.as_slice()) && bytes_at(head, 8, webp.as_slice()) {
        Some("webp")
    } else if head.len() >= 12 && bytes_at(head, 4, ftyp.as_slice()) {
        let b0 = head[8];
        let b1 = head[9];
        let b2 = head[10];
        let b3 = head[11];
        let ghost brand = head@.subrange(8, 12);
        assert(brand =~= seq![b0, b1, b2, b3]);
        let heif = (b0 == 0x68 && b1 == 0x65 && b2 == 0x69 && b3 == 0x63)
            || (b0 == 0x68 && b1 == 0x65 && b2 == 0x69 && b3 == 0x78)
            || (b0 == 0x68 && b1 == 0x65 && b2 == 0x76 && b3 == 0x63)
            || (b0 == 0x68 && b1 == 0x65 && b2 == 0x69 && b3 == 0x6D)
            || (b0 == 0x68 && b1 == 0x65 && b2 == 0x69 && b3 == 0x73)
            || (b0 == 0x6D && b1 == 0x69 && b2 == 0x66 && b3 == 0x31)
            || (b0 == 0x6D && b1 == 0x73 && b2 == 0x66 && b3 == 0x31);
        proof {
            if heif_brand(brand) {
                assert(brand[0] == b0 && brand[1] == b1 && brand[2] == b2 && brand[3] == b3);
            }
            if brand == seq![0x71u8, 0x74u8, 0x20u8, 0x20u8] {
                assert(brand[0] == b0 && brand[1] == b1 && brand[2] == b2 && brand[3] == b3);
            }
        }
        if heif {
            Some("heif")
        } else if b0 == 0x71 && b1 == 0x74 && b2 == 0x20 && b3 == 0x20 {
            Some("mov")
        } else {
            Some("mp4")
        }
    } else {
        None
    }
}


/// What the leading bytes say, byte by byte: the PNG signature is a png; any
/// head starting FF D8 FF is a jpeg, whatever follows (JFIF, EXIF or raw);
/// `GIF87a`/`GIF89a` a gif; `BM` a bmp; `II*\0` or `MM\0*` a tiff; `RIFF`
/// with `WEBP` at byte 8 a webp; and a box starting with a zero byte with
/// `ftyp` at byte 4 an ISO base-media file: heif for the HEIF brands, mov
/// for `qt  `, mp4 for any other brand. A head whose first byte starts none
/// of these, without `ftyp` at byte 4, is not media.
pub proof fn lemma_media_signatures(h: Seq<u8>)
    ensures
        h.len() >= 8 && h[0] == 0x89 && h[1] == 0x50 && h[2] == 0x4E && h[3] == 0x47 && h[4] == 0x0D && h[5]
            == 0x0A && h[6] == 0x1A && h[7] == 0x0A ==> spec_media_kind(h) == Some("png"@),
        h.len() >= 3 && h[0] == 0xFF && h[1] == 0xD8 && h[2] == 0xFF ==> spec_media_kind(h) == Some("jpeg"@),
        h.len() >= 6 && h[0] == 0x47 && h[1] == 0x49 && h[2] == 0x46 && h[3] == 0x38 && (h[4] == 0x37 || h[4]
            == 0x39) && h[5] == 0x61 ==> spec_media_kind(h) == Some("gif"@),
        h.len() >= 2 && h[0] == 0x42 && h[1] == 0x4D ==> spec_media_kind(h) == Some("bmp"@),
        h.len() >= 4 && ((h[0] == 0x49 && h[1] == 0x49 && h[2] == 0x2A && h[3] == 0x00) || (h[0] == 0x4D
            && h[1] == 0x4D && h[2] == 0x00 && h[3] == 0x2A)) ==> spec_media_kind(h) == Some("tiff"@),
        h.len() >= 12 && h[0] == 0x52 && h[1] == 0x49 && h[2] == 0x46 && h[3] == 0x46 && h[8] == 0x57 && h[9]
            == 0x45 && h[10] == 0x42 && h[11] == 0x50 ==> spec_media_kind(h) == Some("webp"@),
        h.len() >= 12 && h[0] == 0 && h[4] == 0x66 && h[5] == 0x74 && h[6] == 0x79 && h[7] == 0x70 ==> {
            &&& (h[8] == 0x68 && h[9] == 0x65 && h[10] == 0x69 && h[11] == 0x63) ==> spec_media_kind(h) == Some(
                "heif"@,
            )
            &&& (h[8] == 0x6D && h[9] == 0x69 && h[10] == 0x66 && h[11] == 0x31) ==> spec_media_kind(h) == Some(
                "heif"@,
            )
            &&& (h[8] == 0x71 && h[9] == 0x74 && h[10] == 0x20 && h[11] == 0x20) ==> spec_media_kind(h) == Some(
                "mov"@,
            )
            &&& (h[8] == 0x69 && h[9] == 0x73 && h[10] == 0x6F && h[11] == 0x6D) ==> spec_media_kind(h) == Some(
                "mp4"@,
            )
        },
        (h.len() == 0 || !(h[0] == 0x89 || h[0] == 0xFF || h[0] == 0x47 || h[0] == 0x42 || h[0] == 0x49 || h[0]
            == 0x4D || h[0] == 0x52)) && !(h.len() >= 8 && h[4] == 0x66 && h[5] == 0x74 && h[6] == 0x79 && h[7]
            == 0x70) ==> spec_media_kind(h) is None,
{
    if h.len() >= 8 && h[0] == 0x89 && h[1] == 0x50 && h[2] == 0x4E && h[3] == 0x47 && h[4] == 0x0D && h[5]
        == 0x0A && h[6] == 0x1A && h[7] == 0x0A {
        assert(h.subrange(0, 8) =~= seq![0x89u8, 0x50u8, 0x4Eu8, 0x47u8, 0x0Du8, 0x0Au8, 0x1Au8, 0x0Au8]);
    }
    if h.len() >= 3 && h[0] == 0xFF && h[1] == 0xD8 && h[2] == 0xFF {
        assert(h.subrange(0, 3) =~= seq![0xFFu8, 0xD8u8, 0xFFu8]);
    }
    if h.len() >= 6 && h[0] == 0x47 && h[1] == 0x49 && h[2] == 0x46 && h[3] == 0x38 && h[5] == 0x61 {
        if h[4] == 0x37 {
            assert(h.subrange(0, 6) =~= seq![0x47u8, 0x49u8, 0x46u8, 0x38u8, 0x37u8, 0x61u8]);
        }
        if h[4] == 0x39 {
            assert(h.subrange(0, 6) =~= seq![0x47u8, 0x49u8, 0x46u8, 0x38u8, 0x39u8, 0x61u8]);
        }
    }
    if h.len() >= 2 && h[0] == 0x42 && h[1] == 0x4D {
        assert(h.subrange(0, 2) =~= seq![0x42u8, 0x4Du8]);
    }
    if h.len() >= 4 && h[0] == 0x49 && h[1] == 0x49 && h[2] == 0x2A && h[3] == 0x00 {
        assert(h.subrange(0, 4) =~= seq![0x49u8, 0x49u8, 0x2Au8, 0x00u8]);
    }
    if h.len() >= 4 && h[0] == 0x4D && h[1] == 0x4D && h[2] == 0x00 && h[3] == 0x2A {
        assert(h.subrange(0, 4) =~= seq![0x4Du8, 0x4Du8, 0x00u8, 0x2Au8]);
    }
    if h.len() >= 12 && h[0] == 0x52 && h[1] == 0x49 && h[2] == 0x46 && h[3] == 0x46 {
        assert(h.subrange(0, 4) =~= seq![0x52u8, 0x49u8, 0x46u8, 0x46u8]);
        if h[8] == 0x57 && h[9] == 0x45 && h[10] == 0x42 && h[11] == 0x50 {
            assert(h.subrange(8, 12) =~= seq![0x57u8, 0x45u8, 0x42u8, 0x50u8]);
        }
    }
    if h.len() >= 8 && h[4] == 0x66 && h[5] == 0x74 && h[6] == 0x79 && h[7] == 0x70 {
        assert(h.subrange(4, 8) =~= seq![0x66u8, 0x74u8, 0x79u8, 0x70u8]);
    }
    if h.len() >= 12 {
        let b = h.subrange(8, 12);
        assert(b[0] == h[8] && b[1] == h[9] && b[2] == h[10] && b[3] == h[11]);
        if h[8] == 0x68 && h[9] == 0x65 && h[10] == 0x69 && h[11] == 0x63 {
            assert(b =~= seq![0x68u8, 0x65u8, 0x69u8, 0x63u8]);
        }
        if h[8] == 0x6D && h[9] == 0x69 && h[10] == 0x66 && h[11] == 0x31 {
            assert(b =~= seq![0x6Du8, 0x69u8, 0x66u8, 0x31u8]);
        }
        if h[8] == 0x71 && h[9] == 0x74 && h[10] == 0x20 && h[11] == 0x20 {
            assert(b =~= seq![0x71u8, 0x74u8, 0x20u8, 0x20u8]);
        }
    }
    // Heads starting with a byte no signature starts with match none of them.
    if h.len() >= 1 {
        assert(h.len() >= 8 ==> h.subrange(0, 8)[0] == h[0]);
        assert(h.len() >= 3 ==> h.subrange(0, 3)[0] == h[0]);
        assert(h.len() >= 6 ==> h.subrange(0, 6)[0] == h[0]);
        assert(h.len() >= 2 ==> h.subrange(0, 2)[0] == h[0]);
        assert(h.len() >= 4 ==> h.subrange(0, 4)[0] == h[0]);
    }
    if h.len() >= 8 {
        let f = h.subrange(4, 8);
        assert(f[0] == h[4] && f[1] == h[5] && f[2] == h[6] && f[3] == h[7]);
    }
    // An ISO box starts with a zero byte, which no earlier signature does.
    if h.len() >= 12 && h[0] == 0 {
        assert(h.subrange(0, 8)[0] == h[0]);
        assert(h.subrange(0, 3)[0] == h[0]);
        assert(h.subrange(0, 6)[0] == h[0]);
        assert(h.subrange(0, 2)[0] == h[0]);
        assert(h.subrange(0, 4)[0] == h[0]);
    }
}

} // verus!
