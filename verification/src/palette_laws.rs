//! Laws on colour-map entry sizes: which colours an entry keeps, and that
//! a second trip through the same entry size changes nothing.
use vstd::prelude::*;
use crate::decode_spec::{expand5_spec, spec_parse_tga};
use crate::encode_spec::{palette_build, pixels4, pixel4, spec_encode_palette, lemma_palette_props};
use crate::image::{ImageModel, TgaPixelFormat};
use crate::laws::{
    decoded_bytes, entry_decoded, widen5, rgba_of4, law_palette_entry_roundtrip,
    lemma_ser_all_index, lemma_ser_all_len, lemma_ser_all_pointwise, lemma_pixels4_flat,
};
use crate::rle_spec::ser_all;
use crate::types::{ColorMapEntrySize, ImageType};

verus! {

/// `true` when a channel value is a 5-bit value widened to eight bits: its
/// low three bits repeat its top three.
pub open spec fn is_widened5(v: u8) -> bool {
    v % 8 == v / 32
}

/// `true` when an entry of size `e` can hold the colour `c` exactly.
pub open spec fn entry_holds(e: ColorMapEntrySize, c: [u8; 4]) -> bool {
    match e {
        ColorMapEntrySize::Bits32 => true,
        ColorMapEntrySize::Bits24 => c[3] == 255,
        ColorMapEntrySize::Bits15 => is_widened5(c[0]) && is_widened5(c[1]) && is_widened5(c[2])
            && c[3] == 255,
        ColorMapEntrySize::Bits16 => is_widened5(c[0]) && is_widened5(c[1]) && is_widened5(c[2])
            && (c[3] == 0 || c[3] == 255),
    }
}

/// Widening keeps exactly the widened values, and widening twice is
/// widening once.
proof fn lemma_widen5(v: u8)
    ensures
        (widen5(v) == v) == is_widened5(v),
        widen5(widen5(v)) == widen5(v),
        is_widened5(widen5(v)),
{
    let a = (v / 8) as int;
    assert(0 <= a < 32);
    assert(widen5(v) as int == 8 * a + a / 4);
    let x = widen5(v) as int;
    assert(x / 8 == a);
    assert(x % 8 == a / 4);
    assert(x / 32 == a / 4);
    assert(v as int == 8 * a + v % 8);
    assert(v / 32 == a / 4);
}

/// Law: a colour comes back unchanged from a colour-map entry of size `e`
/// exactly when the entry can hold it: always for 32-bit entries; when it
/// is opaque for 24-bit entries; when every colour channel is a widened
/// 5-bit value and it is opaque (15-bit) or fully opaque or fully
/// transparent (16-bit).
pub proof fn law_entry_lossless(e: ColorMapEntrySize, c: [u8; 4])
    ensures
        (entry_decoded(e, c) == c) == entry_holds(e, c),
{
    reveal(entry_decoded);
    lemma_widen5(c[0]);
    lemma_widen5(c[1]);
    lemma_widen5(c[2]);
    if entry_holds(e, c) {
        assert(entry_decoded(e, c) =~= c);
    } else {
        let d = entry_decoded(e, c);
        if d == c {
            assert(d[0] == c[0] && d[1] == c[1] && d[2] == c[2] && d[3] == c[3]);
        }
    }
}

/// Law: a colour that came back from an entry of size `e` comes back
/// unchanged from a second trip through the same entry size.
pub proof fn law_entry_idempotent(e: ColorMapEntrySize, c: [u8; 4])
    ensures
        entry_decoded(e, entry_decoded(e, c)) == entry_decoded(e, c),
        entry_holds(e, entry_decoded(e, c)),
{
    reveal(entry_decoded);
    lemma_widen5(c[0]);
    lemma_widen5(c[1]);
    lemma_widen5(c[2]);
    assert(entry_decoded(e, entry_decoded(e, c)) =~= entry_decoded(e, c));
}

/// Every colour of the palette built from `p` occurs in `p`.
proof fn lemma_palette_from_pixels(p: Seq<[u8; 4]>, c: [u8; 4])
    requires
        palette_build(p).contains(c),
    ensures
        p.contains(c),
    decreases p.len(),
{
    let w = p.drop_last();
    let pal = palette_build(w);
    if pal.contains(c) {
        lemma_palette_from_pixels(w, c);
        let j = choose|j: int| 0 <= j < w.len() && w[j] == c;
        assert(p[j] == c);
    } else {
        let i = choose|i: int| 0 <= i < palette_build(p).len() && palette_build(p)[i] == c;
        assert(!pal.contains(p.last()));
        assert(i == pal.len());
        assert(p[p.len() - 1] == c);
    }
}

/// Mapping the pixels through `f` builds a palette no longer than before.
proof fn lemma_palette_map_len(p: Seq<[u8; 4]>, f: spec_fn([u8; 4]) -> [u8; 4])
    ensures
        palette_build(Seq::new(p.len(), |k: int| f(p[k]))).len() <= palette_build(p).len(),
    decreases p.len(),
{
    if p.len() > 0 {
        let q = Seq::new(p.len(), |k: int| f(p[k]));
        let w = p.drop_last();
        let qw = Seq::new(w.len(), |k: int| f(w[k]));
        assert(q.drop_last() =~= qw);
        lemma_palette_map_len(w, f);
        if palette_build(w).contains(p.last()) {
            lemma_palette_from_pixels(w, p.last());
            let j = choose|j: int| 0 <= j < w.len() && w[j] == p.last();
            lemma_palette_props(qw);
            assert(qw[j] == q.last());
            assert(palette_build(qw).contains(q.last()));
        }
    }
}

/// Law: decoding what a colour-mapped writer with entry size `e` wrote,
/// then writing and decoding that again with the same entry size, gives
/// the same pixels: the second trip changes nothing (for every non-empty
/// image of at most 256 distinct colours).
pub proof fn law_palette_requantise(width: u16, height: u16, rgba: Seq<u8>, rle: bool, e: ColorMapEntrySize)
    requires
        width > 0,
        height > 0,
        rgba.len() % 4 == 0,
        rgba.len() >= (width as int) * (height as int) * 4,
        palette_build(pixels4(rgba, (width * height) as nat)).len() <= 256,
    ensures
        ({
            let t = if rle {
                ImageType::RleColourMapped
            } else {
                ImageType::UncompressedColourMapped
            };
            let once = ser_all(pixels4(rgba, (width * height) as nat), decoded_bytes(e));
            spec_encode_palette(width, height, once, t, Some(e)) matches Ok(bytes) && spec_parse_tga(
                bytes,
            ) == Ok::<ImageModel, crate::error::TgaErrorKind>(
                ImageModel {
                    width: width as u32,
                    height: height as u32,
                    pixel_format: TgaPixelFormat::Rgba,
                    data: once,
                },
            )
        }),
{
    let n = (width * height) as nat;
    assert(n == (width as int) * (height as int));
    let pix = pixels4(rgba, n);
    let once = ser_all(pix, decoded_bytes(e));
    let f = |c: [u8; 4]| entry_decoded(e, c);
    let q = Seq::new(pix.len(), |k: int| f(pix[k]));
    assert forall|j: int| 0 <= j < pix.len() implies (#[trigger] (decoded_bytes(e))(pix[j])).len() == 4 by {}
    lemma_ser_all_len(pix, decoded_bytes(e), 4);
    assert(once.len() == 4 * n);
    assert forall|k: int| 0 <= k < n implies #[trigger] pixel4(once, k) == q[k] by {
        lemma_ser_all_index(pix, decoded_bytes(e), 4, k);
        let sub = once.subrange(k * 4, k * 4 + 4);
        assert(once[4 * k] == sub[0]);
        assert(once[4 * k + 1] == sub[1]);
        assert(once[4 * k + 2] == sub[2]);
        assert(once[4 * k + 3] == sub[3]);
        assert(pixel4(once, k) =~= q[k]);
    }
    assert(pixels4(once, n) =~= q);
    lemma_palette_map_len(pix, f);
    law_palette_entry_roundtrip(width, height, once, rle, e);
    assert forall|k: int| 0 <= k < q.len() implies (decoded_bytes(e))(#[trigger] q[k]) == (
    decoded_bytes(e))(pix[k]) by {
        law_entry_idempotent(e, pix[k]);
    }
    lemma_ser_all_pointwise(q, decoded_bytes(e), pix, decoded_bytes(e));
}

/// Law: a colour-mapped writer with an explicit entry size `e` that can
/// hold every pixel (see [`entry_holds`]) gives back exactly the first
/// `width × height` pixels (for every non-empty image of at most 256
/// distinct colours).
pub proof fn law_palette_exact_entry(width: u16, height: u16, rgba: Seq<u8>, rle: bool, e: ColorMapEntrySize)
    requires
        width > 0,
        height > 0,
        rgba.len() % 4 == 0,
        rgba.len() >= (width as int) * (height as int) * 4,
        palette_build(pixels4(rgba, (width * height) as nat)).len() <= 256,
        forall|k: int|
            0 <= k < (width as int) * (height as int) ==> entry_holds(e, #[trigger] pixel4(rgba, k)),
    ensures
        spec_encode_palette(
            width,
            height,
            rgba,
            if rle {
                ImageType::RleColourMapped
            } else {
                ImageType::UncompressedColourMapped
            },
            Some(e),
        ) matches Ok(bytes) && spec_parse_tga(bytes) == Ok::<ImageModel, crate::error::TgaErrorKind>(
            ImageModel {
                width: width as u32,
                height: height as u32,
                pixel_format: TgaPixelFormat::Rgba,
                data: rgba.take((width as int) * (height as int) * 4),
            },
        ),
{
    let n = (width * height) as nat;
    assert(n == (width as int) * (height as int));
    let pix = pixels4(rgba, n);
    law_palette_entry_roundtrip(width, height, rgba, rle, e);
    assert forall|k: int| 0 <= k < pix.len() implies (decoded_bytes(e))(#[trigger] pix[k]) == (
    rgba_of4())(pix[k]) by {
        law_entry_lossless(e, pix[k]);
    }
    lemma_ser_all_pointwise(pix, decoded_bytes(e), pix, rgba_of4());
    lemma_pixels4_flat(rgba, n);
}

} // verus!
