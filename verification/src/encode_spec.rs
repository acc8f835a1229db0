//! Mathematical model of the bytes each encoder writes.
use vstd::prelude::*;
use crate::error::TgaErrorKind;
use crate::rle_spec::{rle_rows, ser_all, ser_bgr, ser_bgra, ser_byte};
use crate::types::{ColorMapEntrySize, ImageType, TgaHeader, u16_le_bytes};

verus! {

/// RGBA pixel `k` of a packed RGBA byte stream.
pub open spec fn pixel4(s: Seq<u8>, k: int) -> [u8; 4] {
    [s[4 * k], s[4 * k + 1], s[4 * k + 2], s[4 * k + 3]]
}

/// RGB pixel `k` of a packed RGB byte stream.
pub open spec fn pixel3(s: Seq<u8>, k: int) -> [u8; 3] {
    [s[3 * k], s[3 * k + 1], s[3 * k + 2]]
}

/// The first `n` RGBA pixels of `s`.
pub open spec fn pixels4(s: Seq<u8>, n: nat) -> Seq<[u8; 4]> {
    Seq::new(n, |k: int| pixel4(s, k))
}

/// The first `n` RGB pixels of `s`.
pub open spec fn pixels3(s: Seq<u8>, n: nat) -> Seq<[u8; 3]> {
    Seq::new(n, |k: int| pixel3(s, k))
}

/// The `h` rows of `w` pixels each of the pixel stream `f`.
pub open spec fn grid<T>(f: spec_fn(int) -> T, w: nat, h: nat) -> Seq<Seq<T>> {
    Seq::new(h, |y: int| Seq::new(w, |x: int| f(y * w + x)))
}

/// The `h` rows of a `w`-pixel-wide RGBA image.
pub open spec fn rgba_rows(s: Seq<u8>, w: nat, h: nat) -> Seq<Seq<[u8; 4]>> {
    grid(|k: int| pixel4(s, k), w, h)
}

/// The `h` rows of a `w`-pixel-wide RGB image.
pub open spec fn rgb_rows(s: Seq<u8>, w: nat, h: nat) -> Seq<Seq<[u8; 3]>> {
    grid(|k: int| pixel3(s, k), w, h)
}

/// The `h` rows of a `w`-pixel-wide one-byte-per-pixel image.
pub open spec fn byte_rows(s: Seq<u8>, w: nat, h: nat) -> Seq<Seq<u8>> {
    grid(|k: int| s[k], w, h)
}

/// `true` when some complete RGBA pixel of `s` has alpha below `0xFF`.
pub open spec fn has_translucent(s: Seq<u8>) -> bool {
    exists|p: int| 0 <= p < s.len() / 4 && #[trigger] s[4 * p + 3] != 255
}

/// Header of a file the encoders write: no image ID, no colour map
/// unless given, top-down origin.
pub open spec fn written_header(
    t: ImageType,
    cmap_type: u8,
    cmap_length: u16,
    cmap_entry_size: u8,
    w: u16,
    h: u16,
    depth: u8,
    descriptor: u8,
) -> TgaHeader {
    TgaHeader {
        id_length: 0,
        cmap_type,
        image_type_raw: t.as_u8(),
        cmap_first: 0,
        cmap_length,
        cmap_entry_size,
        x_origin: 0,
        y_origin: 0,
        width: w,
        height: h,
        depth,
        descriptor,
    }
}

/// Header of a true-colour file: 32 bpp with 8 alpha bits when any pixel
/// is translucent, otherwise 24 bpp.
pub open spec fn truecolour_header(t: ImageType, w: u16, h: u16, translucent: bool) -> TgaHeader {
    written_header(
        t,
        0,
        0,
        0,
        w,
        h,
        if translucent {
            32
        } else {
            24
        },
        if translucent {
            0x28
        } else {
            0x20
        },
    )
}

/// Bytes of [`crate::encode_tga_uncompressed`] / [`crate::encode_tga_rle`].
pub open spec fn spec_encode_truecolour(w: u16, h: u16, rgba: Seq<u8>, rle: bool) -> Result<
    Seq<u8>,
    TgaErrorKind,
> {
    if rgba.len() % 4 != 0 {
        Err(TgaErrorKind::InvalidData)
    } else if rgba.len() < (w as int) * (h as int) * 4 {
        Err(TgaErrorKind::InvalidData)
    } else {
        let a = has_translucent(rgba);
        if rle {
            Ok(
                truecolour_header(ImageType::RleTrueColour, w, h, a).spec_bytes() + rle_rows(
                    rgba_rows(rgba, w as nat, h as nat),
                    ser_bgra(a),
                ),
            )
        } else {
            Ok(
                truecolour_header(ImageType::UncompressedTrueColour, w, h, a).spec_bytes()
                    + ser_all(pixels4(rgba, (w * h) as nat), ser_bgra(a)),
            )
        }
    }
}

/// Bytes of [`crate::encode_tga_uncompressed_rgb24`] / [`crate::encode_tga_rle_rgb24`].
pub open spec fn spec_encode_rgb24(w: u16, h: u16, rgb: Seq<u8>, rle: bool) -> Result<
    Seq<u8>,
    TgaErrorKind,
> {
    if rgb.len() % 3 != 0 {
        Err(TgaErrorKind::InvalidData)
    } else if rgb.len() < (w as int) * (h as int) * 3 {
        Err(TgaErrorKind::InvalidData)
    } else if rle {
        Ok(
            truecolour_header(ImageType::RleTrueColour, w, h, false).spec_bytes() + rle_rows(
                rgb_rows(rgb, w as nat, h as nat),
                ser_bgr(),
            ),
        )
    } else {
        Ok(
            truecolour_header(ImageType::UncompressedTrueColour, w, h, false).spec_bytes()
                + ser_all(pixels3(rgb, (w * h) as nat), ser_bgr()),
        )
    }
}

/// Bytes of [`crate::encode_tga_grayscale`] / [`crate::encode_tga_grayscale_rle`].
pub open spec fn spec_encode_grayscale(w: u16, h: u16, gray: Seq<u8>, rle: bool) -> Result<
    Seq<u8>,
    TgaErrorKind,
> {
    if gray.len() < (w as int) * (h as int) {
        Err(TgaErrorKind::InvalidData)
    } else if rle {
        Ok(
            written_header(ImageType::RleGrayscale, 0, 0, 0, w, h, 8, 0x20).spec_bytes() + rle_rows(
                byte_rows(gray, w as nat, h as nat),
                ser_byte(),
            ),
        )
    } else {
        Ok(
            written_header(ImageType::UncompressedGrayscale, 0, 0, 0, w, h, 8, 0x20).spec_bytes()
                + gray.take((w * h) as int),
        )
    }
}

} // verus!
verus! {

/// Extending the packets of the first `y` rows by row `y`.
pub proof fn lemma_rle_rows_step<T>(rows: Seq<Seq<T>>, y: int, ser: spec_fn(T) -> Seq<u8>)
    requires
        0 <= y < rows.len(),
    ensures
        rle_rows(rows.take(y + 1), ser) == rle_rows(rows.take(y), ser) + crate::rle_spec::rle_row(
            rows[y],
            ser,
        ),
{
    assert(rows.take(y + 1).drop_last() =~= rows.take(y));
}

/// RGBA expansion of an RGB pixel (alpha `0xFF`).
pub open spec fn rgb_to_rgba() -> spec_fn([u8; 3]) -> Seq<u8> {
    |p: [u8; 3]| seq![p[0], p[1], p[2], 255u8]
}

/// RGBA expansion of a luma sample (grey, alpha `0xFF`).
pub open spec fn gray_to_rgba() -> spec_fn(u8) -> Seq<u8> {
    |g: u8| seq![g, g, g, 255u8]
}


/// The distinct colours of `p` in order of first appearance.
pub open spec fn palette_build(p: Seq<[u8; 4]>) -> Seq<[u8; 4]>
    decreases p.len(),
{
    if p.len() == 0 {
        Seq::empty()
    } else {
        let pal = palette_build(p.drop_last());
        if pal.contains(p.last()) {
            pal
        } else {
            pal.push(p.last())
        }
    }
}

/// No colour occurs twice.
pub open spec fn no_dups(pal: Seq<[u8; 4]>) -> bool {
    forall|i: int, j: int| 0 <= i < j < pal.len() ==> pal[i] != pal[j]
}

/// Position of colour `c` in a palette.
pub open spec fn pal_index(pal: Seq<[u8; 4]>, c: [u8; 4]) -> int {
    choose|i: int| 0 <= i < pal.len() && pal[i] == c
}

/// The 8-bit palette index of every pixel.
pub open spec fn palette_indices(p: Seq<[u8; 4]>) -> Seq<u8> {
    Seq::new(p.len(), |k: int| pal_index(palette_build(p), p[k]) as u8)
}

/// The 16-bit `[A]RRRRRGG GGGBBBBB` value of an RGBA colour.
pub open spec fn pack555(c: [u8; 4], with_alpha_bit: bool) -> u16 {
    ((c[0] / 8) as int * 1024 + (c[1] / 8) as int * 32 + (c[2] / 8) as int + if with_alpha_bit
        && c[3] >= 128 {
        32768int
    } else {
        0int
    }) as u16
}

/// On-disk bytes of one colour-map entry.
pub open spec fn entry_ser(e: ColorMapEntrySize) -> spec_fn([u8; 4]) -> Seq<u8> {
    |c: [u8; 4]|
        match e {
            ColorMapEntrySize::Bits24 => seq![c[2], c[1], c[0]],
            ColorMapEntrySize::Bits32 => seq![c[2], c[1], c[0], c[3]],
            ColorMapEntrySize::Bits15 => u16_le_bytes(pack555(c, false)),
            ColorMapEntrySize::Bits16 => u16_le_bytes(pack555(c, true)),
        }
}

/// The entry size the default palette writers choose.
pub open spec fn lossless_entry(pal: Seq<[u8; 4]>) -> ColorMapEntrySize {
    if forall|i: int| 0 <= i < pal.len() ==> (#[trigger] pal[i])[3] == 255 {
        ColorMapEntrySize::Bits24
    } else {
        ColorMapEntrySize::Bits32
    }
}

/// Bytes of the colour-mapped writers: `entry` is the caller's explicit
/// entry size, or `None` for the narrowest lossless one.
pub open spec fn spec_encode_palette(
    w: u16,
    h: u16,
    rgba: Seq<u8>,
    t: ImageType,
    entry: Option<ColorMapEntrySize>,
) -> Result<Seq<u8>, TgaErrorKind> {
    let n = (w * h) as nat;
    let pix = pixels4(rgba, n);
    let pal = palette_build(pix);
    if rgba.len() % 4 != 0 {
        Err(TgaErrorKind::InvalidData)
    } else if rgba.len() < (w as int) * (h as int) * 4 {
        Err(TgaErrorKind::InvalidData)
    } else if pal.len() > 256 {
        Err(TgaErrorKind::Unsupported)
    } else {
        let e = match entry {
            Some(x) => x,
            None => lossless_entry(pal),
        };
        let idx = palette_indices(pix);
        let hd = written_header(t, 1, pal.len() as u16, e.bits(), w, h, 8, 0x20);
        Ok(
            hd.spec_bytes() + ser_all(pal, entry_ser(e)) + if t.is_rle() {
                rle_rows(grid(|k: int| idx[k], w as nat, h as nat), ser_byte())
            } else {
                idx
            },
        )
    }
}

/// A palette built from a prefix is a prefix of the palette built from more.
pub proof fn lemma_palette_prefix(p: Seq<[u8; 4]>, k: int)
    requires
        0 <= k <= p.len(),
    ensures
        palette_build(p.take(k)).len() <= palette_build(p).len(),
        palette_build(p) .take(palette_build(p.take(k)).len() as int) =~= palette_build(p.take(k)),
    decreases p.len() - k,
{
    if k < p.len() {
        lemma_palette_prefix(p, k + 1);
        assert(p.take(k + 1).drop_last() =~= p.take(k));
    } else {
        assert(p.take(k) =~= p);
    }
}

/// The palette holds every pixel colour exactly once.
pub proof fn lemma_palette_props(p: Seq<[u8; 4]>)
    ensures
        no_dups(palette_build(p)),
        forall|k: int| 0 <= k < p.len() ==> palette_build(p).contains(#[trigger] p[k]),
        palette_build(p).len() <= p.len(),
    decreases p.len(),
{
    if p.len() > 0 {
        lemma_palette_props(p.drop_last());
        let pal = palette_build(p.drop_last());
        assert forall|k: int| 0 <= k < p.len() implies palette_build(p).contains(#[trigger] p[k]) by {
            if k < p.len() - 1 {
                assert(p.drop_last()[k] == p[k]);
                assert(pal.contains(p[k]));
                if !pal.contains(p.last()) {
                    let j = choose|j: int| 0 <= j < pal.len() && pal[j] == p[k];
                    assert(pal.push(p.last())[j] == p[k]);
                }
            } else {
                if !pal.contains(p.last()) {
                    assert(pal.push(p.last())[pal.len() as int] == p.last());
                }
            }
        }
    }
}

/// The index of a colour found at position `i` of a duplicate-free palette.
pub proof fn lemma_pal_index_unique(pal: Seq<[u8; 4]>, c: [u8; 4], i: int)
    requires
        no_dups(pal),
        0 <= i < pal.len(),
        pal[i] == c,
    ensures
        pal_index(pal, c) == i,
{
    let j = pal_index(pal, c);
    assert(0 <= j < pal.len() && pal[j] == c);
    if j < i {
        assert(pal[j] != pal[i]);
    } else if i < j {
        assert(pal[i] != pal[j]);
    }
}

} // verus!
