//! Mathematical model of TGA pixel decoding: palette expansion, pixel
//! expansion, raw and run-length pixel streams, and origin normalisation.
use vstd::prelude::*;
use crate::error::TgaErrorKind;
use crate::image::{ImageModel, TgaPixelFormat};
use crate::types::{image_type_of, le_u16, spec_parse_header, ImageType, TgaHeader};
use crate::textfmt::dec_chars;

verus! {

/// Bytes one stored pixel (or colour-map entry) of `bits` bits occupies.
pub open spec fn depth_bytes(bits: u8) -> nat {
    ((bits as nat) + 7) / 8
}

/// 5-bit channel value widened to 8 bits by repeating its top bits.
pub open spec fn expand5_spec(v: int) -> u8 {
    (v * 8 + v / 4) as u8
}

/// RGBA of a 16-bit A1R5G5B5 value; `bits == 15` ignores the top bit.
pub open spec fn a1r5g5b5(v: u16, bits: u8) -> Seq<u8> {
    seq![
        expand5_spec(((v / 1024) % 32) as int),
        expand5_spec(((v / 32) % 32) as int),
        expand5_spec((v % 32) as int),
        if bits == 16 {
            if v >= 32768 {
                255u8
            } else {
                0u8
            }
        } else {
            255u8
        },
    ]
}

/// Colour-map entry sizes the decoder understands.
pub open spec fn entry_size_supported(bits: u8) -> bool {
    bits == 15 || bits == 16 || bits == 24 || bits == 32
}

/// RGBA of the colour-map entry stored at `off`.
pub open spec fn palette_entry(cmap: Seq<u8>, off: int, bits: u8) -> Seq<u8> {
    if bits == 15 || bits == 16 {
        a1r5g5b5(le_u16(cmap[off], cmap[off + 1]), bits)
    } else if bits == 24 {
        seq![cmap[off + 2], cmap[off + 1], cmap[off], 255u8]
    } else {
        seq![cmap[off + 2], cmap[off + 1], cmap[off], cmap[off + 3]]
    }
}

/// The RGBA palette a colour-map block holds (one entry per whole
/// `depth_bytes(bits)`-byte slot).
pub open spec fn palette_of(cmap: Seq<u8>, bits: u8) -> Seq<Seq<u8>> {
    Seq::new(
        cmap.len() / depth_bytes(bits),
        |i: int| palette_entry(cmap, i * depth_bytes(bits), bits),
    )
}

/// Pixel depths each image type accepts.
pub open spec fn depth_ok(t: ImageType, depth: u8) -> bool {
    match t {
        ImageType::UncompressedColourMapped | ImageType::RleColourMapped => depth == 8,
        ImageType::UncompressedTrueColour | ImageType::RleTrueColour => depth == 15 || depth == 16
            || depth == 24 || depth == 32,
        ImageType::UncompressedGrayscale | ImageType::RleGrayscale => depth == 8,
        ImageType::NoImageData => false,
    }
}

/// Output bytes per pixel for an image type (grayscale 1, else RGBA 4).
pub open spec fn out_bpp(t: ImageType) -> nat {
    if t.is_grayscale() {
        1
    } else {
        4
    }
}

/// The output bytes of one stored pixel `src`, or `None` when a palette
/// index falls outside the stored colour map.
pub open spec fn pixel_out(
    t: ImageType,
    depth: u8,
    cmap_first: u16,
    src: Seq<u8>,
    pal: Option<Seq<Seq<u8>>>,
) -> Option<Seq<u8>> {
    if t.is_colour_mapped() {
        match pal {
            Option::None => Option::None,
            Option::Some(p) => {
                if (src[0] as int) < (cmap_first as int) {
                    Option::None
                } else if src[0] - cmap_first >= p.len() {
                    Option::None
                } else {
                    Option::Some(p[src[0] - cmap_first])
                }
            },
        }
    } else if t.is_grayscale() {
        Option::Some(seq![src[0]])
    } else if t is UncompressedTrueColour || t is RleTrueColour {
        if depth == 15 || depth == 16 {
            Option::Some(a1r5g5b5(le_u16(src[0], src[1]), depth))
        } else if depth == 24 {
            Option::Some(seq![src[2], src[1], src[0], 255u8])
        } else if depth == 32 {
            Option::Some(seq![src[2], src[1], src[0], src[3]])
        } else {
            Option::None
        }
    } else {
        Option::None
    }
}

/// `Some(a + r)` when `o` is `Some(r)`.
pub open spec fn prepend(a: Seq<u8>, o: Option<Seq<u8>>) -> Option<Seq<u8>> {
    match o {
        Option::Some(r) => Option::Some(a + r),
        Option::None => Option::None,
    }
}

/// Decode `n` consecutive stored pixels of `bpp` bytes from the front of `s`.
pub open spec fn raw_from(
    t: ImageType,
    depth: u8,
    cmap_first: u16,
    s: Seq<u8>,
    pal: Option<Seq<Seq<u8>>>,
    bpp: nat,
    n: nat,
) -> Option<Seq<u8>>
    decreases n,
{
    if n == 0 {
        Option::Some(Seq::empty())
    } else if s.len() < bpp {
        Option::None
    } else {
        match pixel_out(t, depth, cmap_first, s.take(bpp as int), pal) {
            Option::None => Option::None,
            Option::Some(px) => prepend(
                px,
                raw_from(t, depth, cmap_first, s.skip(bpp as int), pal, bpp, (n - 1) as nat),
            ),
        }
    }
}

/// `px` repeated `k` times.
pub open spec fn repeat(px: Seq<u8>, k: nat) -> Seq<u8>
    decreases k,
{
    if k == 0 {
        Seq::empty()
    } else {
        repeat(px, (k - 1) as nat) + px
    }
}

/// Decode a run-length packet stream from the front of `s` until
/// `remaining` pixels have been produced. A packet header's top bit
/// selects a run (one stored pixel repeated) or a raw packet (literal
/// pixels); its low 7 bits hold the pixel count minus one.
pub open spec fn rle_from(
    t: ImageType,
    depth: u8,
    cmap_first: u16,
    s: Seq<u8>,
    pal: Option<Seq<Seq<u8>>>,
    bpp: nat,
    remaining: nat,
) -> Option<Seq<u8>>
    decreases remaining,
{
    if remaining == 0 {
        Option::Some(Seq::empty())
    } else if s.len() == 0 {
        Option::None
    } else {
        let packet = s[0];
        let count = (packet % 128) as nat + 1;
        if count > remaining {
            Option::None
        } else if packet >= 128 {
            if s.len() < 1 + bpp {
                Option::None
            } else {
                match pixel_out(t, depth, cmap_first, s.subrange(1, 1 + bpp as int), pal) {
                    Option::None => Option::None,
                    Option::Some(px) => prepend(
                        repeat(px, count),
                        rle_from(
                            t,
                            depth,
                            cmap_first,
                            s.skip(1 + bpp as int),
                            pal,
                            bpp,
                            (remaining - count) as nat,
                        ),
                    ),
                }
            }
        } else {
            if s.len() < 1 + (count * bpp) as int {
                Option::None
            } else {
                match raw_from(
                    t,
                    depth,
                    cmap_first,
                    s.subrange(1, 1 + (count * bpp) as int),
                    pal,
                    bpp,
                    count,
                ) {
                    Option::None => Option::None,
                    Option::Some(px) => prepend(
                        px,
                        rle_from(
                            t,
                            depth,
                            cmap_first,
                            s.skip(1 + (count * bpp) as int),
                            pal,
                            bpp,
                            (remaining - count) as nat,
                        ),
                    ),
                }
            }
        }
    }
}

/// Source index of output byte `i` when rows are flipped and/or columns
/// mirrored, for an image of `w × h` pixels of `bpp` bytes.
pub open spec fn reorder_src(i: int, w: nat, h: nat, bpp: nat, flip: bool, mirror: bool) -> int {
    let p = i / (bpp as int);
    let b = i % (bpp as int);
    let y = p / (w as int);
    let x = p % (w as int);
    let sy = if flip {
        h - 1 - y
    } else {
        y
    };
    let sx = if mirror {
        w - 1 - x
    } else {
        x
    };
    (sy * w + sx) * bpp + b
}

/// Pixel bytes normalised to a top-down, left-to-right origin.
pub open spec fn reorder(px: Seq<u8>, w: nat, h: nat, bpp: nat, flip: bool, mirror: bool) -> Seq<
    u8,
> {
    Seq::new(px.len(), |i: int| px[reorder_src(i, w, h, bpp, flip, mirror)])
}

/// Locate (and expand) the colour map: the palette, if the header
/// declares one, and the offset of the first pixel-data byte.
pub open spec fn spec_read_palette(s: Seq<u8>, h: TgaHeader, t: ImageType) -> Result<
    (Option<Seq<Seq<u8>>>, nat),
    TgaErrorKind,
> {
    let cursor = 18 + h.id_length;
    if s.len() < cursor {
        Err(TgaErrorKind::InvalidData)
    } else if h.cmap_type == 1 {
        if h.cmap_entry_size == 0 || h.cmap_length == 0 {
            Err(TgaErrorKind::InvalidData)
        } else {
            let cmap_bytes = depth_bytes(h.cmap_entry_size) * (h.cmap_length as nat);
            if s.len() < cursor + cmap_bytes {
                Err(TgaErrorKind::InvalidData)
            } else if !entry_size_supported(h.cmap_entry_size) {
                Err(TgaErrorKind::Unsupported)
            } else {
                Ok(
                    (
                        Option::Some(
                            palette_of(
                                s.subrange(cursor as int, (cursor + cmap_bytes) as int),
                                h.cmap_entry_size,
                            ),
                        ),
                        (cursor + cmap_bytes) as nat,
                    ),
                )
            }
        }
    } else if t.is_colour_mapped() {
        Err(TgaErrorKind::InvalidData)
    } else {
        Ok((Option::None, cursor as nat))
    }
}

/// The stored pixel array (`n` pixels) decoded from `body`, raw or
/// run-length per the image type.
pub open spec fn decode_body(
    t: ImageType,
    depth: u8,
    cmap_first: u16,
    body: Seq<u8>,
    pal: Option<Seq<Seq<u8>>>,
    n: nat,
) -> Option<Seq<u8>> {
    let bpp = depth_bytes(depth);
    if t.is_rle() {
        rle_from(t, depth, cmap_first, body, pal, bpp, n)
    } else if body.len() < n * bpp {
        Option::None
    } else {
        raw_from(t, depth, cmap_first, body, pal, bpp, n)
    }
}

/// Output pixel layout for an image type.
pub open spec fn out_format(t: ImageType) -> TgaPixelFormat {
    if t.is_grayscale() {
        TgaPixelFormat::Gray8
    } else {
        TgaPixelFormat::Rgba
    }
}

/// The image a complete TGA file decodes to, or the kind of error the
/// decoder reports for it.
pub open spec fn spec_parse_tga(s: Seq<u8>) -> Result<ImageModel, TgaErrorKind> {
    match spec_parse_header(s) {
        Option::None => Err(TgaErrorKind::InvalidData),
        Option::Some(h) => match image_type_of(h.image_type_raw) {
            Option::None => Err(TgaErrorKind::Unsupported),
            Option::Some(t) => {
                if t is NoImageData {
                    Err(TgaErrorKind::InvalidData)
                } else if h.width == 0 || h.height == 0 {
                    Err(TgaErrorKind::InvalidData)
                } else {
                    match spec_read_palette(s, h, t) {
                        Err(k) => Err(k),
                        Ok((pal, cursor)) => {
                            if !depth_ok(t, h.depth) {
                                Err(TgaErrorKind::Unsupported)
                            } else {
                                match decode_body(
                                    t,
                                    h.depth,
                                    h.cmap_first,
                                    s.skip(cursor as int),
                                    pal,
                                    (h.width * h.height) as nat,
                                ) {
                                    Option::None => Err(TgaErrorKind::InvalidData),
                                    Option::Some(px) => Ok(
                                        ImageModel {
                                            width: h.width as u32,
                                            height: h.height as u32,
                                            pixel_format: out_format(t),
                                            data: reorder(
                                                px,
                                                h.width as nat,
                                                h.height as nat,
                                                out_bpp(t),
                                                !h.is_top_down(),
                                                h.is_right_to_left(),
                                            ),
                                        },
                                    ),
                                }
                            }
                        },
                    }
                }
            },
        },
    }
}

// ---------------------------------------------------------------------------
// Length facts
// ---------------------------------------------------------------------------

/// Index bound for pixel `(sx, sy)` of a `w × h` image of `bpp`-byte pixels.
pub proof fn lemma_src_index_bound(sy: int, sx: int, b: int, w: int, h: int, bpp: int)
    requires
        0 <= sy < h,
        0 <= sx < w,
        0 <= b < bpp,
    ensures
        0 <= sy * w + sx < w * h,
        0 <= (sy * w + sx) * bpp + b < w * h * bpp,
{
    assert(sy * w + sx < w * h) by (nonlinear_arith)
        requires
            0 <= sy < h,
            0 <= sx < w,
    ;
    assert(0 <= sy * w) by (nonlinear_arith)
        requires
            0 <= sy,
            0 <= sx < w,
    ;
    let q = sy * w + sx;
    assert(q * bpp + b < w * h * bpp) by (nonlinear_arith)
        requires
            0 <= q < w * h,
            0 <= b < bpp,
    ;
    assert(0 <= q * bpp) by (nonlinear_arith)
        requires
            0 <= q,
            0 <= b < bpp,
    ;
}

// ---------------------------------------------------------------------------

pub proof fn lemma_pixel_out_len(
    t: ImageType,
    depth: u8,
    cmap_first: u16,
    src: Seq<u8>,
    pal: Option<Seq<Seq<u8>>>,
)
    requires
        pal matches Option::Some(p) ==> forall|i: int| 0 <= i < p.len() ==> (#[trigger] p[i]).len()
            == 4,
    ensures
        pixel_out(t, depth, cmap_first, src, pal) matches Option::Some(px) ==> px.len() == out_bpp(
            t,
        ),
{
}

pub proof fn lemma_repeat_len(px: Seq<u8>, k: nat)
    ensures
        repeat(px, k).len() == k * px.len(),
    decreases k,
{
    if k > 0 {
        lemma_repeat_len(px, (k - 1) as nat);
        assert(k * px.len() == (k - 1) * px.len() + px.len()) by (nonlinear_arith);
    } else {
        assert(k * px.len() == 0) by (nonlinear_arith)
            requires
                k == 0,
        ;
    }
}

pub proof fn lemma_raw_from_len(
    t: ImageType,
    depth: u8,
    cmap_first: u16,
    s: Seq<u8>,
    pal: Option<Seq<Seq<u8>>>,
    bpp: nat,
    n: nat,
)
    requires
        pal matches Option::Some(p) ==> forall|i: int| 0 <= i < p.len() ==> (#[trigger] p[i]).len()
            == 4,
    ensures
        raw_from(t, depth, cmap_first, s, pal, bpp, n) matches Option::Some(r) ==> r.len() == n
            * out_bpp(t),
    decreases n,
{
    if n > 0 && s.len() >= bpp {
        lemma_pixel_out_len(t, depth, cmap_first, s.take(bpp as int), pal);
        lemma_raw_from_len(t, depth, cmap_first, s.skip(bpp as int), pal, bpp, (n - 1) as nat);
        assert(n * out_bpp(t) == (n - 1) * out_bpp(t) + out_bpp(t)) by (nonlinear_arith);
    } else if n == 0 {
        assert(n * out_bpp(t) == 0) by (nonlinear_arith)
            requires
                n == 0,
        ;
    }
}

pub proof fn lemma_rle_from_len(
    t: ImageType,
    depth: u8,
    cmap_first: u16,
    s: Seq<u8>,
    pal: Option<Seq<Seq<u8>>>,
    bpp: nat,
    remaining: nat,
)
    requires
        pal matches Option::Some(p) ==> forall|i: int| 0 <= i < p.len() ==> (#[trigger] p[i]).len()
            == 4,
    ensures
        rle_from(t, depth, cmap_first, s, pal, bpp, remaining) matches Option::Some(r) ==> r.len()
            == remaining * out_bpp(t),
    decreases remaining,
{
    if remaining == 0 {
        assert(remaining * out_bpp(t) == 0) by (nonlinear_arith)
            requires
                remaining == 0,
        ;
    }
    if remaining > 0 && s.len() > 0 {
        let packet = s[0];
        let count = (packet % 128) as nat + 1;
        if count <= remaining {
            let rest = (remaining - count) as nat;
            assert(remaining * out_bpp(t) == count * out_bpp(t) + rest * out_bpp(t))
                by (nonlinear_arith)
                requires
                    remaining == count + rest,
            ;
            if packet >= 128 {
                if s.len() >= 1 + bpp {
                    lemma_pixel_out_len(t, depth, cmap_first, s.subrange(1, 1 + bpp as int), pal);
                    if let Option::Some(px) = pixel_out(
                        t,
                        depth,
                        cmap_first,
                        s.subrange(1, 1 + bpp as int),
                        pal,
                    ) {
                        lemma_repeat_len(px, count);
                    }
                    lemma_rle_from_len(t, depth, cmap_first, s.skip(1 + bpp as int), pal, bpp, rest);
                }
            } else if s.len() >= 1 + (count * bpp) as int {
                lemma_raw_from_len(
                    t,
                    depth,
                    cmap_first,
                    s.subrange(1, 1 + (count * bpp) as int),
                    pal,
                    bpp,
                    count,
                );
                lemma_rle_from_len(
                    t,
                    depth,
                    cmap_first,
                    s.skip(1 + (count * bpp) as int),
                    pal,
                    bpp,
                    rest,
                );
            }
        }
    }
}

/// Without a flip or a mirror, normalising the origin changes nothing.
pub proof fn lemma_reorder_identity(px: Seq<u8>, w: nat, h: nat, bpp: nat)
    requires
        w > 0,
        bpp > 0,
    ensures
        reorder(px, w, h, bpp, false, false) =~= px,
{
    assert forall|i: int| 0 <= i < px.len() implies #[trigger] reorder_src(
        i,
        w,
        h,
        bpp,
        false,
        false,
    ) == i by {
        let p = i / (bpp as int);
        vstd::arithmetic::div_mod::lemma_fundamental_div_mod(i, bpp as int);
        vstd::arithmetic::div_mod::lemma_fundamental_div_mod(p, w as int);
        assert(i == p * bpp + i % (bpp as int)) by {
            vstd::arithmetic::mul::lemma_mul_is_commutative(p, bpp as int);
        }
        assert(p == (p / (w as int)) * w + p % (w as int)) by {
            vstd::arithmetic::mul::lemma_mul_is_commutative(p / (w as int), w as int);
        }
    }
}

/// A decoded image holds exactly `width × height` pixels of its format.
pub proof fn lemma_parse_tga_len(s: Seq<u8>)
    requires
        spec_parse_tga(s) is Ok,
    ensures
        ({
            let m = spec_parse_tga(s)->Ok_0;
            m.data.len() == m.width * m.height * m.pixel_format.bpp()
        }),
{
    let h = spec_parse_header(s)->0;
    let t = image_type_of(h.image_type_raw)->0;
    let (pal, cursor) = spec_read_palette(s, h, t)->Ok_0;
    let n = (h.width * h.height) as nat;
    let bpp = depth_bytes(h.depth);
    let body = s.skip(cursor as int);
    assert(pal matches Option::Some(p) ==> forall|i: int| 0 <= i < p.len() ==> (#[trigger] p[i]).len() == 4);
    if t.is_rle() {
        lemma_rle_from_len(t, h.depth, h.cmap_first, body, pal, bpp, n);
    } else {
        lemma_raw_from_len(t, h.depth, h.cmap_first, body, pal, bpp, n);
    }
    let m = spec_parse_tga(s)->Ok_0;
    assert(out_format(t).bpp() == out_bpp(t));
    assert(m.width * m.height == n);
}


// ---------------------------------------------------------------------------
// Error messages
// ---------------------------------------------------------------------------

/// An image type's name as the error messages print it.
pub open spec fn image_type_label(t: ImageType) -> Seq<char> {
    match t {
        ImageType::NoImageData => "None"@,
        ImageType::UncompressedColourMapped => "UncompressedColourMapped"@,
        ImageType::UncompressedTrueColour => "UncompressedTrueColour"@,
        ImageType::UncompressedGrayscale => "UncompressedGrayscale"@,
        ImageType::RleColourMapped => "RleColourMapped"@,
        ImageType::RleTrueColour => "RleTrueColour"@,
        ImageType::RleGrayscale => "RleGrayscale"@,
    }
}

/// The message for a stored pixel `src` that does not decode.
pub open spec fn pixel_msg(t: ImageType, depth: u8, cmap_first: u16, src: Seq<u8>, pal: Option<Seq<Seq<u8>>>) -> Seq<
    char,
> {
    if t.is_colour_mapped() {
        match pal {
            Option::None => "TGA: colour-mapped without palette"@,
            Option::Some(_) => if (src[0] as int) < (cmap_first as int) {
                "TGA: palette index "@ + dec_chars(src[0] as nat) + " below colour-map origin "@
                    + dec_chars(cmap_first as nat)
            } else {
                "TGA: palette index "@ + dec_chars(src[0] as nat) + " out of range"@
            },
        }
    } else if t is UncompressedTrueColour || t is RleTrueColour {
        "TGA: true-colour pixel depth "@ + dec_chars(depth as nat) + " not supported"@
    } else {
        "TGA: image_type == 0 reached pixel decoder"@
    }
}

/// The message for the first of `n` stored pixels at the front of `s`
/// that does not decode (where `raw_from` fails).
pub open spec fn raw_msg(
    t: ImageType,
    depth: u8,
    cmap_first: u16,
    s: Seq<u8>,
    pal: Option<Seq<Seq<u8>>>,
    bpp: nat,
    n: nat,
) -> Seq<char>
    decreases n,
{
    if n == 0 {
        Seq::empty()
    } else if s.len() < bpp {
        "TGA: pixel data truncated"@
    } else {
        match pixel_out(t, depth, cmap_first, s.take(bpp as int), pal) {
            Option::None => pixel_msg(t, depth, cmap_first, s.take(bpp as int), pal),
            Option::Some(_) => raw_msg(t, depth, cmap_first, s.skip(bpp as int), pal, bpp, (n - 1) as nat),
        }
    }
}

/// The message for the first packet of a run-length stream that fails
/// (where `rle_from` fails), `remaining` of `total` pixels still to come.
pub open spec fn rle_msg(
    t: ImageType,
    depth: u8,
    cmap_first: u16,
    s: Seq<u8>,
    pal: Option<Seq<Seq<u8>>>,
    bpp: nat,
    remaining: nat,
    total: nat,
) -> Seq<char>
    decreases remaining,
{
    if remaining == 0 {
        Seq::empty()
    } else if s.len() == 0 {
        "TGA: RLE stream truncated (no packet hdr)"@
    } else {
        let packet = s[0];
        let count = (packet % 128) as nat + 1;
        if count > remaining {
            "TGA: RLE packet overruns pixel array (produced="@ + dec_chars((total - remaining) as nat)
                + ", packet count="@ + dec_chars(count) + ", total="@ + dec_chars(total) + ")"@
        } else if packet >= 128 {
            if s.len() < 1 + bpp {
                "TGA: RLE run packet truncated"@
            } else {
                match pixel_out(t, depth, cmap_first, s.subrange(1, 1 + bpp as int), pal) {
                    Option::None => pixel_msg(t, depth, cmap_first, s.subrange(1, 1 + bpp as int), pal),
                    Option::Some(_) => rle_msg(
                        t,
                        depth,
                        cmap_first,
                        s.skip(1 + bpp as int),
                        pal,
                        bpp,
                        (remaining - count) as nat,
                        total,
                    ),
                }
            }
        } else {
            if s.len() < 1 + (count * bpp) as int {
                "TGA: RLE raw packet truncated"@
            } else {
                let sub = s.subrange(1, 1 + (count * bpp) as int);
                match raw_from(t, depth, cmap_first, sub, pal, bpp, count) {
                    Option::None => raw_msg(t, depth, cmap_first, sub, pal, bpp, count),
                    Option::Some(_) => rle_msg(
                        t,
                        depth,
                        cmap_first,
                        s.skip(1 + (count * bpp) as int),
                        pal,
                        bpp,
                        (remaining - count) as nat,
                        total,
                    ),
                }
            }
        }
    }
}

/// The message for a colour map that does not read (where
/// `spec_read_palette` fails).
pub open spec fn read_palette_msg(s: Seq<u8>, h: TgaHeader, t: ImageType) -> Seq<char> {
    let cursor = 18 + h.id_length;
    if s.len() < cursor {
        "TGA: truncated past image ID"@
    } else if h.cmap_type == 1 {
        if h.cmap_entry_size == 0 || h.cmap_length == 0 {
            "TGA: cmap_type == 1 but cmap_entry_size / cmap_length == 0"@
        } else if s.len() < cursor + depth_bytes(h.cmap_entry_size) * (h.cmap_length as nat) {
            "TGA: colour map truncated"@
        } else {
            "TGA: palette entry size "@ + dec_chars(h.cmap_entry_size as nat) + " bits not supported"@
        }
    } else {
        "TGA: colour-mapped image type but cmap_type == 0"@
    }
}

/// The message for a pixel depth the image type does not support.
pub open spec fn depth_msg(t: ImageType, depth: u8) -> Seq<char> {
    "TGA: image type "@ + image_type_label(t) + " with depth "@ + dec_chars(depth as nat) + " not supported"@
}

/// The message of the error `parse_tga` reports for `s` (where
/// `spec_parse_tga` fails; it names the first check that fails).
pub open spec fn spec_parse_tga_msg(s: Seq<u8>) -> Seq<char> {
    match spec_parse_header(s) {
        Option::None => "TGA: header truncated"@,
        Option::Some(h) => match image_type_of(h.image_type_raw) {
            Option::None => "TGA: image type "@ + dec_chars(h.image_type_raw as nat) + " not supported"@,
            Option::Some(t) => {
                if t is NoImageData {
                    "TGA: image_type == 0 (no image data)"@
                } else if h.width == 0 || h.height == 0 {
                    "TGA: zero dimension"@
                } else {
                    match spec_read_palette(s, h, t) {
                        Err(_) => read_palette_msg(s, h, t),
                        Ok((pal, cursor)) => {
                            let n = (h.width * h.height) as nat;
                            let bpp = depth_bytes(h.depth);
                            let body = s.skip(cursor as int);
                            if !depth_ok(t, h.depth) {
                                depth_msg(t, h.depth)
                            } else if t.is_rle() {
                                rle_msg(t, h.depth, h.cmap_first, body, pal, bpp, n, n)
                            } else if body.len() < n * bpp {
                                "TGA: pixel data truncated"@
                            } else {
                                raw_msg(t, h.depth, h.cmap_first, body, pal, bpp, n)
                            }
                        },
                    }
                }
            },
        },
    }
}

} // verus!
