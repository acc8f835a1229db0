//! Laws on what each channel of a pixel becomes: the alpha of decoded
//! 15- and 16-bit true-colour pixels, the attribute bits the true-colour
//! writers declare, the alpha the attributes types settle, and the curve
//! each channel goes through under a colour-correction table.
use vstd::prelude::*;
use crate::decode_spec::{
    decode_body, depth_ok, out_bpp, pixel_out, prepend, raw_from, reorder, reorder_src, repeat,
    rle_from, spec_parse_tga, spec_read_palette, lemma_src_index_bound,
};
use crate::types::{ImageType, spec_parse_header, image_type_of};
use crate::encode_spec::{
    pixel3, pixel4, has_translucent, spec_encode_grayscale, spec_encode_rgb24, spec_encode_truecolour,
    truecolour_header, written_header,
};
use crate::types::TgaHeader;
use crate::ext_fields::{attributes_type_of, px4};
use crate::cct::TgaColourCorrectionTable;
use crate::image::TgaPixelFormat;
use crate::display::alpha_resolved;
use crate::metadata::file_attributes;

verus! {

/// `true` when every fourth byte of `d`, from byte 3 on (the alpha byte
/// of each RGBA pixel), is `0xFF`.
pub open spec fn alpha_bytes_opaque(d: Seq<u8>) -> bool {
    forall|i: int| 0 <= i < d.len() && i % 4 == 3 ==> #[trigger] d[i] == 255
}

/// Law: a stored 15-bit true-colour pixel decodes opaque whatever its top
/// bit, while a 16-bit one takes its alpha from the top bit; both give the
/// same colour channels.
pub proof fn law_15_and_16_bit_alpha(t: ImageType, cmap_first: u16, src: Seq<u8>, pal: Option<Seq<Seq<u8>>>)
    requires
        t is UncompressedTrueColour || t is RleTrueColour,
        src.len() == 2,
    ensures
        pixel_out(t, 15, cmap_first, src, pal) matches Some(p15) && pixel_out(t, 16, cmap_first, src, pal) matches Some(p16) && {
            &&& p15.len() == 4 && p16.len() == 4
            &&& p15[3] == 255
            &&& p16[3] == (if src[1] >= 128 { 255u8 } else { 0u8 })
            &&& p15[0] == p16[0] && p15[1] == p16[1] && p15[2] == p16[2]
        },
{
}

/// Two opaque-alpha runs of whole pixels join into one.
proof fn lemma_concat_opaque(a: Seq<u8>, b: Seq<u8>)
    requires
        a.len() % 4 == 0,
        alpha_bytes_opaque(a),
        alpha_bytes_opaque(b),
    ensures
        alpha_bytes_opaque(a + b),
        (a + b).len() == a.len() + b.len(),
{
    assert forall|i: int| 0 <= i < (a + b).len() && i % 4 == 3 implies #[trigger] (a + b)[i] == 255 by {
        if i >= a.len() {
            let j = i - a.len();
            assert(j % 4 == 3) by (nonlinear_arith)
                requires
                    a.len() % 4 == 0,
                    i % 4 == 3,
                    j == i - a.len(),
                    j >= 0,
            ;
            assert((a + b)[i] == b[j]);
        }
    }
}

/// Copies of an opaque pixel are opaque.
proof fn lemma_repeat_opaque(px: Seq<u8>, k: nat)
    requires
        px.len() == 4,
        px[3] == 255,
    ensures
        alpha_bytes_opaque(repeat(px, k)),
        repeat(px, k).len() == 4 * k,
    decreases k,
{
    if k > 0 {
        lemma_repeat_opaque(px, (k - 1) as nat);
        lemma_concat_opaque(repeat(px, (k - 1) as nat), px);
    }
}


/// A 15-bit true-colour pixel decodes to four bytes, opaque.
proof fn lemma_15_bit_pixel(t: ImageType, cmap_first: u16, src: Seq<u8>, pal: Option<Seq<Seq<u8>>>)
    requires
        t is UncompressedTrueColour || t is RleTrueColour,
    ensures
        pixel_out(t, 15, cmap_first, src, pal) matches Some(p) && p.len() == 4 && p[3] == 255,
{
}

/// Raw 15-bit true-colour decoding gives whole, opaque pixels.
proof fn lemma_raw_15_opaque(
    t: ImageType,
    cmap_first: u16,
    s: Seq<u8>,
    pal: Option<Seq<Seq<u8>>>,
    bpp: nat,
    n: nat,
)
    requires
        t is UncompressedTrueColour || t is RleTrueColour,
    ensures
        raw_from(t, 15, cmap_first, s, pal, bpp, n) matches Some(r) ==> alpha_bytes_opaque(r) && r.len()
            == 4 * n,
    decreases n,
{
    if n > 0 && s.len() >= bpp {
        lemma_15_bit_pixel(t, cmap_first, s.take(bpp as int), pal);
        lemma_raw_15_opaque(t, cmap_first, s.skip(bpp as int), pal, bpp, (n - 1) as nat);
        let px = pixel_out(t, 15, cmap_first, s.take(bpp as int), pal)->0;
        if let Some(rest) = raw_from(t, 15, cmap_first, s.skip(bpp as int), pal, bpp, (n - 1) as nat) {
            lemma_concat_opaque(px, rest);
        }
    } else if n == 0 {
        assert(alpha_bytes_opaque(Seq::<u8>::empty()));
    }
}

/// Run-length 15-bit true-colour decoding gives whole, opaque pixels.
#[verifier::spinoff_prover]
#[verifier::rlimit(60)]
proof fn lemma_rle_15_opaque(
    t: ImageType,
    cmap_first: u16,
    s: Seq<u8>,
    pal: Option<Seq<Seq<u8>>>,
    bpp: nat,
    remaining: nat,
)
    requires
        t is UncompressedTrueColour || t is RleTrueColour,
    ensures
        rle_from(t, 15, cmap_first, s, pal, bpp, remaining) matches Some(r) ==> alpha_bytes_opaque(r)
            && r.len() == 4 * remaining,
    decreases remaining,
{
    if remaining == 0 {
        assert(alpha_bytes_opaque(Seq::<u8>::empty()));
    } else if s.len() > 0 {
        let packet = s[0];
        let count = (packet % 128) as nat + 1;
        if count <= remaining {
            let next = (remaining - count) as nat;
            if packet >= 128 {
                if s.len() >= 1 + bpp {
                    let src = s.subrange(1, 1 + bpp as int);
                    lemma_15_bit_pixel(t, cmap_first, src, pal);
                    let px = pixel_out(t, 15, cmap_first, src, pal)->0;
                    lemma_repeat_opaque(px, count);
                    lemma_rle_15_opaque(t, cmap_first, s.skip(1 + bpp as int), pal, bpp, next);
                    assert(rle_from(t, 15, cmap_first, s, pal, bpp, remaining) == prepend(
                        repeat(px, count),
                        rle_from(t, 15, cmap_first, s.skip(1 + bpp as int), pal, bpp, next),
                    ));
                    if let Some(rest) = rle_from(t, 15, cmap_first, s.skip(1 + bpp as int), pal, bpp, next) {
                        lemma_concat_opaque(repeat(px, count), rest);
                    }
                }
            } else if s.len() >= 1 + (count * bpp) as int {
                let sub = s.subrange(1, 1 + (count * bpp) as int);
                lemma_raw_15_opaque(t, cmap_first, sub, pal, bpp, count);
                let tail = s.skip(1 + (count * bpp) as int);
                lemma_rle_15_opaque(t, cmap_first, tail, pal, bpp, next);
                if let Some(a) = raw_from(t, 15, cmap_first, sub, pal, bpp, count) {
                    assert(rle_from(t, 15, cmap_first, s, pal, bpp, remaining) == prepend(
                        a,
                        rle_from(t, 15, cmap_first, tail, pal, bpp, next),
                    ));
                    if let Some(rest) = rle_from(t, 15, cmap_first, tail, pal, bpp, next) {
                        lemma_concat_opaque(a, rest);
                    }
                }
            }
        }
    }
}


/// Reordering rows and columns moves whole pixels, so opaque alpha stays.
proof fn lemma_reorder_opaque(px: Seq<u8>, w: nat, h: nat, flip: bool, mirror: bool)
    requires
        w > 0,
        h > 0,
        px.len() == w * h * 4,
        alpha_bytes_opaque(px),
    ensures
        alpha_bytes_opaque(reorder(px, w, h, 4, flip, mirror)),
{
    let r = reorder(px, w, h, 4, flip, mirror);
    assert forall|i: int| 0 <= i < r.len() && i % 4 == 3 implies #[trigger] r[i] == 255 by {
        let p = i / 4;
        let y = p / (w as int);
        let x = p % (w as int);
        assert(p < w * h) by (nonlinear_arith)
            requires
                p == i / 4,
                i < w * h * 4,
                0 <= i,
        ;
        assert(0 <= y < h) by (nonlinear_arith)
            requires
                y == p / (w as int),
                0 <= p < w * h,
                w > 0,
        ;
        assert(0 <= x < w) by (nonlinear_arith)
            requires
                x == p % (w as int),
                0 <= p,
                w > 0,
        ;
        let sy = if flip { h - 1 - y } else { y };
        let sx = if mirror { w - 1 - x } else { x };
        lemma_src_index_bound(sy, sx, 3, w as int, h as int, 4);
        let j = reorder_src(i, w, h, 4, flip, mirror);
        assert(j == (sy * w + sx) * 4 + 3);
        assert(j % 4 == 3) by (nonlinear_arith)
            requires
                j == (sy * w + sx) * 4 + 3,
                0 <= sy * w + sx,
        ;
        assert(r[i] == px[j]);
    }
}

/// The decoded bytes of a 15-bit true-colour file are whole, opaque RGBA
/// pixels.
#[verifier::spinoff_prover]
#[verifier::rlimit(60)]
proof fn lemma_parse_15_opaque(s: Seq<u8>)
    requires
        spec_parse_tga(s) is Ok,
        s[16] == 15,
    ensures
        ({
            let m = spec_parse_tga(s)->Ok_0;
            &&& m.pixel_format is Rgba
            &&& m.data.len() == 4 * (m.width * m.height)
            &&& alpha_bytes_opaque(m.data)
        }),
{
    let h = spec_parse_header(s)->0;
    let t = image_type_of(h.image_type_raw)->0;
    assert(h.depth == 15);
    assert(depth_ok(t, 15));
    assert(t is UncompressedTrueColour || t is RleTrueColour);
    let (pal, cursor) = spec_read_palette(s, h, t)->Ok_0;
    let n = (h.width * h.height) as nat;
    let body = s.skip(cursor as int);
    let bpp = crate::decode_spec::depth_bytes(15);
    if t.is_rle() {
        lemma_rle_15_opaque(t, h.cmap_first, body, pal, bpp, n);
    } else {
        lemma_raw_15_opaque(t, h.cmap_first, body, pal, bpp, n);
    }
    let px = decode_body(t, 15, h.cmap_first, body, pal, n)->0;
    assert(px.len() == (h.width as nat) * (h.height as nat) * 4) by (nonlinear_arith)
        requires
            px.len() == 4 * n,
            n == h.width * h.height,
    ;
    lemma_reorder_opaque(px, h.width as nat, h.height as nat, !h.is_top_down(), h.is_right_to_left());
    let m = spec_parse_tga(s)->Ok_0;
    assert(m.data == reorder(px, h.width as nat, h.height as nat, out_bpp(t), !h.is_top_down(), h.is_right_to_left()));
    assert(out_bpp(t) == 4);
}

/// Each whole pixel of an opaque-alpha byte run has alpha `0xFF`.
proof fn lemma_pixels_opaque(d: Seq<u8>, n: int)
    requires
        alpha_bytes_opaque(d),
        d.len() == 4 * n,
    ensures
        forall|k: int| 0 <= k < n ==> (#[trigger] pixel4(d, k))[3] == 255,
{
    assert forall|k: int| 0 <= k < n implies (#[trigger] pixel4(d, k))[3] == 255 by {
        assert((4 * k + 3) % 4 == 3);
        assert(d[4 * k + 3] == 255);
    }
}

/// Law: every pixel of a 15-bit true-colour file that `parse_tga`
/// decodes is opaque: the stored top bit is reserved, so the alpha byte
/// of each of the `width × height` RGBA pixels is `0xFF`.
#[verifier::spinoff_prover]
#[verifier::rlimit(60)]
pub proof fn law_15_bit_files_decode_opaque(s: Seq<u8>)
    requires
        spec_parse_tga(s) is Ok,
        s[16] == 15,
    ensures
        ({
            let m = spec_parse_tga(s)->Ok_0;
            &&& m.pixel_format is Rgba
            &&& m.data.len() == 4 * (m.width * m.height)
            &&& forall|k: int| 0 <= k < m.width * m.height ==> (#[trigger] pixel4(m.data, k))[3] == 255
        }),
{
    lemma_parse_15_opaque(s);
    let m = spec_parse_tga(s)->Ok_0;
    lemma_pixels_opaque(m.data, m.width * m.height);
}


/// The header bytes a writer puts first: depth at byte 16, descriptor at
/// byte 17.
proof fn lemma_header_depth_descriptor(hd: TgaHeader, body: Seq<u8>)
    ensures
        (hd.spec_bytes() + body).len() >= 18,
        (hd.spec_bytes() + body)[16] == hd.depth,
        (hd.spec_bytes() + body)[17] == hd.descriptor,
{
    assert(hd.spec_bytes().len() == 18);
}

/// Law: a file the true-colour RGBA writers produce is 32-bit exactly
/// when some pixel is translucent, and then declares 8 attribute (alpha)
/// bits; at 24 bits it declares none. The RGB24 and grayscale writers
/// declare none. Every writer sets the top-down bit.
pub proof fn law_written_attribute_bits(w: u16, h: u16, px: Seq<u8>, rle: bool)
    ensures
        spec_encode_truecolour(w, h, px, rle) matches Ok(b) ==> {
            &&& b.len() >= 18
            &&& (b[16] == 32 || b[16] == 24)
            &&& (b[16] == 32 <==> has_translucent(px))
            &&& b[16] == 32 ==> b[17] & 0x0F == 8
            &&& b[16] == 24 ==> b[17] & 0x0F == 0
            &&& b[17] & 0x20 != 0
        },
        spec_encode_rgb24(w, h, px, rle) matches Ok(b) ==> {
            &&& b.len() >= 18
            &&& b[16] == 24
            &&& b[17] & 0x0F == 0
            &&& b[17] & 0x20 != 0
        },
        spec_encode_grayscale(w, h, px, rle) matches Ok(b) ==> {
            &&& b.len() >= 18
            &&& b[16] == 8
            &&& b[17] & 0x0F == 0
            &&& b[17] & 0x20 != 0
        },
{
    assert((0x28u8 & 0x0Fu8) == 8u8 && (0x28u8 & 0x20u8) != 0u8) by (bit_vector);
    assert((0x20u8 & 0x0Fu8) == 0u8 && (0x20u8 & 0x20u8) != 0u8) by (bit_vector);
    let a = has_translucent(px);
    let tt = if rle { ImageType::RleTrueColour } else { ImageType::UncompressedTrueColour };
    let tg = if rle { ImageType::RleGrayscale } else { ImageType::UncompressedGrayscale };
    if let Ok(b) = spec_encode_truecolour(w, h, px, rle) {
        let hd = truecolour_header(tt, w, h, a);
        lemma_header_depth_descriptor(hd, b.skip(18));
        assert(b == hd.spec_bytes() + b.skip(18));
    }
    if let Ok(b) = spec_encode_rgb24(w, h, px, rle) {
        let hd = truecolour_header(tt, w, h, false);
        lemma_header_depth_descriptor(hd, b.skip(18));
        assert(b == hd.spec_bytes() + b.skip(18));
    }
    if let Ok(b) = spec_encode_grayscale(w, h, px, rle) {
        let hd = written_header(tg, 0, 0, 0, w, h, 8, 0x20);
        lemma_header_depth_descriptor(hd, b.skip(18));
        assert(b == hd.spec_bytes() + b.skip(18));
    }
}

/// Law: attributes types 0 (no alpha data) and 1 (undefined alpha, may
/// be ignored) make every whole RGBA pixel opaque and keep its colour; the
/// display pipeline's alpha pass does the same for a file that declares
/// either type.
pub proof fn law_ignored_alpha_is_opaque(b: u8, d: Seq<u8>, s: Seq<u8>)
    requires
        b == 0 || b == 1,
    ensures
        ({
            let r = attributes_type_of(b).applied(d);
            &&& r.len() == d.len()
            &&& forall|k: int| 0 <= k < d.len() / 4 ==> #[trigger] pixel4(r, k) == [
                d[4 * k],
                d[4 * k + 1],
                d[4 * k + 2],
                255u8,
            ]
        }),
        file_attributes(s) == Some(attributes_type_of(b)) ==> alpha_resolved(s, TgaPixelFormat::Rgba, d)
            == attributes_type_of(b).applied(d),
{
    let a = attributes_type_of(b);
    let r = a.applied(d);
    assert forall|k: int| 0 <= k < d.len() / 4 implies #[trigger] pixel4(r, k) == [
        d[4 * k],
        d[4 * k + 1],
        d[4 * k + 2],
        255u8,
    ] by {
        assert((4 * k + 0) / 4 == k && (4 * k + 0) % 4 == 0);
        assert((4 * k + 1) / 4 == k && (4 * k + 1) % 4 == 1);
        assert((4 * k + 2) / 4 == k && (4 * k + 2) % 4 == 2);
        assert((4 * k + 3) / 4 == k && (4 * k + 3) % 4 == 3);
        assert(4 * k + 3 < d.len() - d.len() % 4) by (nonlinear_arith)
            requires
                0 <= k < d.len() / 4,
        ;
        assert(px4(d, k) == [d[4 * k], d[4 * k + 1], d[4 * k + 2], d[4 * k + 3]]);
    }
}

/// Law: a colour-correction table sends each channel through its own
/// curve, keeping the curve value's high byte: in every whole RGBA pixel
/// bytes 0/1/2/3 through the red/green/blue/alpha curves, in every whole
/// RGB pixel bytes 0/1/2 through red/green/blue, and every grayscale
/// sample through the green curve.
pub proof fn law_cct_channel_curves(t: TgaColourCorrectionTable, d: Seq<u8>)
    ensures
        ({
            let r = t.applied(TgaPixelFormat::Rgba, d);
            &&& r.len() == d.len()
            &&& forall|k: int| 0 <= k < d.len() / 4 ==> #[trigger] pixel4(r, k) == [
                (t.red[d[4 * k] as int] / 256) as u8,
                (t.green[d[4 * k + 1] as int] / 256) as u8,
                (t.blue[d[4 * k + 2] as int] / 256) as u8,
                (t.alpha[d[4 * k + 3] as int] / 256) as u8,
            ]
        }),
        ({
            let r = t.applied(TgaPixelFormat::Rgb24, d);
            &&& r.len() == d.len()
            &&& forall|k: int| 0 <= k < d.len() / 3 ==> #[trigger] pixel3(r, k) == [
                (t.red[d[3 * k] as int] / 256) as u8,
                (t.green[d[3 * k + 1] as int] / 256) as u8,
                (t.blue[d[3 * k + 2] as int] / 256) as u8,
            ]
        }),
        ({
            let r = t.applied(TgaPixelFormat::Gray8, d);
            &&& r.len() == d.len()
            &&& forall|i: int| 0 <= i < d.len() ==> #[trigger] r[i] == (t.green[d[i] as int] / 256) as u8
        }),
{
    let r = t.applied(TgaPixelFormat::Rgba, d);
    assert forall|k: int| 0 <= k < d.len() / 4 implies #[trigger] pixel4(r, k) == [
        (t.red[d[4 * k] as int] / 256) as u8,
        (t.green[d[4 * k + 1] as int] / 256) as u8,
        (t.blue[d[4 * k + 2] as int] / 256) as u8,
        (t.alpha[d[4 * k + 3] as int] / 256) as u8,
    ] by {
        assert((4 * k + 1) % 4 == 1 && (4 * k + 2) % 4 == 2 && (4 * k + 3) % 4 == 3 && (4 * k) % 4 == 0);
        assert(4 * k + 3 < d.len() - d.len() % 4) by (nonlinear_arith)
            requires
                0 <= k < d.len() / 4,
        ;
    }
    let q = t.applied(TgaPixelFormat::Rgb24, d);
    assert forall|k: int| 0 <= k < d.len() / 3 implies #[trigger] pixel3(q, k) == [
        (t.red[d[3 * k] as int] / 256) as u8,
        (t.green[d[3 * k + 1] as int] / 256) as u8,
        (t.blue[d[3 * k + 2] as int] / 256) as u8,
    ] by {
        assert((3 * k + 1) % 3 == 1 && (3 * k + 2) % 3 == 2 && (3 * k) % 3 == 0);
        assert(3 * k + 2 < d.len() - d.len() % 3) by (nonlinear_arith)
            requires
                0 <= k < d.len() / 3,
        ;
    }
}

} // verus!
