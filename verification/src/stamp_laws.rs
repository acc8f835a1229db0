//! Laws on postage stamps: a thumbnail written by
//! `encode_tga_with_extension` reads back from `parse_tga_postage_stamp`
//! in the parent's terms: true-colour stamps as RGBA pixels, index stamps
//! through the parent's colour map, grayscale stamps as their samples.
use vstd::prelude::*;
use crate::decode_spec::{raw_from, pixel_out, spec_parse_tga, spec_read_palette, depth_ok, depth_bytes};
use crate::encode_spec::{pixels3, pixels4, rgb_to_rgba};
use crate::ext_encoder::{
    rgb_to_bgr, rgb_to_bgra, rgba_to_bgr, rgba_to_bgra, spec_stamp_bytes, spec_encode_with_extension,
    ExtensionAreaInput,
};
use crate::ext_laws::{lemma_bgra_stamp_decodes, lemma_stamp_layout};
use crate::image::{ImageModel, TgaImage, TgaPixelFormat};
use crate::laws::{lemma_raw_decodes, pixels_decode};
use crate::rle_spec::{ser_all, ser_bgr, ser_bgra, ser_byte};
use crate::types::{ImageType, spec_parse_header, image_type_of, u16_at, u32_at};
use crate::metadata::file_ext_offset;
use crate::sections::{spec_postage_stamp, uncompressed_of};
use crate::error::TgaErrorKind;
use crate::file_laws::lemma_prefix_header_palette;

verus! {

/// An RGBA pixel with its alpha replaced by `0xFF`.
pub open spec fn rgba_opaque() -> spec_fn([u8; 4]) -> Seq<u8> {
    |p: [u8; 4]| seq![p[0], p[1], p[2], 255u8]
}

/// An RGB pixel stored as opaque BGRA.
pub open spec fn ser_bgr_opaque() -> spec_fn([u8; 3]) -> Seq<u8> {
    |p: [u8; 3]| seq![p[2], p[1], p[0], 255u8]
}

/// The bytes per pixel of a true-colour stamp's own data.
pub open spec fn stamp_src_bpp(f: TgaPixelFormat) -> nat {
    if f is Rgb24 {
        3
    } else {
        4
    }
}

/// The RGBA pixels that a true-colour stamp reads back as under a
/// true-colour parent of `depth` bits: its first `width × height` pixels,
/// with alpha `0xFF` wherever the stamp or the parent carries none.
pub open spec fn stamp_rgba(st: TgaImage, depth: u8) -> Seq<u8> {
    let n = (st.width * st.height) as nat;
    let d = st.data@;
    if st.pixel_format is Rgb24 {
        ser_all(pixels3(d, n), rgb_to_rgba())
    } else if depth == 32 {
        d.take(4 * n as int)
    } else {
        ser_all(pixels4(d, n), rgba_opaque())
    }
}

/// A byte sequence whose `k`-th group of `m` bytes is `ser(p[k])`, for
/// every `k`, starts with the serialisation of `p`.
proof fn lemma_groups_ser<T>(s: Seq<u8>, p: Seq<T>, ser: spec_fn(T) -> Seq<u8>, m: nat)
    requires
        m * p.len() <= s.len(),
        forall|k: int| 0 <= k < p.len() ==> (#[trigger] ser(p[k])).len() == m,
        forall|k: int, i: int|
            0 <= k < p.len() && 0 <= i < m ==> s[m * k + i] == #[trigger] ser(p[k])[i],
    ensures
        s.take(m * p.len() as int) == ser_all(p, ser),
    decreases p.len(),
{
    if p.len() == 0 {
        assert(s.take(0) =~= Seq::<u8>::empty());
    } else {
        let q = p.drop_last();
        let n = q.len();
        assert(m * n <= m * p.len()) by (nonlinear_arith)
            requires
                n <= p.len(),
        ;
        assert forall|k: int, i: int| 0 <= k < q.len() && 0 <= i < m implies s[m * k + i]
            == #[trigger] ser(q[k])[i] by {
            assert(q[k] == p[k]);
        }
        assert forall|k: int| 0 <= k < q.len() implies (#[trigger] ser(q[k])).len() == m by {
            assert(q[k] == p[k]);
        }
        lemma_groups_ser(s, q, ser, m);
        assert(m * p.len() == m * n + m) by (nonlinear_arith)
            requires
                p.len() == n + 1,
        ;
        let last = ser(p[n as int]);
        assert(s.take(m * p.len() as int) =~= s.take(m * n as int) + last) by {
            assert forall|j: int| m * n <= j < m * n + m implies #[trigger] s[j] == last[j - m * n] by {
                let i = j - m * n;
                assert(s[m * n + i] == ser(p[n as int])[i]);
            }
        }
        assert(p.last() == p[n as int]);
    }
}

/// Stored bytes grouped as `ser` lays out the pixels `p`, with anything
/// after them, decode to the pixels' `outf` forms.
proof fn lemma_grouped_decodes<T>(
    t: ImageType,
    depth: u8,
    cmap_first: u16,
    pal: Option<Seq<Seq<u8>>>,
    s: Seq<u8>,
    rest: Seq<u8>,
    p: Seq<T>,
    ser: spec_fn(T) -> Seq<u8>,
    outf: spec_fn(T) -> Seq<u8>,
    m: nat,
)
    requires
        m * p.len() <= s.len(),
        forall|k: int, i: int|
            0 <= k < p.len() && 0 <= i < m ==> s[m * k + i] == #[trigger] ser(p[k])[i],
        pixels_decode(t, depth, cmap_first, pal, p, ser, outf, m),
    ensures
        raw_from(t, depth, cmap_first, s + rest, pal, m, p.len()) == Some(ser_all(p, outf)),
{
    assert forall|k: int| 0 <= k < p.len() implies (#[trigger] ser(p[k])).len() == m by {}
    lemma_groups_ser(s, p, ser, m);
    let cut = m * p.len();
    let rest2 = s.skip(cut as int) + rest;
    assert(s + rest =~= ser_all(p, ser) + rest2) by {
        assert(s =~= s.take(cut as int) + s.skip(cut as int));
    }
    lemma_raw_decodes(t, depth, cmap_first, pal, p, ser, outf, m, rest2);
}

/// RGBA stamp pixels stored as BGR decode, under a 24-bit true-colour
/// header, to the same pixels made opaque.
proof fn lemma_rgba_as_bgr_decodes(
    t: ImageType,
    cmap_first: u16,
    d: Seq<u8>,
    rest: Seq<u8>,
    pal: Option<Seq<Seq<u8>>>,
    n: nat,
)
    requires
        t is UncompressedTrueColour,
        4 * n <= d.len(),
    ensures
        raw_from(t, 24, cmap_first, rgba_to_bgr(d) + rest, pal, 3, n) == Some(
            ser_all(pixels4(d, n), rgba_opaque()),
        ),
{
    let p = pixels4(d, n);
    let s = rgba_to_bgr(d);
    assert(d.len() / 4 * 3 >= 3 * n) by (nonlinear_arith)
        requires
            4 * n <= d.len(),
    ;
    assert forall|k: int, i: int| 0 <= k < p.len() && 0 <= i < 3 implies s[3 * k + i]
        == #[trigger] (ser_bgra(false))(p[k])[i] by {
        assert((3 * k + i) / 3 == k);
        assert((3 * k + i) % 3 == i);
        assert((ser_bgra(false))(p[k]) =~= seq![d[4 * k + 2], d[4 * k + 1], d[4 * k]]);
    }
    assert forall|k: int| 0 <= k < p.len() implies (#[trigger] (ser_bgra(false))(p[k])).len() == 3
        && pixel_out(t, 24, cmap_first, (ser_bgra(false))(p[k]), pal) == Some((rgba_opaque())(p[k])) by {
        let q = p[k];
        assert((ser_bgra(false))(q) =~= seq![q[2], q[1], q[0]]);
        assert(pixel_out(t, 24, cmap_first, (ser_bgra(false))(q), pal)->0 =~= (rgba_opaque())(q));
    }
    lemma_grouped_decodes(t, 24, cmap_first, pal, s, rest, p, ser_bgra(false), rgba_opaque(), 3);
}

/// RGB stamp pixels stored as BGR decode, under a 24-bit true-colour
/// header, to the same pixels widened with alpha `0xFF`.
proof fn lemma_rgb_as_bgr_decodes(
    t: ImageType,
    cmap_first: u16,
    d: Seq<u8>,
    rest: Seq<u8>,
    pal: Option<Seq<Seq<u8>>>,
    n: nat,
)
    requires
        t is UncompressedTrueColour,
        3 * n <= d.len(),
    ensures
        raw_from(t, 24, cmap_first, rgb_to_bgr(d) + rest, pal, 3, n) == Some(
            ser_all(pixels3(d, n), rgb_to_rgba()),
        ),
{
    let p = pixels3(d, n);
    let s = rgb_to_bgr(d);
    assert(d.len() / 3 * 3 >= 3 * n) by (nonlinear_arith)
        requires
            3 * n <= d.len(),
    ;
    assert forall|k: int, i: int| 0 <= k < p.len() && 0 <= i < 3 implies s[3 * k + i]
        == #[trigger] (ser_bgr())(p[k])[i] by {
        assert((3 * k + i) / 3 == k);
        assert((3 * k + i) % 3 == i);
        assert((ser_bgr())(p[k]) =~= seq![d[3 * k + 2], d[3 * k + 1], d[3 * k]]);
    }
    assert forall|k: int| 0 <= k < p.len() implies (#[trigger] (ser_bgr())(p[k])).len() == 3
        && pixel_out(t, 24, cmap_first, (ser_bgr())(p[k]), pal) == Some((rgb_to_rgba())(p[k])) by {
        let q = p[k];
        assert((ser_bgr())(q) =~= seq![q[2], q[1], q[0]]);
        assert(pixel_out(t, 24, cmap_first, (ser_bgr())(q), pal)->0 =~= (rgb_to_rgba())(q));
    }
    lemma_grouped_decodes(t, 24, cmap_first, pal, s, rest, p, ser_bgr(), rgb_to_rgba(), 3);
}

/// RGB stamp pixels stored as opaque BGRA decode, under a 32-bit
/// true-colour header, to the same pixels widened with alpha `0xFF`.
proof fn lemma_rgb_as_bgra_decodes(
    t: ImageType,
    cmap_first: u16,
    d: Seq<u8>,
    rest: Seq<u8>,
    pal: Option<Seq<Seq<u8>>>,
    n: nat,
)
    requires
        t is UncompressedTrueColour,
        3 * n <= d.len(),
    ensures
        raw_from(t, 32, cmap_first, rgb_to_bgra(d) + rest, pal, 4, n) == Some(
            ser_all(pixels3(d, n), rgb_to_rgba()),
        ),
{
    let p = pixels3(d, n);
    let s = rgb_to_bgra(d);
    assert(d.len() / 3 * 4 >= 4 * n) by (nonlinear_arith)
        requires
            3 * n <= d.len(),
    ;
    assert forall|k: int, i: int| 0 <= k < p.len() && 0 <= i < 4 implies s[4 * k + i]
        == #[trigger] (ser_bgr_opaque())(p[k])[i] by {
        assert((4 * k + i) / 4 == k);
        assert((4 * k + i) % 4 == i);
        assert((ser_bgr_opaque())(p[k]) =~= seq![d[3 * k + 2], d[3 * k + 1], d[3 * k], 255u8]);
    }
    assert forall|k: int| 0 <= k < p.len() implies (#[trigger] (ser_bgr_opaque())(p[k])).len() == 4
        && pixel_out(t, 32, cmap_first, (ser_bgr_opaque())(p[k]), pal) == Some((rgb_to_rgba())(p[k])) by {
        let q = p[k];
        assert((ser_bgr_opaque())(q) =~= seq![q[2], q[1], q[0], 255u8]);
        assert(pixel_out(t, 32, cmap_first, (ser_bgr_opaque())(q), pal)->0 =~= (rgb_to_rgba())(q));
    }
    lemma_grouped_decodes(t, 32, cmap_first, pal, s, rest, p, ser_bgr_opaque(), rgb_to_rgba(), 4);
}

/// The stored pixels of a true-colour stamp hold at least `width × height`
/// pixels of the parent's depth and decode, under a true-colour header of
/// that depth, to `stamp_rgba`.
proof fn lemma_stamp_body_decodes(
    st: TgaImage,
    depth: u8,
    cmap_first: u16,
    rest: Seq<u8>,
    pal: Option<Seq<Seq<u8>>>,
)
    requires
        depth == 24 || depth == 32,
        st.pixel_format is Rgba || st.pixel_format is Rgb24,
        1 <= st.width <= 255,
        1 <= st.height <= 255,
        st.data@.len() >= stamp_src_bpp(st.pixel_format) * st.width * st.height,
    ensures
        spec_stamp_bytes(st, depth) is Ok,
        ({
            let body = spec_stamp_bytes(st, depth)->Ok_0.skip(2);
            let n = (st.width * st.height) as nat;
            &&& body.len() >= n * depth_bytes(depth)
            &&& raw_from(
                ImageType::UncompressedTrueColour,
                depth,
                cmap_first,
                body + rest,
                pal,
                depth_bytes(depth),
                n,
            ) == Some(stamp_rgba(st, depth))
        }),
{
    let t = ImageType::UncompressedTrueColour;
    let n = (st.width * st.height) as nat;
    let d = st.data@;
    let sb = spec_stamp_bytes(st, depth)->Ok_0;
    let src = stamp_src_bpp(st.pixel_format);
    assert(src * st.width * st.height == src * n) by (nonlinear_arith)
        requires
            n == st.width * st.height,
    ;
    assert(d.len() / src * 3 >= 3 * n && d.len() / src * 4 >= 4 * n) by (nonlinear_arith)
        requires
            d.len() >= src * n,
            src == 3 || src == 4,
    ;
    assert(depth_bytes(24) == 3 && depth_bytes(32) == 4);
    if st.pixel_format is Rgb24 {
        if depth == 24 {
            assert(sb.skip(2) =~= rgb_to_bgr(d));
            lemma_rgb_as_bgr_decodes(t, cmap_first, d, rest, pal, n);
        } else {
            assert(sb.skip(2) =~= rgb_to_bgra(d));
            lemma_rgb_as_bgra_decodes(t, cmap_first, d, rest, pal, n);
        }
    } else {
        if depth == 24 {
            assert(sb.skip(2) =~= rgba_to_bgr(d));
            lemma_rgba_as_bgr_decodes(t, cmap_first, d, rest, pal, n);
        } else {
            assert(sb.skip(2) =~= rgba_to_bgra(d));
            lemma_bgra_stamp_decodes(t, cmap_first, d, rest, pal, n);
        }
    }
}

/// `true` when `s` has a true-colour header of `depth` bits whose colour
/// map (if any) reads.
pub open spec fn truecolour_parent(s: Seq<u8>, depth: u8) -> bool {
    match spec_parse_header(s) {
        Some(h) => match image_type_of(h.image_type_raw) {
            Some(t) => h.depth == depth && (t is UncompressedTrueColour || t is RleTrueColour)
                && spec_read_palette(s, h, t) is Ok,
            None => false,
        },
        None => false,
    }
}

/// A 24- or 32-bit file that decodes is true colour with a readable
/// header and colour map.
proof fn lemma_truecolour_parent(base: Seq<u8>)
    requires
        spec_parse_tga(base) is Ok,
        base[16] == 24 || base[16] == 32,
    ensures
        truecolour_parent(base, base[16]),
{
}

/// A true-colour stamp laid out as the writer lays it out, under a
/// true-colour parent, decodes to `stamp_rgba`.
#[verifier::rlimit(40)]
proof fn lemma_truecolour_stamp_decodes(
    out: Seq<u8>,
    base: Seq<u8>,
    off: int,
    p: int,
    after: Seq<u8>,
    st: TgaImage,
)
    requires
        base[16] == 24 || base[16] == 32,
        truecolour_parent(base, base[16]),
        file_ext_offset(out) == Some(off),
        u32_at(out, off + 486) as int == p,
        0 < p,
        p + 2 <= out.len(),
        st.pixel_format is Rgba || st.pixel_format is Rgb24,
        1 <= st.width <= 255,
        1 <= st.height <= 255,
        st.data@.len() >= stamp_src_bpp(st.pixel_format) * st.width * st.height,
        out[p] == st.width as u8,
        out[p + 1] == st.height as u8,
        spec_stamp_bytes(st, base[16]) is Ok,
        out.skip(p + 2) == spec_stamp_bytes(st, base[16])->Ok_0.skip(2) + after,
        out == base + out.skip(base.len() as int),
    ensures
        spec_postage_stamp(out) == Ok::<Option<ImageModel>, TgaErrorKind>(
            Some(
                ImageModel {
                    width: st.width,
                    height: st.height,
                    pixel_format: TgaPixelFormat::Rgba,
                    data: stamp_rgba(st, base[16]),
                },
            ),
        ),
{
    let depth = base[16];
    let h = spec_parse_header(base)->0;
    let t = image_type_of(h.image_type_raw)->0;
    lemma_prefix_header_palette(base, out.skip(base.len() as int), t);
    let n = (out[p] * out[p + 1]) as nat;
    assert(n == st.width * st.height);
    let pal = spec_read_palette(base, h, t)->Ok_0.0;
    lemma_stamp_body_decodes(st, depth, h.cmap_first, after, pal);
    let body = out.skip(p + 2);
    assert(spec_parse_header(out) == Some(h));
    assert(spec_read_palette(out, h, t) == spec_read_palette(base, h, t));
    assert(uncompressed_of(t) == ImageType::UncompressedTrueColour);
    assert(depth_ok(ImageType::UncompressedTrueColour, h.depth));
    assert(out[p] as u32 == st.width && out[p + 1] as u32 == st.height);
}

/// Law: a true-colour postage stamp (RGBA or RGB) written by
/// `encode_tga_with_extension` under a 24- or 32-bit true-colour parent
/// that decodes reads back from `parse_tga_postage_stamp` with its size
/// and its first `width × height` pixels as RGBA, alpha kept under a
/// 32-bit parent and `0xFF` where the stamp or the parent has no alpha.
pub proof fn law_postage_stamp_roundtrip(base: Seq<u8>, ext: ExtensionAreaInput)
    requires
        spec_encode_with_extension(base, ext) is Ok,
        spec_encode_with_extension(base, ext)->Ok_0.len() <= u32::MAX,
        spec_parse_tga(base) is Ok,
        base[16] == 24 || base[16] == 32,
        ext.postage_stamp matches Some(st) && (st.pixel_format is Rgba || st.pixel_format is Rgb24)
            && st.data@.len() >= stamp_src_bpp(st.pixel_format) * st.width * st.height,
    ensures
        ({
            let st = ext.postage_stamp->0;
            spec_postage_stamp(spec_encode_with_extension(base, ext)->Ok_0) == Ok::<
                Option<ImageModel>,
                TgaErrorKind,
            >(
                Some(
                    ImageModel {
                        width: st.width,
                        height: st.height,
                        pixel_format: TgaPixelFormat::Rgba,
                        data: stamp_rgba(st, base[16]),
                    },
                ),
            )
        }),
{
    let st = ext.postage_stamp->0;
    let (off, p, after) = lemma_stamp_layout(base, ext);
    lemma_truecolour_parent(base);
    lemma_truecolour_stamp_decodes(
        spec_encode_with_extension(base, ext)->Ok_0,
        base,
        off,
        p,
        after,
        st,
    );
}

/// The colour map of `s` as the decoder reads it (RGBA entries), when the
/// header and colour map read and there is one.
pub open spec fn file_palette(s: Seq<u8>) -> Option<Seq<Seq<u8>>> {
    match spec_parse_header(s) {
        Some(h) => match image_type_of(h.image_type_raw) {
            Some(t) => match spec_read_palette(s, h, t) {
                Ok((pal, _cursor)) => pal,
                Err(_) => None,
            },
            None => None,
        },
        None => None,
    }
}

/// `true` when each of the first `n` bytes of `d`, counted from `first`,
/// names an entry of `pal`.
pub open spec fn indices_in(d: Seq<u8>, n: nat, pal: Seq<Seq<u8>>, first: u16) -> bool {
    forall|i: int| 0 <= i < n ==> first <= #[trigger] d[i] && d[i] - first < pal.len()
}

/// The colour-map entry that index byte `b` names, counting from `first`.
pub open spec fn entry_of(pal: Seq<Seq<u8>>, first: u16) -> spec_fn(u8) -> Seq<u8> {
    |b: u8| pal[b - first]
}

/// The entries of `pal` that the first `n` bytes of `d` name, back to back.
pub open spec fn looked_up(d: Seq<u8>, n: nat, pal: Seq<Seq<u8>>, first: u16) -> Seq<u8> {
    ser_all(d.take(n as int), entry_of(pal, first))
}

/// A stamp of index bytes laid out as the writer lays it out under a
/// colour-mapped parent decodes, when every index names an entry, to the
/// entries it names.
#[verifier::rlimit(40)]
proof fn lemma_indexed_stamp_read(
    out: Seq<u8>,
    base: Seq<u8>,
    off: int,
    p: int,
    after: Seq<u8>,
    st: TgaImage,
)
    requires
        spec_parse_tga(base) is Ok,
        image_type_of(base[2]) matches Some(t) && t.is_colour_mapped(),
        file_palette(base) matches Some(pal) && indices_in(
            st.data@,
            (st.width * st.height) as nat,
            pal,
            u16_at(base, 3),
        ),
        file_ext_offset(out) == Some(off),
        u32_at(out, off + 486) as int == p,
        0 < p,
        p + 2 <= out.len(),
        1 <= st.width <= 255,
        1 <= st.height <= 255,
        out[p] == st.width as u8,
        out[p + 1] == st.height as u8,
        out.skip(p + 2) == st.data@ + after,
        out == base + out.skip(base.len() as int),
        st.data@.len() >= st.width * st.height,
    ensures
        spec_postage_stamp(out) == Ok::<Option<ImageModel>, TgaErrorKind>(
            Some(
                ImageModel {
                    width: st.width,
                    height: st.height,
                    pixel_format: TgaPixelFormat::Rgba,
                    data: looked_up(
                        st.data@,
                        (st.width * st.height) as nat,
                        file_palette(base)->0,
                        u16_at(base, 3),
                    ),
                },
            ),
        ),
{
    let d = st.data@;
    let h = spec_parse_header(base)->0;
    let t = image_type_of(h.image_type_raw)->0;
    assert(t is UncompressedColourMapped || t is RleColourMapped);
    assert(h.depth == 8);
    lemma_prefix_header_palette(base, out.skip(base.len() as int), t);
    let n = (out[p] * out[p + 1]) as nat;
    assert(n == st.width * st.height);
    assert(depth_bytes(8) == 1);
    let pal = file_palette(base)->0;
    let first = h.cmap_first;
    assert(first == u16_at(base, 3));
    let cm = ImageType::UncompressedColourMapped;
    let px = d.take(n as int);
    assert(1 * px.len() <= d.len());
    assert forall|k: int, i: int| 0 <= k < px.len() && 0 <= i < 1 implies d[1 * k + i]
        == #[trigger] (ser_byte())(px[k])[i] by {
        assert(i == 0);
        assert((ser_byte())(px[k]) =~= seq![d[k]]);
    }
    assert forall|k: int| 0 <= k < px.len() implies (#[trigger] (ser_byte())(px[k])).len() == 1
        && pixel_out(cm, 8, first, (ser_byte())(px[k]), Some(pal)) == Some(
        (entry_of(pal, first))(px[k]),
    ) by {
        assert(px[k] == d[k]);
        assert((ser_byte())(px[k]) =~= seq![d[k]]);
    }
    lemma_grouped_decodes(cm, 8, first, Some(pal), d, after, px, ser_byte(), entry_of(pal, first), 1);
    let body = out.skip(p + 2);
    assert(body.len() >= n * 1);
    assert(spec_parse_header(out) == Some(h));
    assert(spec_read_palette(out, h, t) == spec_read_palette(base, h, t));
    assert(uncompressed_of(t) == cm);
    assert(depth_ok(cm, 8));
    assert(out[p] as u32 == st.width && out[p + 1] as u32 == st.height);
}

/// Law: a postage stamp of index bytes (`Gray8`) written by
/// `encode_tga_with_extension` under a colour-mapped parent that decodes
/// reads back from `parse_tga_postage_stamp` with its size and, as RGBA,
/// the parent's colour-map entries that its first `width × height` bytes
/// name, when every one of them names an entry.
pub proof fn law_postage_stamp_indexed_roundtrip(base: Seq<u8>, ext: ExtensionAreaInput)
    requires
        spec_encode_with_extension(base, ext) is Ok,
        spec_encode_with_extension(base, ext)->Ok_0.len() <= u32::MAX,
        spec_parse_tga(base) is Ok,
        image_type_of(base[2]) matches Some(t) && t.is_colour_mapped(),
        ext.postage_stamp matches Some(st) && st.pixel_format is Gray8 && st.data@.len() >= st.width
            * st.height,
        file_palette(base) matches Some(pal) && indices_in(
            ext.postage_stamp->0.data@,
            (ext.postage_stamp->0.width * ext.postage_stamp->0.height) as nat,
            pal,
            u16_at(base, 3),
        ),
    ensures
        ({
            let st = ext.postage_stamp->0;
            spec_postage_stamp(spec_encode_with_extension(base, ext)->Ok_0) == Ok::<
                Option<ImageModel>,
                TgaErrorKind,
            >(
                Some(
                    ImageModel {
                        width: st.width,
                        height: st.height,
                        pixel_format: TgaPixelFormat::Rgba,
                        data: looked_up(
                            st.data@,
                            (st.width * st.height) as nat,
                            file_palette(base)->0,
                            u16_at(base, 3),
                        ),
                    },
                ),
            )
        }),
{
    let st = ext.postage_stamp->0;
    let (off, p, after) = lemma_stamp_layout(base, ext);
    let sb = spec_stamp_bytes(st, base[16])->Ok_0;
    assert(sb.skip(2) =~= st.data@);
    lemma_indexed_stamp_read(spec_encode_with_extension(base, ext)->Ok_0, base, off, p, after, st);
}

/// Stored 8-bit samples decode, under a grayscale header, to themselves.
proof fn lemma_gray_stamp_decodes(
    cmap_first: u16,
    d: Seq<u8>,
    rest: Seq<u8>,
    pal: Option<Seq<Seq<u8>>>,
    n: nat,
)
    requires
        n <= d.len(),
    ensures
        raw_from(ImageType::UncompressedGrayscale, 8, cmap_first, d + rest, pal, 1, n) == Some(
            d.take(n as int),
        ),
    decreases n,
{
    if n == 0 {
        assert(d.take(0) =~= Seq::<u8>::empty());
    } else {
        let s = d + rest;
        let e = d.skip(1);
        assert(s.skip(1) =~= e + rest);
        lemma_gray_stamp_decodes(cmap_first, e, rest, pal, (n - 1) as nat);
        assert(s.take(1) =~= seq![d[0]]);
        assert(seq![d[0]] + e.take(n - 1) =~= d.take(n as int));
    }
}

/// A stamp laid out as the writer lays it out under a grayscale parent
/// decodes to its samples.
#[verifier::rlimit(40)]
proof fn lemma_gray_stamp_read(out: Seq<u8>, base: Seq<u8>, off: int, p: int, after: Seq<u8>, st: TgaImage)
    requires
        spec_parse_tga(base) matches Ok(m) && m.pixel_format is Gray8,
        file_ext_offset(out) == Some(off),
        u32_at(out, off + 486) as int == p,
        0 < p,
        p + 2 <= out.len(),
        1 <= st.width <= 255,
        1 <= st.height <= 255,
        out[p] == st.width as u8,
        out[p + 1] == st.height as u8,
        out.skip(p + 2) == st.data@ + after,
        out == base + out.skip(base.len() as int),
        st.data@.len() >= st.width * st.height,
    ensures
        spec_postage_stamp(out) == Ok::<Option<ImageModel>, TgaErrorKind>(
            Some(
                ImageModel {
                    width: st.width,
                    height: st.height,
                    pixel_format: TgaPixelFormat::Gray8,
                    data: st.data@.take(st.width * st.height),
                },
            ),
        ),
{
    let d = st.data@;
    let h = spec_parse_header(base)->0;
    let t = image_type_of(h.image_type_raw)->0;
    assert(t is UncompressedGrayscale || t is RleGrayscale);
    assert(h.depth == 8);
    lemma_prefix_header_palette(base, out.skip(base.len() as int), t);
    let n = (out[p] * out[p + 1]) as nat;
    assert(n == st.width * st.height);
    assert(depth_bytes(8) == 1);
    let pal = spec_read_palette(base, h, t)->Ok_0.0;
    lemma_gray_stamp_decodes(h.cmap_first, d, after, pal, n);
    let body = out.skip(p + 2);
    assert(body.len() >= n * 1);
    assert(spec_parse_header(out) == Some(h));
    assert(spec_read_palette(out, h, t) == spec_read_palette(base, h, t));
    assert(crate::sections::uncompressed_of(t) == ImageType::UncompressedGrayscale);
    assert(depth_ok(ImageType::UncompressedGrayscale, 8));
    assert(out[p] as u32 == st.width && out[p + 1] as u32 == st.height);
}

/// Law: a Gray8 postage stamp written under a parent that decodes to
/// grayscale reads back with its size and the first `width × height`
/// samples of its data.
pub proof fn law_postage_stamp_gray_roundtrip(base: Seq<u8>, ext: ExtensionAreaInput)
    requires
        spec_encode_with_extension(base, ext) is Ok,
        spec_encode_with_extension(base, ext)->Ok_0.len() <= u32::MAX,
        spec_parse_tga(base) matches Ok(m) && m.pixel_format is Gray8,
        ext.postage_stamp matches Some(st) && st.pixel_format is Gray8 && st.data@.len() >= st.width
            * st.height,
    ensures
        ({
            let st = ext.postage_stamp->0;
            spec_postage_stamp(spec_encode_with_extension(base, ext)->Ok_0) == Ok::<
                Option<ImageModel>,
                TgaErrorKind,
            >(
                Some(
                    ImageModel {
                        width: st.width,
                        height: st.height,
                        pixel_format: TgaPixelFormat::Gray8,
                        data: st.data@.take(st.width * st.height),
                    },
                ),
            )
        }),
{
    let st = ext.postage_stamp->0;
    let (off, p, after) = lemma_stamp_layout(base, ext);
    let sb = spec_stamp_bytes(st, base[16])->Ok_0;
    assert(sb.skip(2) =~= st.data@);
    lemma_gray_stamp_read(spec_encode_with_extension(base, ext)->Ok_0, base, off, p, after, st);
}

} // verus!
