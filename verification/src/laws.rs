//! Laws relating the encoders to the decoder: what `parse_tga` gives
//! back of what each writer wrote, and the supporting facts.
use vstd::prelude::*;
use crate::decode_spec::{pixel_out, prepend, raw_from, repeat, rle_from};
use crate::rle_spec::{
    lemma_raw_end_bounds, lemma_run_len_bounds, raw_end_from, rle_row, rle_row_from, rle_rows,
    run_len_from, ser_all,
};
use crate::decode_spec::{depth_bytes, lemma_reorder_identity, reorder, spec_parse_tga, a1r5g5b5, palette_of, palette_entry};
use crate::encode_spec::{
    entry_ser, lemma_pal_index_unique, lemma_palette_props, lossless_entry, pal_index,
    palette_build, palette_indices, spec_encode_palette, byte_rows, gray_to_rgba, grid, has_translucent, pixel3, pixel4, pixels3, pixels4, rgb_rows,
    rgb_to_rgba, rgba_rows, spec_encode_grayscale, spec_encode_rgb24, spec_encode_truecolour,
    truecolour_header, written_header,
};
use crate::image::{ImageModel, TgaPixelFormat};
use crate::encoder::spec_to_rgba;
use crate::rle_spec::{ser_bgr, ser_bgra, ser_byte};
use crate::types::{lemma_header_roundtrip, lemma_image_type_roundtrip, ColorMapEntrySize, ImageType, TgaHeader};

verus! {

/// Serialising a non-empty sequence front-first.
pub proof fn lemma_ser_all_front<T>(s: Seq<T>, ser: spec_fn(T) -> Seq<u8>)
    requires
        s.len() > 0,
    ensures
        ser_all(s, ser) == ser(s[0]) + ser_all(s.drop_first(), ser),
    decreases s.len(),
{
    if s.len() == 1 {
        assert(s.drop_last() =~= Seq::<T>::empty());
        assert(s.drop_first() =~= Seq::<T>::empty());
        assert(ser_all(s.drop_first(), ser) =~= Seq::<u8>::empty());
        assert(ser(s[0]) + Seq::<u8>::empty() =~= ser(s[0]));
        assert(Seq::<u8>::empty() + ser(s[0]) =~= ser(s[0]));
    } else {
        lemma_ser_all_front(s.drop_last(), ser);
        assert(s.drop_last().drop_first() =~= s.drop_first().drop_last());
        assert(s.drop_first().last() == s.last());
        assert(s.drop_last()[0] == s[0]);
        assert(ser_all(s, ser) =~= ser(s[0]) + ser_all(s.drop_first(), ser));
    }
}

/// Serialising a concatenation.
pub proof fn lemma_ser_all_concat<T>(a: Seq<T>, b: Seq<T>, ser: spec_fn(T) -> Seq<u8>)
    ensures
        ser_all(a + b, ser) == ser_all(a, ser) + ser_all(b, ser),
    decreases b.len(),
{
    if b.len() == 0 {
        assert(a + b =~= a);
        assert(ser_all(a, ser) + Seq::<u8>::empty() =~= ser_all(a, ser));
    } else {
        lemma_ser_all_concat(a, b.drop_last(), ser);
        assert((a + b).drop_last() =~= a + b.drop_last());
        assert((a + b).last() == b.last());
        assert(ser_all(a + b, ser) =~= ser_all(a, ser) + ser_all(b, ser));
    }
}

/// Length of a serialisation whose pixels all serialise to `k` bytes.
pub proof fn lemma_ser_all_len<T>(s: Seq<T>, ser: spec_fn(T) -> Seq<u8>, k: nat)
    requires
        forall|i: int| 0 <= i < s.len() ==> (#[trigger] ser(s[i])).len() == k,
    ensures
        ser_all(s, ser).len() == s.len() * k,
    decreases s.len(),
{
    if s.len() == 0 {
        assert(s.len() * k == 0) by (nonlinear_arith)
            requires
                s.len() == 0,
        ;
    } else {
        assert(forall|i: int| 0 <= i < s.drop_last().len() ==> s.drop_last()[i] == s[i]);
        lemma_ser_all_len(s.drop_last(), ser, k);
        assert(ser(s[s.len() - 1]).len() == k);
        assert(s.len() * k == (s.len() - 1) * k + k) by (nonlinear_arith);
    }
}

/// Each pixel's on-wire bytes are `bpp` long and decode to its output bytes.
pub open spec fn pixels_decode<T>(
    t: ImageType,
    depth: u8,
    cmap_first: u16,
    pal: Option<Seq<Seq<u8>>>,
    row: Seq<T>,
    ser: spec_fn(T) -> Seq<u8>,
    outf: spec_fn(T) -> Seq<u8>,
    bpp: nat,
) -> bool {
    forall|i: int|
        0 <= i < row.len() ==> (#[trigger] ser(row[i])).len() == bpp && pixel_out(
            t,
            depth,
            cmap_first,
            ser(row[i]),
            pal,
        ) == Option::Some(outf(row[i]))
}

/// Raw pixel decoding inverts raw pixel serialisation.
pub proof fn lemma_raw_decodes<T>(
    t: ImageType,
    depth: u8,
    cmap_first: u16,
    pal: Option<Seq<Seq<u8>>>,
    p: Seq<T>,
    ser: spec_fn(T) -> Seq<u8>,
    outf: spec_fn(T) -> Seq<u8>,
    bpp: nat,
    rest: Seq<u8>,
)
    requires
        pixels_decode(t, depth, cmap_first, pal, p, ser, outf, bpp),
    ensures
        raw_from(t, depth, cmap_first, ser_all(p, ser) + rest, pal, bpp, p.len())
            == Option::Some(ser_all(p, outf)),
    decreases p.len(),
{
    if p.len() == 0 {
        assert(ser_all(p, outf) =~= Seq::<u8>::empty());
    } else {
        let s = ser_all(p, ser) + rest;
        lemma_ser_all_front(p, ser);
        lemma_ser_all_front(p, outf);
        let tail = p.drop_first();
        assert(pixels_decode(t, depth, cmap_first, pal, tail, ser, outf, bpp)) by {
            assert forall|i: int| 0 <= i < tail.len() implies (#[trigger] ser(tail[i])).len() == bpp
                && pixel_out(t, depth, cmap_first, ser(tail[i]), pal) == Option::Some(
                outf(tail[i]),
            ) by {
                assert(tail[i] == p[i + 1]);
            }
        }
        assert(ser(p[0]).len() == bpp);
        assert(s.take(bpp as int) =~= ser(p[0]));
        assert(s.skip(bpp as int) =~= ser_all(tail, ser) + rest);
        lemma_raw_decodes(t, depth, cmap_first, pal, tail, ser, outf, bpp, rest);
    }
}

/// The pixels `row[i..i + run_len_from(row, i, r)]` all equal `row[i]`.
pub proof fn lemma_run_all_equal<T>(row: Seq<T>, i: int, r: int)
    requires
        1 <= r <= 128,
        0 <= i,
        i + r <= row.len(),
        forall|j: int| i <= j < i + r ==> row[j] == row[i],
    ensures
        forall|j: int| i <= j < i + run_len_from(row, i, r) ==> row[j] == row[i],
    decreases 128 - r,
{
    if r < 128 && i + r < row.len() && row[i + r] == row[i] {
        lemma_run_all_equal(row, i, r + 1);
    }
}

/// A run of `k` equal pixels decodes to `k` copies of the pixel's output.
pub proof fn lemma_repeat_run<T>(row: Seq<T>, i: int, k: nat, outf: spec_fn(T) -> Seq<u8>)
    requires
        0 <= i,
        i + k <= row.len(),
        forall|j: int| i <= j < i + k ==> row[j] == row[i],
    ensures
        repeat(outf(row[i]), k) == ser_all(row.subrange(i, i + k), outf),
    decreases k,
{
    if k == 0 {
        assert(row.subrange(i, i) =~= Seq::<T>::empty());
    } else {
        lemma_repeat_run(row, i, (k - 1) as nat, outf);
        assert(row.subrange(i, i + k).drop_last() =~= row.subrange(i, i + k - 1));
        assert(row.subrange(i, i + k).last() == row[i + k - 1]);
    }
}

/// One run packet: header byte, one stored pixel, then the rest.
proof fn lemma_rle_run_packet(
    t: ImageType,
    depth: u8,
    cmap_first: u16,
    pal: Option<Seq<Seq<u8>>>,
    px: Seq<u8>,
    outp: Seq<u8>,
    r: int,
    next: Seq<u8>,
    bpp: nat,
    rem: nat,
)
    requires
        2 <= r <= 128,
        r <= rem,
        px.len() == bpp,
        pixel_out(t, depth, cmap_first, px, pal) == Option::Some(outp),
    ensures
        rle_from(t, depth, cmap_first, seq![(128 + r - 1) as u8] + px + next, pal, bpp, rem)
            == prepend(
            repeat(outp, r as nat),
            rle_from(t, depth, cmap_first, next, pal, bpp, (rem - r) as nat),
        ),
{
    let s = seq![(128 + r - 1) as u8] + px + next;
    assert(s[0] == (128 + r - 1) as u8);
    assert(((128 + r - 1) as u8) % 128 == r - 1);
    assert(s.subrange(1, 1 + bpp as int) =~= px);
    assert(s.skip(1 + bpp as int) =~= next);
}

/// One raw packet: header byte, `c` stored pixels, then the rest.
proof fn lemma_rle_raw_packet(
    t: ImageType,
    depth: u8,
    cmap_first: u16,
    pal: Option<Seq<Seq<u8>>>,
    body: Seq<u8>,
    outp: Seq<u8>,
    c: int,
    next: Seq<u8>,
    bpp: nat,
    rem: nat,
)
    requires
        1 <= c <= 128,
        c <= rem,
        body.len() == c * bpp,
        raw_from(t, depth, cmap_first, body, pal, bpp, c as nat) == Option::Some(outp),
    ensures
        rle_from(t, depth, cmap_first, seq![(c - 1) as u8] + body + next, pal, bpp, rem)
            == prepend(outp, rle_from(t, depth, cmap_first, next, pal, bpp, (rem - c) as nat)),
{
    let s = seq![(c - 1) as u8] + body + next;
    assert(s[0] == (c - 1) as u8);
    assert(s.subrange(1, 1 + (c * bpp) as int) =~= body);
    assert(s.skip(1 + (c * bpp) as int) =~= next);
}

/// `prepend` of a concatenation.
proof fn lemma_prepend_concat(a: Seq<u8>, b: Seq<u8>, o: Option<Seq<u8>>)
    ensures
        prepend(a, prepend(b, o)) == prepend(a + b, o),
{
    if let Option::Some(v) = o {
        assert(a + (b + v) =~= (a + b) + v);
    }
}

/// Run-length decoding inverts run-length packetisation of one row.
#[verifier::rlimit(60)]
pub proof fn lemma_rle_row_decodes<T>(
    t: ImageType,
    depth: u8,
    cmap_first: u16,
    pal: Option<Seq<Seq<u8>>>,
    row: Seq<T>,
    i: int,
    ser: spec_fn(T) -> Seq<u8>,
    outf: spec_fn(T) -> Seq<u8>,
    bpp: nat,
    rest: Seq<u8>,
    k: nat,
)
    requires
        0 <= i <= row.len(),
        pixels_decode(t, depth, cmap_first, pal, row, ser, outf, bpp),
    ensures
        rle_from(
            t,
            depth,
            cmap_first,
            rle_row_from(row, i, ser) + rest,
            pal,
            bpp,
            (row.len() - i + k) as nat,
        ) == prepend(
            ser_all(row.subrange(i, row.len() as int), outf),
            rle_from(t, depth, cmap_first, rest, pal, bpp, k),
        ),
    decreases row.len() - i,
{
    let n = row.len() as int;
    let tailv = rle_from(t, depth, cmap_first, rest, pal, bpp, k);
    if i == n {
        assert(rle_row_from(row, i, ser) =~= Seq::<u8>::empty());
        assert(Seq::<u8>::empty() + rest =~= rest);
        assert(row.subrange(i, n) =~= Seq::<T>::empty());
        if let Option::Some(v) = tailv {
            assert(Seq::<u8>::empty() + v =~= v);
        }
    } else {
        let r = run_len_from(row, i, 1);
        lemma_run_len_bounds(row, i, 1);
        let rem = (n - i + k) as nat;
        if r >= 2 {
            let px = ser(row[i]);
            let next = rle_row_from(row, i + r, ser) + rest;
            assert(rle_row_from(row, i, ser) + rest =~= seq![(128 + r - 1) as u8] + px + next);
            lemma_rle_run_packet(t, depth, cmap_first, pal, px, outf(row[i]), r, next, bpp, rem);
            lemma_rle_row_decodes(t, depth, cmap_first, pal, row, i + r, ser, outf, bpp, rest, k);
            assert((rem - r) as nat == (n - (i + r) + k) as nat);
            lemma_run_all_equal(row, i, 1);
            lemma_repeat_run(row, i, r as nat, outf);
            assert(row.subrange(i, n) =~= row.subrange(i, i + r) + row.subrange(i + r, n));
            lemma_ser_all_concat(row.subrange(i, i + r), row.subrange(i + r, n), outf);
            lemma_prepend_concat(repeat(outf(row[i]), r as nat), ser_all(row.subrange(i + r, n), outf), tailv);
        } else {
            let e = raw_end_from(row, i, i + 1);
            lemma_raw_end_bounds(row, i, i + 1);
            let c = e - i;
            let sub = row.subrange(i, e);
            let body = ser_all(sub, ser);
            let next = rle_row_from(row, e, ser) + rest;
            assert(rle_row_from(row, i, ser) + rest =~= seq![(c - 1) as u8] + body + next);
            assert(pixels_decode(t, depth, cmap_first, pal, sub, ser, outf, bpp)) by {
                assert forall|j: int| 0 <= j < sub.len() implies (#[trigger] ser(sub[j])).len()
                    == bpp && pixel_out(t, depth, cmap_first, ser(sub[j]), pal)
                    == Option::Some(outf(sub[j])) by {
                    assert(sub[j] == row[i + j]);
                }
            }
            lemma_ser_all_len(sub, ser, bpp);
            lemma_raw_decodes(t, depth, cmap_first, pal, sub, ser, outf, bpp, Seq::<u8>::empty());
            assert(body + Seq::<u8>::empty() =~= body);
            lemma_rle_raw_packet(t, depth, cmap_first, pal, body, ser_all(sub, outf), c, next, bpp, rem);
            lemma_rle_row_decodes(t, depth, cmap_first, pal, row, e, ser, outf, bpp, rest, k);
            assert((rem - c) as nat == (n - e + k) as nat);
            assert(row.subrange(i, n) =~= row.subrange(i, e) + row.subrange(e, n));
            lemma_ser_all_concat(row.subrange(i, e), row.subrange(e, n), outf);
            lemma_prepend_concat(ser_all(sub, outf), ser_all(row.subrange(e, n), outf), tailv);
        }
    }
}


/// Concatenated output bytes of a sequence of rows.
pub open spec fn flat_rows<T>(rows: Seq<Seq<T>>, outf: spec_fn(T) -> Seq<u8>) -> Seq<u8>
    decreases rows.len(),
{
    if rows.len() == 0 {
        Seq::empty()
    } else {
        flat_rows(rows.drop_last(), outf) + ser_all(rows.last(), outf)
    }
}

/// Run-length decoding inverts the packetisation of a sequence of rows.
pub proof fn lemma_rle_rows_decodes<T>(
    t: ImageType,
    depth: u8,
    cmap_first: u16,
    pal: Option<Seq<Seq<u8>>>,
    rows: Seq<Seq<T>>,
    w: nat,
    ser: spec_fn(T) -> Seq<u8>,
    outf: spec_fn(T) -> Seq<u8>,
    bpp: nat,
    rest: Seq<u8>,
    k: nat,
)
    requires
        forall|y: int|
            0 <= y < rows.len() ==> (#[trigger] rows[y]).len() == w && pixels_decode(
                t,
                depth,
                cmap_first,
                pal,
                rows[y],
                ser,
                outf,
                bpp,
            ),
    ensures
        rle_from(
            t,
            depth,
            cmap_first,
            rle_rows(rows, ser) + rest,
            pal,
            bpp,
            rows.len() * w + k,
        ) == prepend(
            flat_rows(rows, outf),
            rle_from(t, depth, cmap_first, rest, pal, bpp, k),
        ),
    decreases rows.len(),
{
    let tailv = rle_from(t, depth, cmap_first, rest, pal, bpp, k);
    if rows.len() == 0 {
        assert(rle_rows(rows, ser) + rest =~= rest);
        assert(rows.len() * w + k == k) by (nonlinear_arith)
            requires
                rows.len() == 0,
        ;
        if let Option::Some(v) = tailv {
            assert(Seq::<u8>::empty() + v =~= v);
        }
    } else {
        let m = rows.len();
        let dl = rows.drop_last();
        let last = rows.last();
        assert(forall|y: int| 0 <= y < dl.len() ==> dl[y] == rows[y]);
        assert(last == rows[m - 1]);
        let rest2 = rle_row(last, ser) + rest;
        lemma_rle_rows_decodes(t, depth, cmap_first, pal, dl, w, ser, outf, bpp, rest2, w + k);
        assert(rle_rows(rows, ser) + rest =~= rle_rows(dl, ser) + rest2);
        assert(dl.len() * w + (w + k) == rows.len() * w + k) by (nonlinear_arith)
            requires
                dl.len() == rows.len() - 1,
        ;
        lemma_rle_row_decodes(t, depth, cmap_first, pal, last, 0, ser, outf, bpp, rest, k);
        assert(last.subrange(0, last.len() as int) =~= last);
        assert((last.len() - 0 + k) as nat == w + k);
        lemma_prepend_concat(flat_rows(dl, outf), ser_all(last, outf), tailv);
    }
}

/// The rows of a grid, flattened, are the pixel stream they were cut from.
pub proof fn lemma_flat_grid<T>(f: spec_fn(int) -> T, w: nat, h: nat, outf: spec_fn(T) -> Seq<u8>)
    ensures
        flat_rows(grid(f, w, h), outf) == ser_all(Seq::new(w * h, f), outf),
    decreases h,
{
    if h == 0 {
        assert(w * h == 0) by (nonlinear_arith)
            requires
                h == 0,
        ;
        assert(Seq::new(w * h, f) =~= Seq::<T>::empty());
    } else {
        let hm = (h - 1) as nat;
        lemma_flat_grid(f, w, hm, outf);
        assert(grid(f, w, h).drop_last() =~= grid(f, w, hm));
        assert(w * h == w * hm + w) by (nonlinear_arith)
            requires
                hm == h - 1,
        ;
        let all = Seq::new(w * h, f);
        let prev = Seq::new(w * hm, f);
        let lastrow = grid(f, w, h).last();
        assert(lastrow =~= all.subrange((w * hm) as int, (w * h) as int)) by {
            assert forall|x: int| 0 <= x < w implies lastrow[x] == all[w * hm + x] by {
                assert(hm * w == w * hm) by (nonlinear_arith);
            }
        }
        assert(all =~= prev + all.subrange((w * hm) as int, (w * h) as int));
        lemma_ser_all_concat(prev, lastrow, outf);
    }
}

/// RGBA bytes of a pixel.
pub open spec fn rgba_of4() -> spec_fn([u8; 4]) -> Seq<u8> {
    |p: [u8; 4]| seq![p[0], p[1], p[2], p[3]]
}

/// The output bytes of the first `n` RGBA pixels are the first `4n` bytes.
pub proof fn lemma_pixels4_flat(s: Seq<u8>, n: nat)
    requires
        4 * n <= s.len(),
    ensures
        ser_all(pixels4(s, n), rgba_of4()) == s.take(4 * n as int),
    decreases n,
{
    if n == 0 {
        assert(s.take(0) =~= Seq::<u8>::empty());
    } else {
        lemma_pixels4_flat(s, (n - 1) as nat);
        assert(pixels4(s, n).drop_last() =~= pixels4(s, (n - 1) as nat));
        assert(s.take(4 * n as int) =~= s.take(4 * (n - 1)) + (rgba_of4())(pixel4(s, n - 1)));
    }
}

/// Pixel decoding facts for the writers' on-wire layouts.
pub proof fn lemma_bgra_decodes(t: ImageType, cmap_first: u16, p: Seq<[u8; 4]>, a: bool)
    requires
        t is UncompressedTrueColour || t is RleTrueColour,
        !a ==> forall|i: int| 0 <= i < p.len() ==> (#[trigger] p[i])[3] == 255,
    ensures
        pixels_decode(
            t,
            if a {
                32u8
            } else {
                24u8
            },
            cmap_first,
            Option::None,
            p,
            ser_bgra(a),
            rgba_of4(),
            if a {
                4nat
            } else {
                3nat
            },
        ),
{
    let depth: u8 = if a { 32 } else { 24 };
    assert forall|i: int| 0 <= i < p.len() implies (#[trigger] (ser_bgra(a))(p[i])).len() == (if a {
        4nat
    } else {
        3nat
    }) && pixel_out(t, depth, cmap_first, (ser_bgra(a))(p[i]), Option::None) == Option::Some(
        (rgba_of4())(p[i]),
    ) by {
        let q = p[i];
        if a {
            assert((ser_bgra(a))(q) =~= seq![q[2], q[1], q[0], q[3]]);
        } else {
            assert((ser_bgra(a))(q) =~= seq![q[2], q[1], q[0]]);
            assert(q[3] == 255);
        }
        assert(pixel_out(t, depth, cmap_first, (ser_bgra(a))(q), Option::None).unwrap() =~= (
        rgba_of4())(q));
    }
}

/// A run-length or uncompressed true-colour header parses back to its fields
/// with no palette and the pixel data right after it.
pub proof fn lemma_written_prefix(hd: TgaHeader, t: ImageType, body: Seq<u8>)
    requires
        hd.id_length == 0,
        hd.cmap_type == 0,
        hd.image_type_raw == t.as_u8(),
        !t.is_colour_mapped(),
    ensures
        crate::types::spec_parse_header(hd.spec_bytes() + body) == Option::Some(hd),
        crate::decode_spec::spec_read_palette(hd.spec_bytes() + body, hd, t) == Ok::<
            (Option<Seq<Seq<u8>>>, nat),
            crate::error::TgaErrorKind,
        >((Option::None, 18nat)),
        (hd.spec_bytes() + body).skip(18) == body,
        crate::types::image_type_of(hd.image_type_raw) == Option::Some(t),
{
    lemma_header_roundtrip(hd, body);
    lemma_image_type_roundtrip(t);
    assert((hd.spec_bytes() + body).skip(18) =~= body);
}

/// Law: `parse_tga` gives back exactly the first `width × height` RGBA
/// pixels that `encode_tga_uncompressed` (`rle == false`) or
/// `encode_tga_rle` (`rle == true`) wrote, for every non-empty image.
pub proof fn law_truecolour_roundtrip(width: u16, height: u16, rgba: Seq<u8>, rle: bool)
    requires
        width > 0,
        height > 0,
        rgba.len() % 4 == 0,
        rgba.len() >= (width as int) * (height as int) * 4,
    ensures
        spec_encode_truecolour(width, height, rgba, rle) matches Ok(bytes) && spec_parse_tga(bytes)
            == Ok::<ImageModel, crate::error::TgaErrorKind>(
            ImageModel {
                width: width as u32,
                height: height as u32,
                pixel_format: TgaPixelFormat::Rgba,
                data: rgba.take((width as int) * (height as int) * 4),
            },
        ),
{
    let w = width as nat;
    let h = height as nat;
    let n = (width * height) as nat;
    assert(n == w * h);
    let a = has_translucent(rgba);
    let t = if rle { ImageType::RleTrueColour } else { ImageType::UncompressedTrueColour };
    let hd = truecolour_header(t, width, height, a);
    let depth: u8 = if a { 32 } else { 24 };
    let bpp: nat = if a { 4 } else { 3 };
    assert(depth_bytes(depth) == bpp);
    let pix = pixels4(rgba, n);
    assert(4 * n <= rgba.len());
    assert(!a ==> forall|i: int| 0 <= i < pix.len() ==> (#[trigger] pix[i])[3] == 255) by {
        if !a {
            assert forall|i: int| 0 <= i < pix.len() implies (#[trigger] pix[i])[3] == 255 by {
                assert(0 <= i < rgba.len() / 4);
                assert(rgba[4 * i + 3] == 255);
            }
        }
    }
    lemma_bgra_decodes(t, 0, pix, a);
    lemma_pixels4_flat(rgba, n);
    let body = if rle {
        crate::rle_spec::rle_rows(rgba_rows(rgba, w, h), ser_bgra(a))
    } else {
        ser_all(pix, ser_bgra(a))
    };
    let bytes = hd.spec_bytes() + body;
    assert(spec_encode_truecolour(width, height, rgba, rle) == Ok::<Seq<u8>, crate::error::TgaErrorKind>(bytes));
    lemma_written_prefix(hd, t, body);
    assert((hd.descriptor & 0x20) != 0 && (hd.descriptor & 0x10) == 0) by {
        let d = hd.descriptor;
        assert(d == 0x28 || d == 0x20);
        assert(d == 0x28 ==> (d & 0x20) != 0 && (d & 0x10) == 0) by (bit_vector);
        assert(d == 0x20 ==> (d & 0x20) != 0 && (d & 0x10) == 0) by (bit_vector);
    }
    let px = ser_all(pix, rgba_of4());
    if rle {
        let rows = rgba_rows(rgba, w, h);
        assert forall|y: int| 0 <= y < rows.len() implies (#[trigger] rows[y]).len() == w
            && pixels_decode(t, depth, 0, Option::None, rows[y], ser_bgra(a), rgba_of4(), bpp) by {
            let row = rows[y];
            assert forall|x: int| 0 <= x < row.len() implies (#[trigger] row[x])[3] == 255 || a by {
                if !a {
                    lemma_src_index_bound_local(y, x, w as int, h as int);
                    assert(row[x] == pix[y * w + x]);
                }
            }
            lemma_bgra_decodes(t, 0, row, a);
        }
        lemma_rle_rows_decodes(t, depth, 0, Option::None, rows, w, ser_bgra(a), rgba_of4(), bpp, Seq::<u8>::empty(), 0);
        assert(body + Seq::<u8>::empty() =~= body);
        lemma_flat_grid(|k: int| pixel4(rgba, k), w, h, rgba_of4());
        assert(Seq::new(w * h, |k: int| pixel4(rgba, k)) =~= pix);
        assert(rows.len() * w + 0 == n) by (nonlinear_arith)
            requires
                rows.len() == h,
                n == w * h,
        ;
        assert(flat_rows(rows, rgba_of4()) + Seq::<u8>::empty() =~= px);
    } else {
        lemma_raw_decodes(t, depth, 0, Option::None, pix, ser_bgra(a), rgba_of4(), bpp, Seq::<u8>::empty());
        assert(body + Seq::<u8>::empty() =~= body);
        assert forall|i: int| 0 <= i < pix.len() implies (#[trigger] (ser_bgra(a))(pix[i])).len() == bpp by {}
        lemma_ser_all_len(pix, ser_bgra(a), bpp);
        assert(body.len() == n * bpp);
    }
    assert(px.len() == w * h * 4) by {
        assert(w * h * 4 == 4 * n) by (nonlinear_arith) requires n == w * h;
    }
    lemma_reorder_identity(px, w, h, 4);
}

/// Index of pixel `(x, y)` lies inside a `w × h` image.
proof fn lemma_src_index_bound_local(y: int, x: int, w: int, h: int)
    requires
        0 <= y < h,
        0 <= x < w,
    ensures
        0 <= y * w + x < w * h,
{
    crate::decode_spec::lemma_src_index_bound(y, x, 0, w, h, 1);
}


/// Law: `parse_tga` gives back exactly the first `width × height` luma
/// samples that `encode_tga_grayscale` (`rle == false`) or
/// `encode_tga_grayscale_rle` (`rle == true`) wrote, for every non-empty
/// image, as a Gray8 image.
pub proof fn law_grayscale_roundtrip(width: u16, height: u16, gray: Seq<u8>, rle: bool)
    requires
        width > 0,
        height > 0,
        gray.len() >= (width as int) * (height as int),
    ensures
        spec_encode_grayscale(width, height, gray, rle) matches Ok(bytes) && spec_parse_tga(bytes)
            == Ok::<ImageModel, crate::error::TgaErrorKind>(
            ImageModel {
                width: width as u32,
                height: height as u32,
                pixel_format: TgaPixelFormat::Gray8,
                data: gray.take((width as int) * (height as int)),
            },
        ),
{
    let w = width as nat;
    let h = height as nat;
    let n = (width * height) as nat;
    assert(n == w * h);
    let t = if rle { ImageType::RleGrayscale } else { ImageType::UncompressedGrayscale };
    let hd = written_header(t, 0, 0, 0, width, height, 8, 0x20);
    let px = gray.take(n as int);
    let body = if rle {
        crate::rle_spec::rle_rows(byte_rows(gray, w, h), ser_byte())
    } else {
        px
    };
    let bytes = hd.spec_bytes() + body;
    assert(spec_encode_grayscale(width, height, gray, rle) == Ok::<Seq<u8>, crate::error::TgaErrorKind>(bytes));
    lemma_written_prefix(hd, t, body);
    assert((0x20u8 & 0x20u8) != 0 && (0x20u8 & 0x10u8) == 0) by (bit_vector);
    assert(depth_bytes(8) == 1);
    assert forall|p: Seq<u8>| #![trigger p.len()] true implies pixels_decode(t, 8, 0, Option::None, p, ser_byte(), ser_byte(), 1) by {
        assert forall|i: int| 0 <= i < p.len() implies (#[trigger] (ser_byte())(p[i])).len() == 1
            && pixel_out(t, 8, 0, (ser_byte())(p[i]), Option::None) == Option::Some((ser_byte())(p[i])) by {
            assert(pixel_out(t, 8, 0, (ser_byte())(p[i]), Option::None).unwrap() =~= (ser_byte())(p[i]));
        }
    }
    crate::rle_encode::lemma_ser_all_bytes(px);
    if rle {
        let rows = byte_rows(gray, w, h);
        assert forall|y: int| 0 <= y < rows.len() implies (#[trigger] rows[y]).len() == w
            && pixels_decode(t, 8, 0, Option::None, rows[y], ser_byte(), ser_byte(), 1) by {
            assert(rows[y].len() == w);
        }
        lemma_rle_rows_decodes(t, 8, 0, Option::None, rows, w, ser_byte(), ser_byte(), 1, Seq::<u8>::empty(), 0);
        assert(body + Seq::<u8>::empty() =~= body);
        lemma_flat_grid(|k: int| gray[k], w, h, ser_byte());
        assert(Seq::new(w * h, |k: int| gray[k]) =~= px);
        assert(rows.len() * w + 0 == n) by (nonlinear_arith)
            requires
                rows.len() == h,
                n == w * h,
        ;
        assert(flat_rows(rows, ser_byte()) + Seq::<u8>::empty() =~= px);
    } else {
        assert(ser_all(px, ser_byte()) + Seq::<u8>::empty() =~= body);
        lemma_raw_decodes(t, 8, 0, Option::None, px, ser_byte(), ser_byte(), 1, Seq::<u8>::empty());
        assert(body.len() == n * 1);
    }
    assert(px.len() == w * h * 1);
    lemma_reorder_identity(px, w, h, 1);
}

/// Law: `parse_tga` gives back the first `width × height` RGB pixels that
/// `encode_tga_uncompressed_rgb24` (`rle == false`) or
/// `encode_tga_rle_rgb24` (`rle == true`) wrote, each widened to RGBA with
/// alpha `0xFF`, for every non-empty image.
pub proof fn law_rgb24_roundtrip(width: u16, height: u16, rgb: Seq<u8>, rle: bool)
    requires
        width > 0,
        height > 0,
        rgb.len() % 3 == 0,
        rgb.len() >= (width as int) * (height as int) * 3,
    ensures
        spec_encode_rgb24(width, height, rgb, rle) matches Ok(bytes) && spec_parse_tga(bytes)
            == Ok::<ImageModel, crate::error::TgaErrorKind>(
            ImageModel {
                width: width as u32,
                height: height as u32,
                pixel_format: TgaPixelFormat::Rgba,
                data: ser_all(pixels3(rgb, (width * height) as nat), rgb_to_rgba()),
            },
        ),
{
    let w = width as nat;
    let h = height as nat;
    let n = (width * height) as nat;
    assert(n == w * h);
    let t = if rle { ImageType::RleTrueColour } else { ImageType::UncompressedTrueColour };
    let hd = truecolour_header(t, width, height, false);
    let pix = pixels3(rgb, n);
    let body = if rle {
        crate::rle_spec::rle_rows(rgb_rows(rgb, w, h), ser_bgr())
    } else {
        ser_all(pix, ser_bgr())
    };
    let bytes = hd.spec_bytes() + body;
    assert(spec_encode_rgb24(width, height, rgb, rle) == Ok::<Seq<u8>, crate::error::TgaErrorKind>(bytes));
    lemma_written_prefix(hd, t, body);
    assert((0x20u8 & 0x20u8) != 0 && (0x20u8 & 0x10u8) == 0) by (bit_vector);
    assert(depth_bytes(24) == 3);
    assert forall|p: Seq<[u8; 3]>| #![trigger p.len()] true implies pixels_decode(t, 24, 0, Option::None, p, ser_bgr(), rgb_to_rgba(), 3) by {
        assert forall|i: int| 0 <= i < p.len() implies (#[trigger] (ser_bgr())(p[i])).len() == 3
            && pixel_out(t, 24, 0, (ser_bgr())(p[i]), Option::None) == Option::Some((rgb_to_rgba())(p[i])) by {
            let q = p[i];
            assert((ser_bgr())(q) =~= seq![q[2], q[1], q[0]]);
            assert(pixel_out(t, 24, 0, (ser_bgr())(q), Option::None).unwrap() =~= (rgb_to_rgba())(q));
        }
    }
    let px = ser_all(pix, rgb_to_rgba());
    if rle {
        let rows = rgb_rows(rgb, w, h);
        assert forall|y: int| 0 <= y < rows.len() implies (#[trigger] rows[y]).len() == w
            && pixels_decode(t, 24, 0, Option::None, rows[y], ser_bgr(), rgb_to_rgba(), 3) by {
            assert(rows[y].len() == w);
        }
        lemma_rle_rows_decodes(t, 24, 0, Option::None, rows, w, ser_bgr(), rgb_to_rgba(), 3, Seq::<u8>::empty(), 0);
        assert(body + Seq::<u8>::empty() =~= body);
        lemma_flat_grid(|k: int| pixel3(rgb, k), w, h, rgb_to_rgba());
        assert(Seq::new(w * h, |k: int| pixel3(rgb, k)) =~= pix);
        assert(rows.len() * w + 0 == n) by (nonlinear_arith)
            requires
                rows.len() == h,
                n == w * h,
        ;
        assert(flat_rows(rows, rgb_to_rgba()) + Seq::<u8>::empty() =~= px);
    } else {
        lemma_raw_decodes(t, 24, 0, Option::None, pix, ser_bgr(), rgb_to_rgba(), 3, Seq::<u8>::empty());
        assert(body + Seq::<u8>::empty() =~= body);
        assert forall|i: int| 0 <= i < pix.len() implies (#[trigger] (ser_bgr())(pix[i])).len() == 3 by {}
        lemma_ser_all_len(pix, ser_bgr(), 3);
    }
    assert forall|i: int| 0 <= i < pix.len() implies (#[trigger] (rgb_to_rgba())(pix[i])).len() == 4 by {}
    lemma_ser_all_len(pix, rgb_to_rgba(), 4);
    assert(px.len() == w * h * 4) by {
        assert(w * h * 4 == n * 4) by (nonlinear_arith) requires n == w * h;
    }
    lemma_reorder_identity(px, w, h, 4);
}


/// Pixel `i` of a uniformly serialised sequence sits at byte `i * k`.
pub proof fn lemma_ser_all_index<T>(s: Seq<T>, ser: spec_fn(T) -> Seq<u8>, k: nat, i: int)
    requires
        forall|j: int| 0 <= j < s.len() ==> (#[trigger] ser(s[j])).len() == k,
        0 <= i < s.len(),
    ensures
        ser_all(s, ser).subrange(i * k, i * k + k) == ser(s[i]),
    decreases s.len(),
{
    let dl = s.drop_last();
    assert(forall|j: int| 0 <= j < dl.len() ==> dl[j] == s[j]);
    lemma_ser_all_len(dl, ser, k);
    if i < s.len() - 1 {
        lemma_ser_all_index(dl, ser, k, i);
        assert(i * k + k <= dl.len() * k) by (nonlinear_arith)
            requires
                i < dl.len(),
        ;
        assert(ser_all(s, ser).subrange(i * k, i * k + k) =~= ser_all(dl, ser).subrange(i * k, i * k + k));
    } else {
        assert(i * k == dl.len() * k);
        assert(ser_all(s, ser).subrange(i * k, i * k + k) =~= ser(s.last()));
    }
}

/// Serialisations that agree pixel by pixel agree.
pub proof fn lemma_ser_all_pointwise<A, B>(
    a: Seq<A>,
    f: spec_fn(A) -> Seq<u8>,
    b: Seq<B>,
    g: spec_fn(B) -> Seq<u8>,
)
    requires
        a.len() == b.len(),
        forall|k: int| 0 <= k < a.len() ==> f(#[trigger] a[k]) == g(b[k]),
    ensures
        ser_all(a, f) == ser_all(b, g),
    decreases a.len(),
{
    if a.len() > 0 {
        let da = a.drop_last();
        let db = b.drop_last();
        assert forall|k: int| 0 <= k < da.len() implies f(#[trigger] da[k]) == g(db[k]) by {
            assert(da[k] == a[k] && db[k] == b[k]);
        }
        lemma_ser_all_pointwise(da, f, db, g);
        assert(f(a.last()) == g(b.last())) by {
            assert(a.last() == a[a.len() - 1]);
        }
    }
}

/// A channel as a 5-bit colour-map entry keeps it: its top five bits,
/// widened back to eight.
pub open spec fn widen5(v: u8) -> u8 {
    crate::decode_spec::expand5_spec((v / 8) as int)
}

/// The RGBA colour the decoder gives back for a colour `c` stored in a
/// colour-map entry of size `e`: 32-bit entries keep it, 24-bit entries
/// make it opaque, 15-bit entries keep five bits per channel and make it
/// opaque, 16-bit entries keep five bits per channel and one alpha bit.
#[verifier::opaque]
pub open spec fn entry_decoded(e: ColorMapEntrySize, c: [u8; 4]) -> [u8; 4] {
    match e {
        ColorMapEntrySize::Bits32 => c,
        ColorMapEntrySize::Bits24 => [c[0], c[1], c[2], 255],
        ColorMapEntrySize::Bits15 => [widen5(c[0]), widen5(c[1]), widen5(c[2]), 255],
        ColorMapEntrySize::Bits16 => [
            widen5(c[0]),
            widen5(c[1]),
            widen5(c[2]),
            if c[3] >= 128 {
                255
            } else {
                0
            },
        ],
    }
}

/// The RGBA bytes of a colour after a trip through an entry of size `e`.
pub open spec fn decoded_bytes(e: ColorMapEntrySize) -> spec_fn([u8; 4]) -> Seq<u8> {
    |c: [u8; 4]| (rgba_of4())(entry_decoded(e, c))
}

/// The 5-5-5 packing splits back into its channels.
proof fn lemma_pack555_fields(c: [u8; 4], a: bool)
    ensures
        ({
            let v = crate::encode_spec::pack555(c, a);
            &&& (v / 1024) % 32 == c[0] / 8
            &&& (v / 32) % 32 == c[1] / 8
            &&& v % 32 == c[2] / 8
            &&& (v >= 32768) == (a && c[3] >= 128)
        }),
{
    let r = (c[0] / 8) as int;
    let g = (c[1] / 8) as int;
    let b = (c[2] / 8) as int;
    let t: int = if a && c[3] >= 128 { 32768 } else { 0 };
    let v = r * 1024 + g * 32 + b + t;
    assert(0 <= v < 65536);
    assert((v / 1024) % 32 == r && (v / 32) % 32 == g && v % 32 == b && (v >= 32768) == (t == 32768))
        by (nonlinear_arith)
        requires
            0 <= r < 32,
            0 <= g < 32,
            0 <= b < 32,
            t == 0 || t == 32768,
            v == r * 1024 + g * 32 + b + t,
    ;
}

/// One colour-map entry decodes to the entry-size's view of its colour.
proof fn lemma_entry_decodes(e: ColorMapEntrySize, c: [u8; 4])
    ensures
        palette_entry((entry_ser(e))(c), 0, e.bits()) == (decoded_bytes(e))(c),
        (entry_ser(e))(c).len() == e.bytes(),
{
    let b = (entry_ser(e))(c);
    reveal(entry_decoded);
    match e {
        ColorMapEntrySize::Bits15 | ColorMapEntrySize::Bits16 => {
            let a = e is Bits16;
            let v = crate::encode_spec::pack555(c, a);
            crate::types::lemma_u16_roundtrip(v);
            assert(crate::types::le_u16(b[0], b[1]) == v);
            lemma_pack555_fields(c, a);
            assert(palette_entry(b, 0, e.bits()) =~= (decoded_bytes(e))(c));
        },
        _ => {
            assert(palette_entry(b, 0, e.bits()) =~= (decoded_bytes(e))(c));
        },
    }
}

/// A colour map written with entries of size `e` decodes to each colour's
/// view through that entry size.
proof fn lemma_cmap_decodes(pal: Seq<[u8; 4]>, e: ColorMapEntrySize)
    requires
        pal.len() > 0,
    ensures
        ({
            let cm = ser_all(pal, entry_ser(e));
            let eb = depth_bytes(e.bits());
            &&& eb == e.bytes()
            &&& cm.len() == pal.len() * eb
            &&& palette_of(cm, e.bits()) == Seq::new(pal.len(), |i: int| (decoded_bytes(e))(pal[i]))
        }),
{
    let cm = ser_all(pal, entry_ser(e));
    let eb = e.bytes() as nat;
    assert(depth_bytes(e.bits()) == eb);
    assert forall|j: int| 0 <= j < pal.len() implies (#[trigger] (entry_ser(e))(pal[j])).len() == eb by {
        lemma_entry_decodes(e, pal[j]);
    }
    lemma_ser_all_len(pal, entry_ser(e), eb);
    assert(cm.len() / eb == pal.len()) by {
        vstd::arithmetic::div_mod::lemma_fundamental_div_mod_converse(cm.len() as int, eb as int, pal.len() as int, 0);
        assert(pal.len() * eb == eb * pal.len()) by (nonlinear_arith);
    }
    assert forall|i: int| 0 <= i < pal.len() implies #[trigger] palette_entry(cm, i * eb, e.bits())
        == (decoded_bytes(e))(pal[i]) by {
        lemma_ser_all_index(pal, entry_ser(e), eb, i);
        let c = pal[i];
        assert(0 <= i * eb && i * eb + eb <= pal.len() * eb) by (nonlinear_arith)
            requires
                0 <= i < pal.len(),
        ;
        let sub = cm.subrange(i * eb, i * eb + eb);
        assert(sub == (entry_ser(e))(c));
        lemma_entry_decodes(e, c);
        assert(cm[i * eb] == sub[0]);
        assert(cm[i * eb + 1] == sub[1]);
        if eb >= 3 {
            assert(cm[i * eb + 2] == sub[2]);
        }
        if eb == 4 {
            assert(cm[i * eb + 3] == sub[3]);
        }
        assert(palette_entry(cm, i * eb, e.bits()) =~= palette_entry(sub, 0, e.bits()));
    }
    assert(palette_of(cm, e.bits()) =~= Seq::new(pal.len(), |i: int| (decoded_bytes(e))(pal[i])));
}

/// The decoded colour map of a palette written with entries of size `e`.
pub open spec fn decoded_palette(pal: Seq<[u8; 4]>, e: ColorMapEntrySize) -> Seq<Seq<u8>> {
    Seq::new(pal.len(), |i: int| (decoded_bytes(e))(pal[i]))
}

/// The header and colour map a colour-mapped writer emits read back: the
/// palette is each colour's decoded entry, and the pixel data follows.
pub proof fn lemma_palette_file_prefix(
    t: ImageType,
    pal: Seq<[u8; 4]>,
    e: ColorMapEntrySize,
    width: u16,
    height: u16,
    body: Seq<u8>,
)
    requires
        t is UncompressedColourMapped || t is RleColourMapped,
        0 < pal.len() <= 256,
    ensures
        ({
            let hd = written_header(t, 1, pal.len() as u16, e.bits(), width, height, 8, 0x20);
            let bytes = hd.spec_bytes() + ser_all(pal, entry_ser(e)) + body;
            let cursor = 18 + pal.len() * depth_bytes(e.bits());
            &&& crate::types::spec_parse_header(bytes) == Option::Some(hd)
            &&& crate::types::image_type_of(hd.image_type_raw) == Option::Some(t)
            &&& crate::decode_spec::spec_read_palette(bytes, hd, t) == Ok::<
                (Option<Seq<Seq<u8>>>, nat),
                crate::error::TgaErrorKind,
            >((Option::Some(decoded_palette(pal, e)), cursor as nat))
            &&& bytes.skip(cursor as int) == body
        }),
{
    let hd = written_header(t, 1, pal.len() as u16, e.bits(), width, height, 8, 0x20);
    let cm = ser_all(pal, entry_ser(e));
    let bytes = hd.spec_bytes() + cm + body;
    lemma_cmap_decodes(pal, e);
    let eb = depth_bytes(e.bits());
    lemma_header_roundtrip(hd, cm + body);
    assert(bytes =~= hd.spec_bytes() + (cm + body));
    lemma_image_type_roundtrip(t);
    assert(bytes.subrange(18, (18 + pal.len() * eb) as int) =~= cm);
    assert(pal.len() as u16 == pal.len());
    assert(bytes.skip((18 + pal.len() * eb) as int) =~= body);
}

/// The pixel indices a colour-mapped writer emits decode to each pixel's
/// decoded entry.
#[verifier::rlimit(40)]
proof fn lemma_palette_body(t: ImageType, pix: Seq<[u8; 4]>, e: ColorMapEntrySize, w: nat, h: nat)
    requires
        t is UncompressedColourMapped || t is RleColourMapped,
        w > 0,
        h > 0,
        pix.len() == w * h,
        palette_build(pix).len() <= 256,
    ensures
        ({
            let idx = palette_indices(pix);
            let body = if t.is_rle() {
                rle_rows(grid(|k: int| idx[k], w, h), ser_byte())
            } else {
                idx
            };
            crate::decode_spec::decode_body(
                t,
                8,
                0,
                body,
                Option::Some(decoded_palette(palette_build(pix), e)),
                w * h,
            ) == Option::Some(ser_all(pix, decoded_bytes(e)))
        }),
{
    let n = w * h;
    let pal = palette_build(pix);
    lemma_palette_props(pix);
    let idx = palette_indices(pix);
    let ptab = decoded_palette(pal, e);
    let body = if t.is_rle() { rle_rows(grid(|k: int| idx[k], w, h), ser_byte()) } else { idx };
    assert(depth_bytes(8) == 1);
    let outf = |b: u8| ptab[b as int];
    assert forall|q: Seq<u8>| #![trigger q.len()] (forall|k: int| 0 <= k < q.len() ==> (#[trigger] q[k]) < pal.len())
        implies pixels_decode(t, 8, 0, Option::Some(ptab), q, ser_byte(), outf, 1) by {
        assert forall|k: int| 0 <= k < q.len() implies (#[trigger] (ser_byte())(q[k])).len() == 1
            && pixel_out(t, 8, 0, (ser_byte())(q[k]), Option::Some(ptab)) == Option::Some(outf(q[k])) by {
            assert(q[k] < pal.len());
        }
    }
    assert forall|k: int| 0 <= k < idx.len() implies (#[trigger] idx[k]) < pal.len()
        && outf(idx[k]) == (decoded_bytes(e))(pix[k]) by {
        assert(pal.contains(pix[k]));
        let i0 = choose|i: int| 0 <= i < pal.len() && pal[i] == pix[k];
        lemma_pal_index_unique(pal, pix[k], i0);
        assert(idx[k] == i0 as u8);
    }
    lemma_ser_all_pointwise(idx, outf, pix, decoded_bytes(e));
    let px = ser_all(pix, decoded_bytes(e));
    if t.is_rle() {
        let rows = grid(|k: int| idx[k], w, h);
        assert forall|y: int| 0 <= y < rows.len() implies (#[trigger] rows[y]).len() == w
            && pixels_decode(t, 8, 0, Option::Some(ptab), rows[y], ser_byte(), outf, 1) by {
            let row = rows[y];
            assert forall|x: int| 0 <= x < row.len() implies (#[trigger] row[x]) < pal.len() by {
                lemma_src_index_bound_local(y, x, w as int, h as int);
                assert(row[x] == idx[y * w + x]);
            }
        }
        lemma_rle_rows_decodes(t, 8, 0, Option::Some(ptab), rows, w, ser_byte(), outf, 1, Seq::<u8>::empty(), 0);
        assert(body + Seq::<u8>::empty() =~= body);
        lemma_flat_grid(|k: int| idx[k], w, h, outf);
        assert(Seq::new(w * h, |k: int| idx[k]) =~= idx);
        assert(rows.len() * w + 0 == n) by (nonlinear_arith)
            requires
                rows.len() == h,
                n == w * h,
        ;
        assert(flat_rows(rows, outf) + Seq::<u8>::empty() =~= px);
    } else {
        crate::rle_encode::lemma_ser_all_bytes(idx);
        assert(ser_all(idx, ser_byte()) + Seq::<u8>::empty() =~= body);
        lemma_raw_decodes(t, 8, 0, Option::Some(ptab), idx, ser_byte(), outf, 1, Seq::<u8>::empty());
        assert(body.len() == n * 1);
    }
}

/// Law: `parse_tga` gives back what a colour-mapped writer with entry size
/// `e` (`encode_tga_palette_with_entry_size`, uncompressed for
/// `rle == false`, run-length encoded for `rle == true`) wrote, for every
/// non-empty image of at most 256 distinct colours: each of the first
/// `width × height` pixels as an entry of size `e` keeps it (see
/// [`entry_decoded`]).
pub proof fn law_palette_entry_roundtrip(width: u16, height: u16, rgba: Seq<u8>, rle: bool, e: ColorMapEntrySize)
    requires
        width > 0,
        height > 0,
        rgba.len() % 4 == 0,
        rgba.len() >= (width as int) * (height as int) * 4,
        palette_build(pixels4(rgba, (width * height) as nat)).len() <= 256,
    ensures
        spec_encode_palette(
            width,
            height,
            rgba,
            if rle {
                ImageType::RleColourMapped
            } else {
                ImageType::UncompressedColourMapped
            },
            Option::Some(e),
        ) matches Ok(bytes) && spec_parse_tga(bytes) == Ok::<ImageModel, crate::error::TgaErrorKind>(
            ImageModel {
                width: width as u32,
                height: height as u32,
                pixel_format: TgaPixelFormat::Rgba,
                data: ser_all(pixels4(rgba, (width * height) as nat), decoded_bytes(e)),
            },
        ),
{
    let w = width as nat;
    let h = height as nat;
    let n = (width * height) as nat;
    assert(n == w * h);
    assert(n >= 1) by (nonlinear_arith) requires n == w * h, w >= 1, h >= 1;
    let t = if rle { ImageType::RleColourMapped } else { ImageType::UncompressedColourMapped };
    let pix = pixels4(rgba, n);
    let pal = palette_build(pix);
    lemma_palette_props(pix);
    assert(pal.len() > 0) by {
        assert(pal.contains(pix[0]));
    }
    let idx = palette_indices(pix);
    let hd = written_header(t, 1, pal.len() as u16, e.bits(), width, height, 8, 0x20);
    let body = if rle { rle_rows(grid(|k: int| idx[k], w, h), ser_byte()) } else { idx };
    let bytes = hd.spec_bytes() + ser_all(pal, entry_ser(e)) + body;
    assert(spec_encode_palette(width, height, rgba, t, Option::Some(e)) == Ok::<Seq<u8>, crate::error::TgaErrorKind>(bytes));
    lemma_palette_file_prefix(t, pal, e, width, height, body);
    lemma_palette_body(t, pix, e, w, h);
    assert((0x20u8 & 0x20u8) != 0 && (0x20u8 & 0x10u8) == 0) by (bit_vector);
    let px = ser_all(pix, decoded_bytes(e));
    assert(px.len() == w * h * 4) by {
        assert forall|j: int| 0 <= j < pix.len() implies (#[trigger] (decoded_bytes(e))(pix[j])).len() == 4 by {}
        lemma_ser_all_len(pix, decoded_bytes(e), 4);
        assert(w * h * 4 == 4 * n) by (nonlinear_arith) requires n == w * h;
    }
    lemma_reorder_identity(px, w, h, 4);
}

/// Law: `parse_tga` gives back exactly the first `width × height` RGBA
/// pixels that `encode_tga_palette` (`rle == false`) or
/// `encode_tga_palette_rle` (`rle == true`) wrote, for every non-empty
/// image of at most 256 distinct colours (the entry size is chosen
/// lossless).
pub proof fn law_palette_roundtrip(width: u16, height: u16, rgba: Seq<u8>, rle: bool)
    requires
        width > 0,
        height > 0,
        rgba.len() % 4 == 0,
        rgba.len() >= (width as int) * (height as int) * 4,
        palette_build(pixels4(rgba, (width * height) as nat)).len() <= 256,
    ensures
        spec_encode_palette(
            width,
            height,
            rgba,
            if rle {
                ImageType::RleColourMapped
            } else {
                ImageType::UncompressedColourMapped
            },
            Option::None,
        ) matches Ok(bytes) && spec_parse_tga(bytes) == Ok::<ImageModel, crate::error::TgaErrorKind>(
            ImageModel {
                width: width as u32,
                height: height as u32,
                pixel_format: TgaPixelFormat::Rgba,
                data: rgba.take((width as int) * (height as int) * 4),
            },
        ),
{
    let n = (width * height) as nat;
    let t = if rle { ImageType::RleColourMapped } else { ImageType::UncompressedColourMapped };
    let pix = pixels4(rgba, n);
    let pal = palette_build(pix);
    let e = lossless_entry(pal);
    assert(spec_encode_palette(width, height, rgba, t, Option::None) == spec_encode_palette(
        width,
        height,
        rgba,
        t,
        Option::Some(e),
    ));
    law_palette_entry_roundtrip(width, height, rgba, rle, e);
    lemma_palette_props(pix);
    assert forall|k: int| 0 <= k < pix.len() implies (decoded_bytes(e))(#[trigger] pix[k]) == (
    rgba_of4())(pix[k]) by {
        reveal(entry_decoded);
        if e is Bits24 {
            let c = pix[k];
            assert(pal.contains(c));
            let j = choose|j: int| 0 <= j < pal.len() && pal[j] == c;
            assert(pal[j][3] == 255);
        }
        assert((decoded_bytes(e))(pix[k]) =~= (rgba_of4())(pix[k]));
    }
    lemma_ser_all_pointwise(pix, decoded_bytes(e), pix, rgba_of4());
    assert(4 * n <= rgba.len()) by {
        assert((width as int) * (height as int) * 4 == 4 * n);
    }
    lemma_pixels4_flat(rgba, n);
}


/// Law: `spec_to_rgba`, the conversion `encode_tga_uncompressed_image` and
/// `encode_tga_rle_image` apply, keeps RGBA data and widens every complete
/// RGB24 pixel to `[r, g, b, 0xFF]` and every Gray8 sample `g` to
/// `[g, g, g, 0xFF]`, pixel for pixel.
pub proof fn law_widened_pixels(f: TgaPixelFormat, d: Seq<u8>)
    ensures
        f is Rgba ==> spec_to_rgba(f, d) == d,
        f is Rgb24 ==> {
            let w = spec_to_rgba(f, d);
            &&& w.len() == 4 * (d.len() / 3)
            &&& forall|k: int|
                0 <= k < d.len() / 3 ==> #[trigger] pixel4(w, k) == [
                    d[3 * k],
                    d[3 * k + 1],
                    d[3 * k + 2],
                    255u8,
                ]
        },
        f is Gray8 ==> {
            let w = spec_to_rgba(f, d);
            &&& w.len() == 4 * d.len()
            &&& forall|k: int| 0 <= k < d.len() ==> #[trigger] pixel4(w, k) == [d[k], d[k], d[k], 255u8]
        },
{
    if f is Rgb24 {
        let m = d.len() / 3;
        let p = pixels3(d, m);
        let w = spec_to_rgba(f, d);
        assert forall|j: int| 0 <= j < p.len() implies (#[trigger] (rgb_to_rgba())(p[j])).len() == 4 by {}
        lemma_ser_all_len(p, rgb_to_rgba(), 4);
        assert forall|k: int| 0 <= k < m implies #[trigger] pixel4(w, k) == [
            d[3 * k],
            d[3 * k + 1],
            d[3 * k + 2],
            255u8,
        ] by {
            lemma_ser_all_index(p, rgb_to_rgba(), 4, k);
            let q = w.subrange(k * 4, k * 4 + 4);
            assert(q == (rgb_to_rgba())(p[k]));
            assert(w[4 * k] == q[0] && w[4 * k + 1] == q[1] && w[4 * k + 2] == q[2] && w[4 * k + 3]
                == q[3]);
        }
    } else if f is Gray8 {
        let w = spec_to_rgba(f, d);
        assert forall|j: int| 0 <= j < d.len() implies (#[trigger] (gray_to_rgba())(d[j])).len() == 4 by {}
        lemma_ser_all_len(d, gray_to_rgba(), 4);
        assert forall|k: int| 0 <= k < d.len() implies #[trigger] pixel4(w, k) == [
            d[k],
            d[k],
            d[k],
            255u8,
        ] by {
            lemma_ser_all_index(d, gray_to_rgba(), 4, k);
            let q = w.subrange(k * 4, k * 4 + 4);
            assert(q == (gray_to_rgba())(d[k]));
            assert(w[4 * k] == q[0] && w[4 * k + 1] == q[1] && w[4 * k + 2] == q[2] && w[4 * k + 3]
                == q[3]);
        }
    }
}

/// Law: an RGB24 or Gray8 image widened by `spec_to_rgba` is opaque, so
/// the true-colour writers store it at 24 bits per pixel.
pub proof fn law_widened_image_is_opaque(f: TgaPixelFormat, d: Seq<u8>, w: u16, h: u16, rle: bool)
    requires
        !(f is Rgba),
    ensures
        !has_translucent(spec_to_rgba(f, d)),
        spec_encode_truecolour(w, h, spec_to_rgba(f, d), rle) matches Ok(b) ==> b[16] == 24,
{
    let x = spec_to_rgba(f, d);
    law_widened_pixels(f, d);
    assert forall|p: int| 0 <= p < x.len() / 4 implies #[trigger] x[4 * p + 3] == 255 by {
        assert(pixel4(x, p)[3] == x[4 * p + 3]);
    }
}

} // verus!
