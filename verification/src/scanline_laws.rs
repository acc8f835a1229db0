//! Laws relating the scan-line table to the whole-image decoder: every
//! row read through a computed table is the matching row of the decoded
//! raster.
use vstd::prelude::*;
use crate::decode_spec::{
    decode_body, depth_bytes, lemma_pixel_out_len, lemma_repeat_len, out_bpp, pixel_out, prepend,
    raw_from, repeat, reorder, rle_from,
};
use crate::types::{ImageType, TgaHeader, spec_parse_header};
use crate::encode_spec::{
    has_translucent, pixels4, pixels3, rgba_rows, rgb_rows, byte_rows, truecolour_header,
    written_header, spec_encode_truecolour, spec_encode_rgb24, spec_encode_grayscale,
    spec_encode_palette, palette_build, palette_indices, lemma_palette_props, lossless_entry,
    entry_ser, grid,
};
use crate::types::ColorMapEntrySize;
use crate::rle_spec::{
    lemma_raw_end_bounds, lemma_run_len_bounds, raw_end_from, rle_row, rle_row_from, rle_rows,
    run_len_from, ser_all, ser_bgra, ser_bgr, ser_byte,
};
use crate::decode_spec::{out_format, spec_parse_tga};
use crate::image::ImageModel;
use crate::error::TgaErrorKind;
use crate::sections::{rle_row_end, rle_offsets, spec_prepare, spec_scan_line, spec_scan_line_table};

verus! {

/// `true` when every entry of an optional palette is four bytes long.
pub open spec fn pal_ok(pal: Option<Seq<Seq<u8>>>) -> bool {
    pal matches Some(p) ==> forall|i: int| 0 <= i < p.len() ==> (#[trigger] p[i]).len() == 4
}

/// Raw decoding of `c` pixels starting at pixel `k` gives the matching
/// window of the whole decode.
pub proof fn lemma_raw_window(
    t: ImageType,
    depth: u8,
    cmap_first: u16,
    s: Seq<u8>,
    pal: Option<Seq<Seq<u8>>>,
    bpp: nat,
    n: nat,
    k: nat,
    c: nat,
)
    requires
        raw_from(t, depth, cmap_first, s, pal, bpp, n) is Some,
        pal_ok(pal),
        k + c <= n,
    ensures
        ({
            let r = raw_from(t, depth, cmap_first, s, pal, bpp, n)->0;
            let ob = out_bpp(t);
            &&& k * bpp <= s.len()
            &&& raw_from(t, depth, cmap_first, s.skip(k * bpp as int), pal, bpp, c) == Some(
                r.subrange(k * ob as int, (k + c) * ob as int),
            )
        }),
    decreases n,
{
    let r = raw_from(t, depth, cmap_first, s, pal, bpp, n)->0;
    let ob = out_bpp(t);
    if n == 0 {
        assert(s.skip(0) =~= s);
        assert(r.subrange(0, 0) =~= Seq::<u8>::empty());
    } else {
        let s1 = s.skip(bpp as int);
        let px = pixel_out(t, depth, cmap_first, s.take(bpp as int), pal)->0;
        lemma_pixel_out_len(t, depth, cmap_first, s.take(bpp as int), pal);
        let r1 = raw_from(t, depth, cmap_first, s1, pal, bpp, (n - 1) as nat)->0;
        assert(r == px + r1);
        crate::decode_spec::lemma_raw_from_len(t, depth, cmap_first, s1, pal, bpp, (n - 1) as nat);
        if k == 0 {
            assert(s.skip(0) =~= s);
            if c == 0 {
                assert(r.subrange(0, 0) =~= Seq::<u8>::empty());
            } else {
                lemma_raw_window(t, depth, cmap_first, s1, pal, bpp, (n - 1) as nat, 0, (c - 1) as nat);
                assert(s1.skip(0) =~= s1);
                assert(c * ob == ob + (c - 1) * ob) by (nonlinear_arith);
                assert(px + r1.subrange(0, (c - 1) * ob as int) =~= r.subrange(0, c * ob as int));
            }
        } else {
            lemma_raw_window(t, depth, cmap_first, s1, pal, bpp, (n - 1) as nat, (k - 1) as nat, c);
            assert(k * bpp == bpp + (k - 1) * bpp) by (nonlinear_arith);
            assert(s1.skip((k - 1) * bpp as int) =~= s.skip(k * bpp as int));
            assert(k * ob == ob + (k - 1) * ob) by (nonlinear_arith);
            assert((k + c) * ob == ob + (k - 1 + c) * ob) by (nonlinear_arith);
            assert(r1.subrange((k - 1) * ob as int, (k - 1 + c) * ob as int) =~= r.subrange(
                k * ob as int,
                (k + c) * ob as int,
            ));
        }
    }
}

/// A run-length row whose packets end at `next` decodes, from its start,
/// to the first `rem` pixels of the stream, and the stream from `next` to
/// the rest.
#[verifier::spinoff_prover]
#[verifier::rlimit(40)]
pub proof fn lemma_rle_row_split(
    t: ImageType,
    depth: u8,
    cmap_first: u16,
    s: Seq<u8>,
    pal: Option<Seq<Seq<u8>>>,
    bpp: nat,
    pos: int,
    rem: nat,
    k: nat,
    next: int,
)
    requires
        pal_ok(pal),
        0 <= pos <= s.len(),
        rle_row_end(s, pos, rem as int, bpp as int) == Ok::<int, crate::error::TgaErrorKind>(next),
        rle_from(t, depth, cmap_first, s.skip(pos), pal, bpp, rem + k) is Some,
    ensures
        ({
            let r = rle_from(t, depth, cmap_first, s.skip(pos), pal, bpp, rem + k)->0;
            let ob = out_bpp(t);
            &&& 0 <= next <= s.len()
            &&& rle_from(t, depth, cmap_first, s.skip(pos), pal, bpp, rem) == Some(r.take(rem * ob as int))
            &&& rle_from(t, depth, cmap_first, s.skip(next), pal, bpp, k) == Some(r.skip(rem * ob as int))
        }),
    decreases rem,
{
    let u = s.skip(pos);
    let r = rle_from(t, depth, cmap_first, u, pal, bpp, rem + k)->0;
    let ob = out_bpp(t);
    if rem == 0 {
        assert(r.take(0) =~= Seq::<u8>::empty());
        assert(r.skip(0) =~= r);
    } else {
        let packet = s[pos];
        assert(u[0] == packet);
        let count = (packet % 128) as nat + 1;
        let rest = (rem - count) as nat;
        assert(count * ob + rest * ob == rem * ob) by (nonlinear_arith)
            requires
                rem == count + rest,
        ;
        if packet >= 128 {
            let q = pos + 1 + bpp;
            assert(u.skip(1 + bpp as int) =~= s.skip(q));
            let px = pixel_out(t, depth, cmap_first, u.subrange(1, 1 + bpp as int), pal)->0;
            lemma_pixel_out_len(t, depth, cmap_first, u.subrange(1, 1 + bpp as int), pal);
            lemma_repeat_len(px, count);
            assert(px.len() == ob);
            assert(repeat(px, count).len() == count * ob);
            assert((rem + k - count) as nat == rest + k);
            let r1 = rle_from(t, depth, cmap_first, s.skip(q), pal, bpp, rest + k)->0;
            assert(r == repeat(px, count) + r1);
            crate::decode_spec::lemma_rle_from_len(t, depth, cmap_first, s.skip(q), pal, bpp, rest + k);
            assert(rest * ob <= (rest + k) * ob) by (nonlinear_arith);
            assert(r1.len() == (rest + k) * ob);
            lemma_rle_row_split(t, depth, cmap_first, s, pal, bpp, q, rest, k, next);
            assert(repeat(px, count) + r1.take(rest * ob as int) =~= r.take(rem * ob as int));
            assert(r1.skip(rest * ob as int) =~= r.skip(rem * ob as int));
        } else {
            let q = pos + 1 + count * bpp;
            assert(u.skip(1 + (count * bpp) as int) =~= s.skip(q));
            let raw = u.subrange(1, 1 + (count * bpp) as int);
            let px = raw_from(t, depth, cmap_first, raw, pal, bpp, count)->0;
            crate::decode_spec::lemma_raw_from_len(t, depth, cmap_first, raw, pal, bpp, count);
            assert((rem + k - count) as nat == rest + k);
            let r1 = rle_from(t, depth, cmap_first, s.skip(q), pal, bpp, rest + k)->0;
            assert(r == px + r1);
            assert(px.len() == count * ob);
            crate::decode_spec::lemma_rle_from_len(t, depth, cmap_first, s.skip(q), pal, bpp, rest + k);
            assert(rest * ob <= (rest + k) * ob) by (nonlinear_arith);
            assert(r1.len() == (rest + k) * ob);
            lemma_rle_row_split(t, depth, cmap_first, s, pal, bpp, q, rest, k, next);
            assert(px + r1.take(rest * ob as int) =~= r.take(rem * ob as int));
            assert(r1.skip(rest * ob as int) =~= r.skip(rem * ob as int));
        }
    }
}

/// Each row a run-length scan-line walk finds decodes to the matching
/// window of the whole decode.
pub proof fn lemma_rle_rows(
    t: ImageType,
    depth: u8,
    cmap_first: u16,
    s: Seq<u8>,
    pal: Option<Seq<Seq<u8>>>,
    bpp: nat,
    pos: int,
    rows: nat,
    w: nat,
)
    requires
        pal_ok(pal),
        0 <= pos <= s.len(),
        rle_offsets(s, pos, rows as int, w as int, bpp as int) is Ok,
        rle_from(t, depth, cmap_first, s.skip(pos), pal, bpp, rows * w) is Some,
    ensures
        ({
            let offs = rle_offsets(s, pos, rows as int, w as int, bpp as int)->Ok_0;
            let r = rle_from(t, depth, cmap_first, s.skip(pos), pal, bpp, rows * w)->0;
            let l = w * out_bpp(t);
            &&& offs.len() == rows
            &&& forall|i: int|
                0 <= i < rows ==> {
                    &&& #[trigger] offs[i] as int <= s.len()
                    &&& rle_from(t, depth, cmap_first, s.skip(offs[i] as int), pal, bpp, w) == Some(
                        r.subrange(i * l, (i + 1) * l),
                    )
                }
        }),
    decreases rows,
{
    if rows > 0 {
        let offs = rle_offsets(s, pos, rows as int, w as int, bpp as int)->Ok_0;
        let r = rle_from(t, depth, cmap_first, s.skip(pos), pal, bpp, rows * w)->0;
        let ob = out_bpp(t);
        let l = w * ob;
        let next = rle_row_end(s, pos, w as int, bpp as int)->Ok_0;
        let k = ((rows - 1) * w) as nat;
        assert(rows * w == w + k) by (nonlinear_arith)
            requires
                k == (rows - 1) * w,
                rows > 0,
        ;
        lemma_rle_row_split(t, depth, cmap_first, s, pal, bpp, pos, w, k, next);
        let rest = rle_offsets(s, next, rows - 1, w as int, bpp as int)->Ok_0;
        assert(offs == seq![pos as u32] + rest);
        lemma_rle_rows(t, depth, cmap_first, s, pal, bpp, next, (rows - 1) as nat, w);
        let r1 = r.skip(w * ob as int);
        assert(((rows - 1) as nat) * w == k);
        assert(rle_from(t, depth, cmap_first, s.skip(next), pal, bpp, ((rows - 1) as nat) * w) == Some(r1));
        crate::decode_spec::lemma_rle_from_len(t, depth, cmap_first, s.skip(pos), pal, bpp, rows * w);
        assert(r.len() == rows * l) by (nonlinear_arith)
            requires
                r.len() == (rows * w) * ob,
                l == w * ob,
        ;
        assert forall|i: int| 0 <= i < rows implies {
            &&& #[trigger] offs[i] as int <= s.len()
            &&& rle_from(t, depth, cmap_first, s.skip(offs[i] as int), pal, bpp, w) == Some(
                r.subrange(i * l, (i + 1) * l),
            )
        } by {
            if i == 0 {
                assert(pos <= u32::MAX);
                assert(offs[0] as int == pos);
                assert(l <= rows * l) by (nonlinear_arith)
                    requires
                        rows >= 1,
                ;
                assert(r.take(l as int) =~= r.subrange(0, l as int));
                assert(i * l == 0 && (i + 1) * l == l) by (nonlinear_arith)
                    requires
                        i == 0,
                ;
            } else {
                assert(offs[i] == rest[i - 1]);
                assert(rle_from(t, depth, cmap_first, s.skip(rest[i - 1] as int), pal, bpp, w) == Some(
                    r1.subrange((i - 1) * l, i * l),
                ));
                assert(i * l == l + (i - 1) * l) by (nonlinear_arith);
                assert((i + 1) * l == l + i * l) by (nonlinear_arith);
                assert((i + 1) * l <= rows * l) by (nonlinear_arith)
                    requires
                        i + 1 <= rows,
                ;
                assert(0 <= (i - 1) * l) by (nonlinear_arith)
                    requires
                        i >= 1,
                ;
                assert(r1.subrange((i - 1) * l, i * l) =~= r.subrange(i * l, (i + 1) * l));
            }
        }
    }
}

/// Byte `j` of row `y` of a `w`-pixel-wide raster of `ob`-byte pixels:
/// its pixel, its byte within the pixel, and that pixel's row and column.
proof fn lemma_row_divmod(y: int, w: int, ob: int, j: int)
    requires
        0 <= y,
        w > 0,
        ob > 0,
        0 <= j < w * ob,
    ensures
        0 <= j / ob < w,
        (y * (w * ob) + j) / ob == y * w + j / ob,
        (y * (w * ob) + j) % ob == j % ob,
        (y * w + j / ob) / w == y,
        (y * w + j / ob) % w == j / ob,
{
    let q = j / ob;
    let r = j % ob;
    vstd::arithmetic::div_mod::lemma_fundamental_div_mod(j, ob);
    assert(j == ob * q + r);
    assert(0 <= r < ob);
    assert(0 <= q < w) by (nonlinear_arith)
        requires
            j == ob * q + r,
            0 <= r < ob,
            0 <= j < w * ob,
            ob > 0,
    ;
    assert(y * (w * ob) + j == (y * w + q) * ob + r) by (nonlinear_arith)
        requires
            j == ob * q + r,
    ;
    vstd::arithmetic::div_mod::lemma_fundamental_div_mod_converse(y * (w * ob) + j, ob, y * w + q, r);
    vstd::arithmetic::div_mod::lemma_fundamental_div_mod_converse(y * w + q, w, y, q);
}

/// Row `i` of the stored pixels, normalised on its own, is the row the
/// whole raster's normalisation puts it at: row `h - 1 - i` when rows are
/// flipped, row `i` otherwise.
pub proof fn lemma_reorder_row(px: Seq<u8>, w: nat, h: nat, ob: nat, flip: bool, mirror: bool, i: int)
    requires
        w > 0,
        ob > 0,
        0 <= i < h,
        px.len() == w * h * ob,
    ensures
        ({
            let l = (w * ob) as int;
            let y = if flip {
                h - 1 - i
            } else {
                i
            };
            &&& (i + 1) * l <= px.len()
            &&& (y + 1) * l <= px.len()
            &&& reorder(px.subrange(i * l, (i + 1) * l), w, 1, ob, false, mirror) == reorder(
                px,
                w,
                h,
                ob,
                flip,
                mirror,
            ).subrange(y * l, (y + 1) * l)
        }),
{
    let l = (w * ob) as int;
    let y = if flip { h - 1 - i } else { i };
    assert(px.len() == h * l) by (nonlinear_arith)
        requires
            px.len() == w * h * ob,
            l == w * ob,
    ;
    assert((i + 1) * l <= h * l && (y + 1) * l <= h * l && 0 <= i * l && 0 <= y * l) by (nonlinear_arith)
        requires
            0 <= i < h,
            0 <= y < h,
            l >= 0,
    ;
    let row = px.subrange(i * l, (i + 1) * l);
    let a = reorder(row, w, 1, ob, false, mirror);
    let full = reorder(px, w, h, ob, flip, mirror);
    assert((i + 1) * l - i * l == l) by (nonlinear_arith);
    assert((y + 1) * l - y * l == l) by (nonlinear_arith);
    assert forall|j: int| 0 <= j < l implies a[j] == full.subrange(y * l, (y + 1) * l)[j] by {
        let p = j / (ob as int);
        let b = j % (ob as int);
        lemma_row_divmod(0, w as int, ob as int, j);
        lemma_row_divmod(y, w as int, ob as int, j);
        assert(0 * ((w * ob) as int) + j == j);
        assert(0 * (w as int) + p == p);
        let sx = if mirror { w - 1 - p } else { p };
        assert(crate::decode_spec::reorder_src(j, w, 1, ob, false, mirror) == (0 * w + sx) * ob + b);
        assert(crate::decode_spec::reorder_src(y * l + j, w, h, ob, flip, mirror) == (i * w + sx) * ob + b);
        assert((i * w + sx) * ob + b == i * l + (sx * ob + b)) by (nonlinear_arith)
            requires
                l == w * ob,
        ;
        assert((0 * w + sx) * ob + b == sx * ob + b) by (nonlinear_arith);
        assert(0 <= sx * ob + b < l) by (nonlinear_arith)
            requires
                0 <= sx < w,
                0 <= b < ob,
                l == w * ob,
        ;
    }
}

/// The decoded stored pixels of a file that decodes.
pub open spec fn stored_pixels(s: Seq<u8>) -> Seq<u8> {
    let (h, t, pal, cursor) = spec_prepare(s)->Ok_0;
    decode_body(t, h.depth, h.cmap_first, s.skip(cursor as int), pal, (h.width * h.height) as nat)->0
}

/// A file that decodes passes the decoders' common checks, its stored
/// pixels decode, and the raster is those pixels normalised.
proof fn lemma_decoded_parts(s: Seq<u8>)
    requires
        spec_parse_tga(s) is Ok,
    ensures
        ({
            let (h, t, pal, cursor) = spec_prepare(s)->Ok_0;
            let m = spec_parse_tga(s)->Ok_0;
            let n = (h.width * h.height) as nat;
            &&& spec_prepare(s) is Ok
            &&& pal_ok(pal)
            &&& cursor <= s.len()
            &&& decode_body(t, h.depth, h.cmap_first, s.skip(cursor as int), pal, n) is Some
            &&& stored_pixels(s).len() == n * out_bpp(t)
            &&& m.width == h.width
            &&& m.height == h.height
            &&& m.pixel_format == out_format(t)
            &&& out_format(t).bpp() == out_bpp(t)
            &&& m.data == reorder(
                stored_pixels(s),
                h.width as nat,
                h.height as nat,
                out_bpp(t),
                !h.is_top_down(),
                h.is_right_to_left(),
            )
        }),
{
    let (h, t, pal, cursor) = spec_prepare(s)->Ok_0;
    let n = (h.width * h.height) as nat;
    let bpp = depth_bytes(h.depth);
    let body = s.skip(cursor as int);
    assert(pal_ok(pal));
    if t.is_rle() {
        crate::decode_spec::lemma_rle_from_len(t, h.depth, h.cmap_first, body, pal, bpp, n);
    } else {
        crate::decode_spec::lemma_raw_from_len(t, h.depth, h.cmap_first, body, pal, bpp, n);
    }
}

/// Stored row `i`, read from its scan-line table entry, is the matching
/// window of the stored pixels.
#[verifier::rlimit(40)]
proof fn lemma_stored_row(s: Seq<u8>, i: int)
    requires
        spec_parse_tga(s) is Ok,
        spec_scan_line_table(s) is Ok,
        0 <= i < spec_scan_line_table(s)->Ok_0.len(),
    ensures
        ({
            let (h, t, pal, cursor) = spec_prepare(s)->Ok_0;
            let offs = spec_scan_line_table(s)->Ok_0;
            let l = (h.width * out_bpp(t)) as int;
            &&& offs.len() == h.height
            &&& offs[i] <= s.len()
            &&& decode_body(t, h.depth, h.cmap_first, s.skip(offs[i] as int), pal, h.width as nat)
                == Some(stored_pixels(s).subrange(i * l, (i + 1) * l))
        }),
{
    lemma_decoded_parts(s);
    let (h, t, pal, cursor) = spec_prepare(s)->Ok_0;
    let offs = spec_scan_line_table(s)->Ok_0;
    let w = h.width as nat;
    let rows = h.height as nat;
    let n = (h.width * h.height) as nat;
    let bpp = depth_bytes(h.depth);
    let ob = out_bpp(t);
    let l = (w * ob) as int;
    let px = stored_pixels(s);
    assert(n == rows * w) by (nonlinear_arith)
        requires
            n == w * rows,
    ;
    if t.is_rle() {
        lemma_rle_rows(t, h.depth, h.cmap_first, s, pal, bpp, cursor as int, rows, w);
    } else {
        let rb = (w * bpp) as int;
        assert(0 <= i * rb <= (rows - 1) * rb) by (nonlinear_arith)
            requires
                0 <= i < rows,
                rb >= 0,
        ;
        assert(offs[i] == (cursor + i * rb) as u32);
        assert(offs[i] as int == cursor + i * rb);
        assert(i * rb + rb <= rows * rb) by (nonlinear_arith)
            requires
                0 <= i < rows,
                rb >= 0,
        ;
        assert(rb * rows == rows * rb) by (nonlinear_arith);
        let k = (i * w) as nat;
        assert(i * w + w <= n) by (nonlinear_arith)
            requires
                i < rows,
                n == rows * w,
        ;
        lemma_raw_window(t, h.depth, h.cmap_first, s.skip(cursor as int), pal, bpp, n, k, w);
        assert(k * bpp == i * rb) by (nonlinear_arith)
            requires
                k == i * w,
                rb == w * bpp,
        ;
        assert(s.skip(cursor as int).skip(k * bpp as int) =~= s.skip(offs[i] as int));
        assert(k * ob == i * l && (k + w) * ob == (i + 1) * l) by (nonlinear_arith)
            requires
                k == i * w,
                l == w * ob,
        ;
        assert(s.skip(offs[i] as int).len() >= w * bpp);
    }
}

/// Law: every row read through the scan-line table computed for a file
/// that decodes is the matching row of the whole decoded raster. Table
/// entry `i` is stored row `i`, which the raster shows at row
/// `height - 1 - i` when rows are stored bottom-up and at row `i`
/// otherwise; columns come out in the raster's left-to-right order.
pub proof fn law_scan_line_rows(s: Seq<u8>, i: int)
    requires
        spec_parse_tga(s) is Ok,
        spec_scan_line_table(s) is Ok,
        0 <= i < spec_scan_line_table(s)->Ok_0.len(),
    ensures
        ({
            let m = spec_parse_tga(s)->Ok_0;
            let top_down = spec_parse_header(s)->0.is_top_down();
            let l = (m.width * m.pixel_format.bpp()) as int;
            let y = if top_down {
                i
            } else {
                m.height - 1 - i
            };
            spec_scan_line(s, spec_scan_line_table(s)->Ok_0, i) == Ok::<ImageModel, TgaErrorKind>(
                ImageModel {
                    width: m.width,
                    height: 1,
                    pixel_format: m.pixel_format,
                    data: m.data.subrange(y * l, (y + 1) * l),
                },
            )
        }),
{
    lemma_decoded_parts(s);
    lemma_stored_row(s, i);
    let (h, t, pal, cursor) = spec_prepare(s)->Ok_0;
    let w = h.width as nat;
    let rows = h.height as nat;
    let ob = out_bpp(t);
    let px = stored_pixels(s);
    assert(px.len() == w * rows * ob) by (nonlinear_arith)
        requires
            px.len() == (w * rows) * ob,
    ;
    lemma_reorder_row(px, w, rows, ob, !h.is_top_down(), h.is_right_to_left(), i);
}

/// The packet walker steps over one packetised row exactly: the packets a
/// writer emits for `row[i..]` end where the row's bytes end.
pub proof fn lemma_rle_row_walk<T>(
    pre: Seq<u8>,
    row: Seq<T>,
    i: int,
    ser: spec_fn(T) -> Seq<u8>,
    bpp: nat,
    rest: Seq<u8>,
)
    requires
        0 <= i <= row.len(),
        forall|j: int| 0 <= j < row.len() ==> (#[trigger] ser(row[j])).len() == bpp,
    ensures
        rle_row_end(pre + rle_row_from(row, i, ser) + rest, pre.len() as int, row.len() - i, bpp as int)
            == Ok::<int, TgaErrorKind>((pre.len() + rle_row_from(row, i, ser).len()) as int),
    decreases row.len() - i,
{
    let n = row.len() as int;
    let s = pre + rle_row_from(row, i, ser) + rest;
    let pos = pre.len() as int;
    if i < n {
        let r = run_len_from(row, i, 1);
        lemma_run_len_bounds(row, i, 1);
        if r >= 2 {
            let hdr = seq![(128 + r - 1) as u8];
            let pre2 = pre + hdr + ser(row[i]);
            assert(s =~= pre2 + rle_row_from(row, i + r, ser) + rest);
            assert(s[pos] == (128 + r - 1) as u8);
            assert(((128 + r - 1) as u8) % 128 == r - 1);
            lemma_rle_row_walk(pre2, row, i + r, ser, bpp, rest);
        } else {
            let e = raw_end_from(row, i, i + 1);
            lemma_raw_end_bounds(row, i, i + 1);
            let c = e - i;
            let sub = row.subrange(i, e);
            assert forall|j: int| 0 <= j < sub.len() implies (#[trigger] ser(sub[j])).len() == bpp by {
                assert(sub[j] == row[i + j]);
            }
            crate::laws::lemma_ser_all_len(sub, ser, bpp);
            let hdr = seq![(c - 1) as u8];
            let pre2 = pre + hdr + ser_all(sub, ser);
            assert(s =~= pre2 + rle_row_from(row, e, ser) + rest);
            assert(s[pos] == (c - 1) as u8);
            assert(ser_all(sub, ser).len() == c * bpp);
            lemma_rle_row_walk(pre2, row, e, ser, bpp, rest);
        }
    }
}

/// Packetised rows, front first.
pub proof fn lemma_rle_rows_front<T>(rows: Seq<Seq<T>>, ser: spec_fn(T) -> Seq<u8>)
    requires
        rows.len() > 0,
    ensures
        rle_rows(rows, ser) == rle_row(rows[0], ser) + rle_rows(rows.drop_first(), ser),
    decreases rows.len(),
{
    if rows.len() == 1 {
        assert(rows.drop_last() =~= Seq::<Seq<T>>::empty());
        assert(rows.drop_first() =~= Seq::<Seq<T>>::empty());
        assert(rle_row(rows[0], ser) + Seq::<u8>::empty() =~= rle_row(rows[0], ser));
        assert(Seq::<u8>::empty() + rle_row(rows[0], ser) =~= rle_row(rows[0], ser));
    } else {
        lemma_rle_rows_front(rows.drop_last(), ser);
        assert(rows.drop_last().drop_first() =~= rows.drop_first().drop_last());
        assert(rows.drop_first().last() == rows.last());
        assert(rows.drop_last()[0] == rows[0]);
        assert(rle_rows(rows, ser) =~= rle_row(rows[0], ser) + rle_rows(rows.drop_first(), ser));
    }
}

/// The scan-line walk over rows a writer packetised row by row finds
/// every row (for a stream of at most 4 GiB).
pub proof fn lemma_rle_rows_walk<T>(
    pre: Seq<u8>,
    rows: Seq<Seq<T>>,
    w: nat,
    ser: spec_fn(T) -> Seq<u8>,
    bpp: nat,
    rest: Seq<u8>,
)
    requires
        w > 0,
        forall|y: int| 0 <= y < rows.len() ==> (#[trigger] rows[y]).len() == w,
        forall|y: int, j: int|
            0 <= y < rows.len() && 0 <= j < w ==> (#[trigger] ser(rows[y][j])).len() == bpp,
        (pre + rle_rows(rows, ser) + rest).len() <= u32::MAX,
    ensures
        rle_offsets(pre + rle_rows(rows, ser) + rest, pre.len() as int, rows.len() as int, w as int, bpp as int)
            is Ok,
    decreases rows.len(),
{
    if rows.len() > 0 {
        let s = pre + rle_rows(rows, ser) + rest;
        let r0 = rows[0];
        let tail = rows.drop_first();
        lemma_rle_rows_front(rows, ser);
        let pre2 = pre + rle_row(r0, ser);
        assert(s =~= pre + rle_row(r0, ser) + (rle_rows(tail, ser) + rest));
        assert(forall|j: int| 0 <= j < r0.len() ==> (#[trigger] ser(r0[j])).len() == bpp);
        lemma_rle_row_walk(pre, r0, 0, ser, bpp, rle_rows(tail, ser) + rest);
        assert(s =~= pre2 + rle_rows(tail, ser) + rest);
        assert forall|y: int| 0 <= y < tail.len() implies (#[trigger] tail[y]).len() == w by {
            assert(tail[y] == rows[y + 1]);
        }
        assert forall|y: int, j: int| 0 <= y < tail.len() && 0 <= j < w implies (#[trigger] ser(
            tail[y][j],
        )).len() == bpp by {
            assert(tail[y] == rows[y + 1]);
        }
        lemma_rle_rows_walk(pre2, tail, w, ser, bpp, rest);
    }
}

/// The uncompressed branch of the scan-line table holds for pixel data of
/// `rows` full rows of `rb` bytes in a stream of at most 4 GiB.
proof fn lemma_raw_rows_fit(len: int, cursor: int, rb: int, rows: int, body_len: int)
    requires
        0 <= cursor,
        0 <= rb,
        1 <= rows,
        body_len == rb * rows,
        len == cursor + body_len,
        len <= u32::MAX,
    ensures
        len >= cursor + rb * rows,
        cursor + (rows - 1) * rb <= u32::MAX,
{
    assert((rows - 1) * rb <= rb * rows) by (nonlinear_arith)
        requires
            1 <= rows,
            0 <= rb,
    ;
}

/// Law: the scan-line table of every non-empty file the true-colour
/// writers produce (`encode_tga_uncompressed`, `encode_tga_rle`) can be
/// computed, for files of at most 4 GiB: no run-length packet spans two
/// rows. With [`law_scan_line_rows`], every row of such a file can be
/// read on its own.
#[verifier::rlimit(40)]
pub proof fn law_truecolour_scan_line_table(width: u16, height: u16, rgba: Seq<u8>, rle: bool)
    requires
        width > 0,
        height > 0,
        spec_encode_truecolour(width, height, rgba, rle) matches Ok(b) && b.len() <= u32::MAX,
    ensures
        spec_scan_line_table(spec_encode_truecolour(width, height, rgba, rle)->Ok_0) is Ok,
{
    let bytes = spec_encode_truecolour(width, height, rgba, rle)->Ok_0;
    let a = has_translucent(rgba);
    let t = if rle { ImageType::RleTrueColour } else { ImageType::UncompressedTrueColour };
    let hd = truecolour_header(t, width, height, a);
    let w = width as nat;
    let h = height as nat;
    let n = (width * height) as nat;
    let bpp: nat = if a { 4 } else { 3 };
    let body = bytes.skip(18);
    assert(bytes =~= hd.spec_bytes() + body);
    crate::laws::lemma_written_prefix(hd, t, body);
    assert(depth_bytes(hd.depth) == bpp);
    assert(spec_prepare(bytes) == Ok::<(TgaHeader, ImageType, Option<Seq<Seq<u8>>>, nat), TgaErrorKind>((hd, t, None, 18)));
    if rle {
        let rows = rgba_rows(rgba, w, h);
        assert(bytes =~= hd.spec_bytes() + rle_rows(rows, ser_bgra(a)) + Seq::<u8>::empty());
        assert forall|y: int| 0 <= y < rows.len() implies (#[trigger] rows[y]).len() == w by {}
        assert forall|y: int, j: int| 0 <= y < rows.len() && 0 <= j < w implies (#[trigger] (ser_bgra(
            a,
        ))(rows[y][j])).len() == bpp by {}
        lemma_rle_rows_walk(hd.spec_bytes(), rows, w, ser_bgra(a), bpp, Seq::<u8>::empty());
    } else {
        let pix = pixels4(rgba, n);
        assert forall|i: int| 0 <= i < pix.len() implies (#[trigger] (ser_bgra(a))(pix[i])).len() == bpp by {}
        crate::laws::lemma_ser_all_len(pix, ser_bgra(a), bpp);
        assert(body.len() == (w * bpp) * h) by (nonlinear_arith)
            requires
                body.len() == n * bpp,
                n == w * h,
        ;
        lemma_raw_rows_fit(bytes.len() as int, 18, (w * bpp) as int, h as int, body.len() as int);
    }
}

/// Law: the scan-line table of every non-empty file the RGB writers
/// produce (`encode_tga_uncompressed_rgb24`, `encode_tga_rle_rgb24`) can
/// be computed, for files of at most 4 GiB.
#[verifier::rlimit(40)]
pub proof fn law_rgb24_scan_line_table(width: u16, height: u16, rgb: Seq<u8>, rle: bool)
    requires
        width > 0,
        height > 0,
        spec_encode_rgb24(width, height, rgb, rle) matches Ok(b) && b.len() <= u32::MAX,
    ensures
        spec_scan_line_table(spec_encode_rgb24(width, height, rgb, rle)->Ok_0) is Ok,
{
    let bytes = spec_encode_rgb24(width, height, rgb, rle)->Ok_0;
    let t = if rle { ImageType::RleTrueColour } else { ImageType::UncompressedTrueColour };
    let hd = truecolour_header(t, width, height, false);
    let w = width as nat;
    let h = height as nat;
    let n = (width * height) as nat;
    let body = bytes.skip(18);
    assert(bytes =~= hd.spec_bytes() + body);
    crate::laws::lemma_written_prefix(hd, t, body);
    assert(depth_bytes(hd.depth) == 3);
    assert(spec_prepare(bytes) == Ok::<(TgaHeader, ImageType, Option<Seq<Seq<u8>>>, nat), TgaErrorKind>((hd, t, None, 18)));
    if rle {
        let rows = rgb_rows(rgb, w, h);
        assert(bytes =~= hd.spec_bytes() + rle_rows(rows, ser_bgr()) + Seq::<u8>::empty());
        assert forall|y: int| 0 <= y < rows.len() implies (#[trigger] rows[y]).len() == w by {}
        assert forall|y: int, j: int| 0 <= y < rows.len() && 0 <= j < w implies (#[trigger] (ser_bgr())(
            rows[y][j],
        )).len() == 3 by {}
        lemma_rle_rows_walk(hd.spec_bytes(), rows, w, ser_bgr(), 3, Seq::<u8>::empty());
    } else {
        let pix = pixels3(rgb, n);
        assert forall|i: int| 0 <= i < pix.len() implies (#[trigger] (ser_bgr())(pix[i])).len() == 3 by {}
        crate::laws::lemma_ser_all_len(pix, ser_bgr(), 3);
        assert(body.len() == (w * 3) * h) by (nonlinear_arith)
            requires
                body.len() == n * 3,
                n == w * h,
        ;
        lemma_raw_rows_fit(bytes.len() as int, 18, (w * 3) as int, h as int, body.len() as int);
    }
}

/// Law: the scan-line table of every non-empty file the grayscale writers
/// produce (`encode_tga_grayscale`, `encode_tga_grayscale_rle`) can be
/// computed, for files of at most 4 GiB.
#[verifier::rlimit(40)]
pub proof fn law_grayscale_scan_line_table(width: u16, height: u16, gray: Seq<u8>, rle: bool)
    requires
        width > 0,
        height > 0,
        spec_encode_grayscale(width, height, gray, rle) matches Ok(b) && b.len() <= u32::MAX,
    ensures
        spec_scan_line_table(spec_encode_grayscale(width, height, gray, rle)->Ok_0) is Ok,
{
    let bytes = spec_encode_grayscale(width, height, gray, rle)->Ok_0;
    let t = if rle { ImageType::RleGrayscale } else { ImageType::UncompressedGrayscale };
    let hd = written_header(t, 0, 0, 0, width, height, 8, 0x20);
    let w = width as nat;
    let h = height as nat;
    let n = (width * height) as nat;
    let body = bytes.skip(18);
    assert(bytes =~= hd.spec_bytes() + body);
    crate::laws::lemma_written_prefix(hd, t, body);
    assert(depth_bytes(hd.depth) == 1);
    assert(spec_prepare(bytes) == Ok::<(TgaHeader, ImageType, Option<Seq<Seq<u8>>>, nat), TgaErrorKind>((hd, t, None, 18)));
    if rle {
        let rows = byte_rows(gray, w, h);
        assert(bytes =~= hd.spec_bytes() + rle_rows(rows, ser_byte()) + Seq::<u8>::empty());
        assert forall|y: int| 0 <= y < rows.len() implies (#[trigger] rows[y]).len() == w by {}
        assert forall|y: int, j: int| 0 <= y < rows.len() && 0 <= j < w implies (#[trigger] (ser_byte())(
            rows[y][j],
        )).len() == 1 by {}
        lemma_rle_rows_walk(hd.spec_bytes(), rows, w, ser_byte(), 1, Seq::<u8>::empty());
    } else {
        assert(body.len() == (w * 1) * h) by (nonlinear_arith)
            requires
                body.len() == n,
                n == w * h,
        ;
        lemma_raw_rows_fit(bytes.len() as int, 18, (w * 1) as int, h as int, body.len() as int);
    }
}

/// Law: the scan-line table of every non-empty file the colour-mapped
/// writers produce (`encode_tga_palette`, `encode_tga_palette_rle`,
/// `encode_tga_palette_with_entry_size`) can be computed, for files of at
/// most 4 GiB.
#[verifier::rlimit(40)]
pub proof fn law_palette_scan_line_table(
    width: u16,
    height: u16,
    rgba: Seq<u8>,
    rle: bool,
    entry: Option<ColorMapEntrySize>,
)
    requires
        width > 0,
        height > 0,
        spec_encode_palette(
            width,
            height,
            rgba,
            if rle {
                ImageType::RleColourMapped
            } else {
                ImageType::UncompressedColourMapped
            },
            entry,
        ) matches Ok(b) && b.len() <= u32::MAX,
    ensures
        spec_scan_line_table(
            spec_encode_palette(
                width,
                height,
                rgba,
                if rle {
                    ImageType::RleColourMapped
                } else {
                    ImageType::UncompressedColourMapped
                },
                entry,
            )->Ok_0,
        ) is Ok,
{
    let t = if rle { ImageType::RleColourMapped } else { ImageType::UncompressedColourMapped };
    let bytes = spec_encode_palette(width, height, rgba, t, entry)->Ok_0;
    let w = width as nat;
    let h = height as nat;
    let n = (width * height) as nat;
    assert(n == w * h);
    assert(n >= 1) by (nonlinear_arith)
        requires
            n == w * h,
            w >= 1,
            h >= 1,
    ;
    let pix = pixels4(rgba, n);
    let pal = palette_build(pix);
    lemma_palette_props(pix);
    assert(pal.len() > 0) by {
        assert(pal.contains(pix[0]));
    }
    let e = match entry {
        Some(x) => x,
        None => lossless_entry(pal),
    };
    let idx = palette_indices(pix);
    let hd = written_header(t, 1, pal.len() as u16, e.bits(), width, height, 8, 0x20);
    let body = if rle { rle_rows(grid(|k: int| idx[k], w, h), ser_byte()) } else { idx };
    let cm = ser_all(pal, entry_ser(e));
    assert(bytes == hd.spec_bytes() + cm + body);
    crate::laws::lemma_palette_file_prefix(t, pal, e, width, height, body);
    let cursor = 18 + pal.len() * depth_bytes(e.bits());
    assert(depth_bytes(hd.depth) == 1);
    assert(spec_prepare(bytes) is Ok);
    assert(spec_prepare(bytes)->Ok_0.3 == cursor);
    if rle {
        let rows = grid(|k: int| idx[k], w, h);
        assert(bytes =~= (hd.spec_bytes() + cm) + rle_rows(rows, ser_byte()) + Seq::<u8>::empty());
        assert forall|y: int| 0 <= y < rows.len() implies (#[trigger] rows[y]).len() == w by {}
        assert forall|y: int, j: int| 0 <= y < rows.len() && 0 <= j < w implies (#[trigger] (ser_byte())(
            rows[y][j],
        )).len() == 1 by {}
        lemma_rle_rows_walk(hd.spec_bytes() + cm, rows, w, ser_byte(), 1, Seq::<u8>::empty());
        assert((hd.spec_bytes() + cm).len() == cursor);
    } else {
        assert(body.len() == (w * 1) * h) by (nonlinear_arith)
            requires
                body.len() == n,
                n == w * h,
        ;
        assert(bytes.len() == cursor + body.len());
        lemma_raw_rows_fit(bytes.len() as int, cursor as int, (w * 1) as int, h as int, body.len() as int);
    }
}

} // verus!
