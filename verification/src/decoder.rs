//! TGA decode. Always normalises to a top-left origin and produces
//! either RGBA (types 1 / 2 / 9 / 10) or Gray8 (types 3 / 11): palette
//! lookup, BGR→RGB swapping and 5-5-5 expansion happen at decode time.
use vstd::prelude::*;
use crate::decode_spec::{
    a1r5g5b5, depth_bytes, depth_ok, entry_size_supported, expand5_spec, out_bpp, palette_entry,
    palette_of, pixel_out, prepend, raw_from, reorder, reorder_src, repeat, rle_from, decode_body,
    spec_read_palette, spec_parse_tga, out_format, lemma_repeat_len, lemma_raw_from_len,
    lemma_rle_from_len, lemma_reorder_identity, lemma_src_index_bound, image_type_label, pixel_msg,
    raw_msg, rle_msg, read_palette_msg, depth_msg, spec_parse_tga_msg,
};
use crate::textfmt::{dec_chars, push_str_dec, str_dec_str};
use crate::error::{TgaError, TgaErrorKind};
use crate::image::{ImageModel, TgaImage, TgaPixelFormat};
use crate::types::{
    image_type_of, parse_header, spec_parse_header, ImageType, TgaHeader, TGA_HEADER_SIZE,
};

verus! {

/// The spec view of a decoded palette.
pub open spec fn pal_view(p: Seq<[u8; 4]>) -> Seq<Seq<u8>> {
    Seq::new(p.len(), |i: int| p[i]@)
}

/// The spec view of an optional decoded palette.
pub open spec fn opt_pal(p: Option<Vec<[u8; 4]>>) -> Option<Seq<Seq<u8>>> {
    match p {
        Option::Some(v) => Option::Some(pal_view(v@)),
        Option::None => Option::None,
    }
}

/// `prepend` composes.
proof fn lemma_prepend_assoc(a: Seq<u8>, b: Seq<u8>, o: Option<Seq<u8>>)
    ensures
        prepend(a, prepend(b, o)) == prepend(a + b, o),
{
    if let Option::Some(r) = o {
        assert(a + (b + r) =~= (a + b) + r);
    }
}

/// 5-bit value to 8-bit by repeating the top bits.
fn expand5(v: u8) -> (r: u8)
    requires
        v < 32,
    ensures
        r == expand5_spec(v as int),
{
    v * 8 + v / 4
}

/// 16-bit pixel = A1R5G5B5 (top bit alpha); 15-bit pixel = the same
/// layout with the top bit reserved (alpha forced to 0xFF).
fn expand_a1r5g5b5(v: u16, entry_size: u8) -> (r: [u8; 4])
    ensures
        r@ == a1r5g5b5(v, entry_size),
{
    let r5 = ((v / 1024) % 32) as u8;
    let g5 = ((v / 32) % 32) as u8;
    let b5 = (v % 32) as u8;
    let a: u8 = if entry_size == 16 {
        if v >= 32768 {
            0xFF
        } else {
            0
        }
    } else {
        0xFF
    };
    let out = [expand5(r5), expand5(g5), expand5(b5), a];
    assert(out@ =~= a1r5g5b5(v, entry_size));
    out
}

/// Expand a colour map to a flat RGBA palette.
pub(crate) fn decode_palette(cmap: &[u8], entry_size: u8, entry_bytes: usize) -> (r: Result<
    Vec<[u8; 4]>,
    TgaError,
>)
    requires
        entry_bytes == depth_bytes(entry_size),
        entry_bytes > 0,
    ensures
        match r {
            Ok(p) => (cmap@.len() / (entry_bytes as nat) == 0 || entry_size_supported(entry_size))
                && pal_view(p@) == palette_of(cmap@, entry_size),
            Err(e) => cmap@.len() / (entry_bytes as nat) > 0 && !entry_size_supported(entry_size)
                && e.kind() == TgaErrorKind::Unsupported && e.msg() == "TGA: palette entry size "@
                + dec_chars(entry_size as nat) + " bits not supported"@,
        },
{
    let entries = cmap.len() / entry_bytes;
    let mut palette: Vec<[u8; 4]> = Vec::with_capacity(entries);
    let mut i: usize = 0;
    let mut off: usize = 0;
    proof {
        vstd::arithmetic::div_mod::lemma_fundamental_div_mod(cmap@.len() as int, entry_bytes as int);
        assert(entries * entry_bytes <= cmap@.len()) by (nonlinear_arith)
            requires
                entries == cmap@.len() / (entry_bytes as nat),
                cmap@.len() == (entry_bytes as nat) * (cmap@.len() / (entry_bytes as nat)) + cmap@.len()
                    % (entry_bytes as nat),
                cmap@.len() % (entry_bytes as nat) >= 0,
        ;
    }
    while i < entries
        invariant
            entries == cmap@.len() / (entry_bytes as nat),
            entries * entry_bytes <= cmap@.len(),
            cmap@.len() == cmap.len(),
            entry_bytes == depth_bytes(entry_size),
            entry_bytes > 0,
            i <= entries,
            off == i * entry_bytes,
            palette@.len() == i,
            i > 0 ==> entry_size_supported(entry_size),
            forall|j: int| 0 <= j < i ==> (#[trigger] palette@[j])@ == palette_entry(cmap@, j * entry_bytes, entry_size),
        decreases entries - i,
    {
        proof {
            assert(off + entry_bytes <= cmap@.len()) by (nonlinear_arith)
                requires
                    off == i * entry_bytes,
                    i < entries,
                    entries * entry_bytes <= cmap@.len(),
            ;
        }
        let rgba: [u8; 4] = if entry_size == 15 || entry_size == 16 {
            let v = cmap[off] as u16 + (cmap[off + 1] as u16) * 256;
            expand_a1r5g5b5(v, entry_size)
        } else if entry_size == 24 {
            let e = [cmap[off + 2], cmap[off + 1], cmap[off], 0xFF];
            assert(e@ =~= palette_entry(cmap@, off as int, entry_size));
            e
        } else if entry_size == 32 {
            let e = [cmap[off + 2], cmap[off + 1], cmap[off], cmap[off + 3]];
            assert(e@ =~= palette_entry(cmap@, off as int, entry_size));
            e
        } else {
            let m = str_dec_str("TGA: palette entry size ", entry_size as u32, " bits not supported");
            return Err(TgaError::unsupported_owned(m));
        };
        palette.push(rgba);
        proof {
            assert((i + 1) * entry_bytes == off + entry_bytes) by (nonlinear_arith)
                requires
                    off == i * entry_bytes,
            ;
        }
        i = i + 1;
        off = off + entry_bytes;
    }
    assert(pal_view(palette@) =~= palette_of(cmap@, entry_size));
    Ok(palette)
}

/// Reject pixel depths the chosen image type does not support.
pub(crate) fn validate_depth(image_type: ImageType, depth: u8) -> (r: Result<(), TgaError>)
    ensures
        match r {
            Ok(_) => depth_ok(image_type, depth),
            Err(e) => !depth_ok(image_type, depth) && e.kind() == TgaErrorKind::Unsupported && e.msg()
                == depth_msg(image_type, depth),
        },
{
    let ok = match image_type {
        ImageType::UncompressedColourMapped | ImageType::RleColourMapped => depth == 8,
        ImageType::UncompressedTrueColour | ImageType::RleTrueColour => {
            depth == 15 || depth == 16 || depth == 24 || depth == 32
        },
        ImageType::UncompressedGrayscale | ImageType::RleGrayscale => depth == 8,
        ImageType::NoImageData => false,
    };
    if !ok {
        let mut m = String::from_str("TGA: image type ");
        m.append(image_type_label_str(image_type));
        push_str_dec(&mut m, " with depth ", depth as u32);
        m.append(" not supported");
        assert(m@ =~= depth_msg(image_type, depth));
        return Err(TgaError::unsupported_owned(m));
    }
    Ok(())
}

/// An image type's name as the error messages print it.
fn image_type_label_str(t: ImageType) -> (s: &'static str)
    ensures
        s@ == image_type_label(t),
{
    match t {
        ImageType::NoImageData => "None",
        ImageType::UncompressedColourMapped => "UncompressedColourMapped",
        ImageType::UncompressedTrueColour => "UncompressedTrueColour",
        ImageType::UncompressedGrayscale => "UncompressedGrayscale",
        ImageType::RleColourMapped => "RleColourMapped",
        ImageType::RleTrueColour => "RleTrueColour",
        ImageType::RleGrayscale => "RleGrayscale",
    }
}

/// Append the output bytes of one stored pixel.
fn emit_pixel(
    image_type: ImageType,
    depth: u8,
    cmap_first: u16,
    src: &[u8],
    palette: &Option<Vec<[u8; 4]>>,
    out: &mut Vec<u8>,
) -> (r: Result<(), TgaError>)
    requires
        depth_ok(image_type, depth),
        src@.len() == depth_bytes(depth),
    ensures
        match pixel_out(image_type, depth, cmap_first, src@, opt_pal(*palette)) {
            Option::Some(px) => r is Ok && final(out)@ == old(out)@ + px,
            Option::None => r matches Err(e) && e.kind() == TgaErrorKind::InvalidData && e.msg() == pixel_msg(
                image_type,
                depth,
                cmap_first,
                src@,
                opt_pal(*palette),
            ),
        },
{
    match image_type {
        ImageType::UncompressedColourMapped | ImageType::RleColourMapped => {
            let idx = src[0] as usize;
            match palette {
                Option::Some(p) => {
                    if idx < cmap_first as usize {
                        let mut m = String::new();
                        push_str_dec(&mut m, "TGA: palette index ", src[0] as u32);
                        push_str_dec(&mut m, " below colour-map origin ", cmap_first as u32);
                        assert(m@ =~= pixel_msg(image_type, depth, cmap_first, src@, opt_pal(*palette)));
                        return Err(TgaError::invalid_owned(m));
                    }
                    let entry = idx - cmap_first as usize;
                    if entry >= p.len() {
                        let m = str_dec_str("TGA: palette index ", src[0] as u32, " out of range");
                        return Err(TgaError::invalid_owned(m));
                    }
                    let rgba = p[entry];
                    out.push(rgba[0]);
                    out.push(rgba[1]);
                    out.push(rgba[2]);
                    out.push(rgba[3]);
                    assert(final(out)@ =~= old(out)@ + rgba@);
                },
                Option::None => {
                    return Err(TgaError::invalid("TGA: colour-mapped without palette"));
                },
            }
        },
        ImageType::UncompressedTrueColour | ImageType::RleTrueColour => {
            if depth == 15 || depth == 16 {
                let v = src[0] as u16 + (src[1] as u16) * 256;
                let rgba = expand_a1r5g5b5(v, depth);
                out.push(rgba[0]);
                out.push(rgba[1]);
                out.push(rgba[2]);
                out.push(rgba[3]);
                assert(final(out)@ =~= old(out)@ + rgba@);
            } else if depth == 24 {
                out.push(src[2]);
                out.push(src[1]);
                out.push(src[0]);
                out.push(0xFF);
                assert(final(out)@ =~= old(out)@ + seq![src@[2], src@[1], src@[0], 255u8]);
            } else {
                out.push(src[2]);
                out.push(src[1]);
                out.push(src[0]);
                out.push(src[3]);
                assert(final(out)@ =~= old(out)@ + seq![src@[2], src@[1], src@[0], src@[3]]);
            }
        },
        ImageType::UncompressedGrayscale | ImageType::RleGrayscale => {
            out.push(src[0]);
            assert(final(out)@ =~= old(out)@ + seq![src@[0]]);
        },
        ImageType::NoImageData => {
            return Err(TgaError::invalid("TGA: image_type == 0 reached pixel decoder"));
        },
    }
    Ok(())
}

/// Append the output bytes of `n` consecutive stored pixels.
fn decode_raw_run(
    image_type: ImageType,
    depth: u8,
    cmap_first: u16,
    src: &[u8],
    palette: &Option<Vec<[u8; 4]>>,
    bpp: usize,
    n: usize,
    out: &mut Vec<u8>,
) -> (r: Result<(), TgaError>)
    requires
        depth_ok(image_type, depth),
        bpp == depth_bytes(depth),
        n * bpp <= src@.len(),
    ensures
        match raw_from(image_type, depth, cmap_first, src@, opt_pal(*palette), bpp as nat, n as nat) {
            Option::Some(px) => r is Ok && final(out)@ == old(out)@ + px,
            Option::None => r matches Err(e) && e.kind() == TgaErrorKind::InvalidData && e.msg() == raw_msg(
                image_type,
                depth,
                cmap_first,
                src@,
                opt_pal(*palette),
                bpp as nat,
                n as nat,
            ),
        },
{
    let ghost pal = opt_pal(*palette);
    let ghost whole = raw_from(image_type, depth, cmap_first, src@, pal, bpp as nat, n as nat);
    let mut i: usize = 0;
    let mut cursor: usize = 0;
    assert(src@.skip(0) =~= src@);
    assert(prepend(old(out)@, whole) == prepend(out@, whole));
    while i < n
        invariant
            depth_ok(image_type, depth),
            bpp == depth_bytes(depth),
            n * bpp <= src@.len(),
            src@.len() == src.len(),
            i <= n,
            cursor == i * bpp,
            pal == opt_pal(*palette),
            whole == raw_from(image_type, depth, cmap_first, src@, pal, bpp as nat, n as nat),
            raw_msg(image_type, depth, cmap_first, src@, pal, bpp as nat, n as nat) == raw_msg(
                image_type,
                depth,
                cmap_first,
                src@.skip(cursor as int),
                pal,
                bpp as nat,
                (n - i) as nat,
            ),
            prepend(old(out)@, whole) == prepend(
                out@,
                raw_from(
                    image_type,
                    depth,
                    cmap_first,
                    src@.skip(cursor as int),
                    pal,
                    bpp as nat,
                    (n - i) as nat,
                ),
            ),
        decreases n - i,
    {
        proof {
            assert(cursor + bpp <= n * bpp) by (nonlinear_arith)
                requires
                    cursor == i * bpp,
                    i < n,
            ;
        }
        let ghost rest = src@.skip(cursor as int);
        let px_src = &src[cursor..cursor + bpp];
        assert(px_src@ =~= rest.take(bpp as int));
        let ghost before = out@;
        let res = emit_pixel(image_type, depth, cmap_first, px_src, palette, out);
        if res.is_err() {
            return res;
        }
        proof {
            let px = out@.subrange(before.len() as int, out@.len() as int);
            assert(out@ =~= before + px);
            assert(rest.skip(bpp as int) =~= src@.skip(cursor + bpp));
            lemma_prepend_assoc(
                before,
                px,
                raw_from(
                    image_type,
                    depth,
                    cmap_first,
                    src@.skip(cursor + bpp),
                    pal,
                    bpp as nat,
                    (n - i - 1) as nat,
                ),
            );
            assert((i + 1) * bpp == cursor + bpp) by (nonlinear_arith)
                requires
                    cursor == i * bpp,
            ;
        }
        i = i + 1;
        cursor = cursor + bpp;
    }
    assert(out@ + Seq::<u8>::empty() =~= out@);
    Ok(())
}

/// Decode `pixel_count` uncompressed stored pixels from the front of `input`.
pub(crate) fn decode_raw_pixels(
    image_type: ImageType,
    depth: u8,
    cmap_first: u16,
    input: &[u8],
    palette: &Option<Vec<[u8; 4]>>,
    pixel_count: usize,
) -> (r: Result<Vec<u8>, TgaError>)
    requires
        depth_ok(image_type, depth),
        pixel_count <= 4294836225,
    ensures
        match (if input@.len() < pixel_count * depth_bytes(depth) {
            Option::None
        } else {
            raw_from(
                image_type,
                depth,
                cmap_first,
                input@,
                opt_pal(*palette),
                depth_bytes(depth),
                pixel_count as nat,
            )
        }) {
            Option::Some(px) => r matches Ok(v) && v@ == px,
            Option::None => r matches Err(e) && e.kind() == TgaErrorKind::InvalidData && e.msg() == (
            if input@.len() < pixel_count * depth_bytes(depth) {
                "TGA: pixel data truncated"@
            } else {
                raw_msg(
                    image_type,
                    depth,
                    cmap_first,
                    input@,
                    opt_pal(*palette),
                    depth_bytes(depth),
                    pixel_count as nat,
                )
            }),
        },
{
    let in_bpp = (depth as usize + 7) / 8;
    assert(in_bpp <= 4);
    assert((pixel_count as u64) * (in_bpp as u64) <= 4294836225 * 4) by (nonlinear_arith)
        requires
            pixel_count <= 4294836225,
            in_bpp <= 4,
    ;
    if (input.len() as u64) < (pixel_count as u64) * (in_bpp as u64) {
        return Err(TgaError::invalid("TGA: pixel data truncated"));
    }
    let mut out: Vec<u8> = Vec::new();
    let res = decode_raw_run(image_type, depth, cmap_first, input, palette, in_bpp, pixel_count, &mut out);
    match res {
        Ok(()) => {
            assert(Seq::<u8>::empty() + out@ =~= out@);
            Ok(out)
        },
        Err(e) => Err(e),
    }
}

/// Decode a run-length packet stream until `pixel_count` pixels are out.
#[verifier::rlimit(40)]
pub(crate) fn decode_rle_pixels(
    image_type: ImageType,
    depth: u8,
    cmap_first: u16,
    input: &[u8],
    palette: &Option<Vec<[u8; 4]>>,
    pixel_count: usize,
) -> (r: Result<Vec<u8>, TgaError>)
    requires
        depth_ok(image_type, depth),
        pixel_count <= 4294836225,
    ensures
        match rle_from(
            image_type,
            depth,
            cmap_first,
            input@,
            opt_pal(*palette),
            depth_bytes(depth),
            pixel_count as nat,
        ) {
            Option::Some(px) => r matches Ok(v) && v@ == px,
            Option::None => r matches Err(e) && e.kind() == TgaErrorKind::InvalidData && e.msg() == rle_msg(
                image_type,
                depth,
                cmap_first,
                input@,
                opt_pal(*palette),
                depth_bytes(depth),
                pixel_count as nat,
                pixel_count as nat,
            ),
        },
{
    let ghost pal = opt_pal(*palette);
    let in_bpp = (depth as usize + 7) / 8;
    let ghost bpp = in_bpp as nat;
    let ghost whole = rle_from(image_type, depth, cmap_first, input@, pal, bpp, pixel_count as nat);
    let mut out: Vec<u8> = Vec::new();
    let mut cursor: usize = 0;
    let mut produced: usize = 0;
    assert(input@.skip(0) =~= input@);
    assert(Seq::<u8>::empty() + Seq::<u8>::empty() =~= Seq::<u8>::empty());
    proof {
        if let Option::Some(w) = whole {
            assert(out@ + w =~= w);
        }
    }
    while produced < pixel_count
        invariant
            depth_ok(image_type, depth),
            in_bpp == depth_bytes(depth),
            bpp == in_bpp,
            1 <= in_bpp <= 4,
            pal == opt_pal(*palette),
            input@.len() == input.len(),
            produced <= pixel_count,
            cursor <= input.len(),
            pixel_count <= 4294836225,
            whole == rle_from(image_type, depth, cmap_first, input@, pal, bpp, pixel_count as nat),
            rle_msg(image_type, depth, cmap_first, input@, pal, bpp, pixel_count as nat, pixel_count as nat)
                == rle_msg(
                image_type,
                depth,
                cmap_first,
                input@.skip(cursor as int),
                pal,
                bpp,
                (pixel_count - produced) as nat,
                pixel_count as nat,
            ),
            whole == prepend(
                out@,
                rle_from(
                    image_type,
                    depth,
                    cmap_first,
                    input@.skip(cursor as int),
                    pal,
                    bpp,
                    (pixel_count - produced) as nat,
                ),
            ),
        decreases pixel_count - produced,
    {
        let ghost rest = input@.skip(cursor as int);
        let ghost remaining = (pixel_count - produced) as nat;
        if cursor >= input.len() {
            return Err(TgaError::invalid("TGA: RLE stream truncated (no packet hdr)"));
        }
        let packet = input[cursor];
        assert(rest[0] == packet);
        let count = (packet % 128) as usize + 1;
        if count > pixel_count - produced {
            let mut m = String::new();
            push_str_dec(&mut m, "TGA: RLE packet overruns pixel array (produced=", produced as u32);
            push_str_dec(&mut m, ", packet count=", count as u32);
            push_str_dec(&mut m, ", total=", pixel_count as u32);
            m.append(")");
            assert(m@ =~= rle_msg(image_type, depth, cmap_first, rest, pal, bpp, remaining, pixel_count as nat));
            return Err(TgaError::invalid_owned(m));
        }
        let ghost next_remaining = (remaining - count) as nat;
        if packet >= 128 {
            if input.len() - cursor < 1 + in_bpp {
                return Err(TgaError::invalid("TGA: RLE run packet truncated"));
            }
            let src = &input[cursor + 1..cursor + 1 + in_bpp];
            assert(src@ =~= rest.subrange(1, 1 + bpp as int));
            let mut px: Vec<u8> = Vec::new();
            let res = emit_pixel(image_type, depth, cmap_first, src, palette, &mut px);
            match res {
                Ok(()) => {},
                Err(e) => return Err(e),
            }
            assert(Seq::<u8>::empty() + px@ =~= px@);
            let ghost before = out@;
            push_repeat(&mut out, &px, count);
            proof {
                assert(rest.skip(1 + bpp as int) =~= input@.skip(cursor + 1 + in_bpp));
                lemma_prepend_assoc(
                    before,
                    repeat(px@, count as nat),
                    rle_from(image_type, depth, cmap_first, input@.skip(cursor + 1 + in_bpp), pal, bpp, next_remaining),
                );
            }
            cursor = cursor + 1 + in_bpp;
        } else {
            assert(count * in_bpp <= 512) by (nonlinear_arith)
                requires
                    count <= 128,
                    in_bpp <= 4,
            ;
            if input.len() - cursor < 1 + count * in_bpp {
                return Err(TgaError::invalid("TGA: RLE raw packet truncated"));
            }
            let src = &input[cursor + 1..cursor + 1 + count * in_bpp];
            assert(src@ =~= rest.subrange(1, 1 + (count * bpp) as int));
            let ghost before = out@;
            let res = decode_raw_run(image_type, depth, cmap_first, src, palette, in_bpp, count, &mut out);
            match res {
                Ok(()) => {},
                Err(e) => return Err(e),
            }
            proof {
                let px = out@.subrange(before.len() as int, out@.len() as int);
                assert(out@ =~= before + px);
                assert(rest.skip(1 + (count * bpp) as int) =~= input@.skip(cursor + 1 + count * in_bpp));
                lemma_prepend_assoc(
                    before,
                    px,
                    rle_from(
                        image_type,
                        depth,
                        cmap_first,
                        input@.skip(cursor + 1 + count * in_bpp),
                        pal,
                        bpp,
                        next_remaining,
                    ),
                );
            }
            cursor = cursor + 1 + count * in_bpp;
        }
        produced = produced + count;
    }
    assert(out@ + Seq::<u8>::empty() =~= out@);
    Ok(out)
}

/// Append `count` copies of `px`.
fn push_repeat(out: &mut Vec<u8>, px: &Vec<u8>, count: usize)
    ensures
        final(out)@ == old(out)@ + repeat(px@, count as nat),
{
    let ghost before = out@;
    let mut k: usize = 0;
    assert(before + repeat(px@, 0) =~= before);
    while k < count
        invariant
            k <= count,
            out@ == before + repeat(px@, k as nat),
        decreases count - k,
    {
        let mut j: usize = 0;
        let ghost mid = out@;
        assert(mid + px@.subrange(0, 0) =~= mid);
        while j < px.len()
            invariant
                j <= px@.len(),
                out@ == mid + px@.subrange(0, j as int),
            decreases px@.len() - j,
        {
            out.push(px[j]);
            assert(mid + px@.subrange(0, j as int + 1) =~= (mid + px@.subrange(0, j as int)).push(px@[j as int]));
            j = j + 1;
        }
        assert(px@.subrange(0, px@.len() as int) =~= px@);
        assert(before + repeat(px@, (k + 1) as nat) =~= before + repeat(px@, k as nat) + px@);
        k = k + 1;
    }
}

/// Normalise the pixel array to a top-down, left-to-right origin.
pub(crate) fn reorder_pixels(px: Vec<u8>, w: usize, h: usize, bpp: usize, flip: bool, mirror: bool) -> (out:
    Vec<u8>)
    requires
        w > 0,
        h > 0,
        1 <= bpp <= 4,
        px@.len() == w * h * bpp,
    ensures
        out@ == reorder(px@, w as nat, h as nat, bpp as nat, flip, mirror),
{
    if !flip && !mirror {
        proof {
            lemma_reorder_identity(px@, w as nat, h as nat, bpp as nat);
        }
        return px;
    }
    assert(w * h <= px.len()) by (nonlinear_arith)
        requires
            px@.len() == w * h * bpp,
            bpp >= 1,
            px@.len() == px.len(),
    ;
    let n = w * h;
    let mut out: Vec<u8> = Vec::new();
    let mut p: usize = 0;
    assert(n * bpp == px@.len()) by (nonlinear_arith)
        requires
            n == w * h,
            px@.len() == w * h * bpp,
    ;
    while p < n
        invariant
            w > 0,
            h > 0,
            1 <= bpp <= 4,
            n == w * h,
            n * bpp == px@.len(),
            px@.len() == px.len(),
            p <= n,
            out@.len() == p * bpp,
            forall|j: int|
                0 <= j < out@.len() ==> #[trigger] out@[j] == px@[reorder_src(
                    j,
                    w as nat,
                    h as nat,
                    bpp as nat,
                    flip,
                    mirror,
                )],
        decreases n - p,
    {
        let y = p / w;
        let x = p % w;
        proof {
            vstd::arithmetic::div_mod::lemma_fundamental_div_mod(p as int, w as int);
            assert(y < h) by (nonlinear_arith)
                requires
                    y == p / w,
                    p < w * h,
                    w > 0,
            ;
        }
        let sy = if flip { h - 1 - y } else { y };
        let sx = if mirror { w - 1 - x } else { x };
        let mut b: usize = 0;
        proof {
            lemma_src_index_bound(sy as int, sx as int, 0, w as int, h as int, bpp as int);
        }
        let base = (sy * w + sx) * bpp;
        while b < bpp
            invariant
                w > 0,
                h > 0,
                1 <= bpp <= 4,
                n == w * h,
                n * bpp == px@.len(),
                px@.len() == px.len(),
                p < n,
                y == p / w,
                x == p % w,
                sy == (if flip { h - 1 - y } else { y as int }),
                sx == (if mirror { w - 1 - x } else { x as int }),
                sy < h,
                sx < w,
                base == (sy * w + sx) * bpp,
                b <= bpp,
                out@.len() == p * bpp + b,
                forall|j: int|
                    0 <= j < out@.len() ==> #[trigger] out@[j] == px@[reorder_src(
                        j,
                        w as nat,
                        h as nat,
                        bpp as nat,
                        flip,
                        mirror,
                    )],
            decreases bpp - b,
        {
            proof {
                lemma_src_index_bound(sy as int, sx as int, b as int, w as int, h as int, bpp as int);
                let i = (p * bpp + b) as int;
                vstd::arithmetic::div_mod::lemma_fundamental_div_mod_converse(
                    i,
                    bpp as int,
                    p as int,
                    b as int,
                );
                assert(reorder_src(i, w as nat, h as nat, bpp as nat, flip, mirror) == base + b);
            }
            out.push(px[base + b]);
            b = b + 1;
        }
        proof {
            assert((p + 1) * bpp == p * bpp + bpp) by (nonlinear_arith);
        }
        p = p + 1;
    }
    assert(out@ =~= reorder(px@, w as nat, h as nat, bpp as nat, flip, mirror));
    out
}

/// Walk past the header + Image ID, decode the colour map if
/// `cmap_type == 1`, and return the palette with the offset of the first
/// pixel-data byte.
pub(crate) fn read_palette(input: &[u8], header: &TgaHeader, image_type: ImageType) -> (r: Result<
    (Option<Vec<[u8; 4]>>, usize),
    TgaError,
>)
    ensures
        match spec_read_palette(input@, *header, image_type) {
            Ok((pal, cur)) => r matches Ok((p, c)) && opt_pal(p) == pal && c == cur,
            Err(k) => r matches Err(e) && e.kind() == k && e.msg() == read_palette_msg(
                input@,
                *header,
                image_type,
            ),
        },
{
    let cursor = TGA_HEADER_SIZE + header.id_length as usize;
    if input.len() < cursor {
        return Err(TgaError::invalid("TGA: truncated past image ID"));
    }
    if header.cmap_type == 1 {
        if header.cmap_entry_size == 0 || header.cmap_length == 0 {
            return Err(TgaError::invalid("TGA: cmap_type == 1 but cmap_entry_size / cmap_length == 0"));
        }
        let entry_bytes = (header.cmap_entry_size as usize + 7) / 8;
        assert(entry_bytes <= 32);
        assert(entry_bytes * (header.cmap_length as usize) <= 32 * 65535) by (nonlinear_arith)
            requires
                entry_bytes <= 32,
        ;
        let cmap_bytes = entry_bytes * header.cmap_length as usize;
        if input.len() - cursor < cmap_bytes {
            return Err(TgaError::invalid("TGA: colour map truncated"));
        }
        let cmap = &input[cursor..cursor + cmap_bytes];
        proof {
            vstd::arithmetic::div_mod::lemma_fundamental_div_mod_converse(
                cmap_bytes as int,
                entry_bytes as int,
                header.cmap_length as int,
                0,
            );
            assert(cmap_bytes == (entry_bytes as int) * (header.cmap_length as int)) by {
                vstd::arithmetic::mul::lemma_mul_is_commutative(entry_bytes as int, header.cmap_length as int);
            }
        }
        match decode_palette(cmap, header.cmap_entry_size, entry_bytes) {
            Ok(p) => Ok((Option::Some(p), cursor + cmap_bytes)),
            Err(e) => Err(e),
        }
    } else {
        if image_type.is_colour_mapped() {
            return Err(TgaError::invalid("TGA: colour-mapped image type but cmap_type == 0"));
        }
        Ok((Option::None, cursor))
    }
}

/// Every entry of a decoded palette is four bytes long.
pub(crate) proof fn lemma_pal_entries(p: Option<Vec<[u8; 4]>>)
    ensures
        opt_pal(p) matches Option::Some(q) ==> forall|i: int| 0 <= i < q.len() ==> (#[trigger] q[i]).len() == 4,
{
}

/// Decode a complete TGA file into a [`TgaImage`].
///
/// Always produces a top-down, left-to-right image; bottom-up files
/// (the common case) are flipped and right-to-left files mirrored. Output
/// pixel format is `Rgba` for types 1/2/9/10 and `Gray8` for types 3/11.
pub fn parse_tga(input: &[u8]) -> (r: Result<TgaImage, TgaError>)
    ensures
        match spec_parse_tga(input@) {
            Ok(m) => r matches Ok(img) && img.model() == m && img.pts is None,
            Err(k) => r matches Err(e) && e.kind() == k && e.msg() == spec_parse_tga_msg(input@),
        },
{
    let header = match parse_header(input) {
        Option::Some(h) => h,
        Option::None => return Err(TgaError::invalid("TGA: header truncated")),
    };
    let image_type = match ImageType::from_u8(header.image_type_raw) {
        Option::Some(t) => t,
        Option::None => {
            let m = str_dec_str("TGA: image type ", header.image_type_raw as u32, " not supported");
            return Err(TgaError::unsupported_owned(m));
        },
    };
    if matches!(image_type, ImageType::NoImageData) {
        return Err(TgaError::invalid("TGA: image_type == 0 (no image data)"));
    }
    if header.width == 0 || header.height == 0 {
        return Err(TgaError::invalid("TGA: zero dimension"));
    }
    let (palette, cursor) = match read_palette(input, &header, image_type) {
        Ok(pc) => pc,
        Err(e) => return Err(e),
    };
    match validate_depth(image_type, header.depth) {
        Ok(()) => {},
        Err(e) => return Err(e),
    }
    let width = header.width as usize;
    let height = header.height as usize;
    assert(width * height <= 4294836225) by (nonlinear_arith)
        requires
            width <= 65535,
            height <= 65535,
    ;
    let pixel_count = width * height;
    let body = &input[cursor..input.len()];
    assert(body@ =~= input@.skip(cursor as int));
    let pixels = if image_type.is_rle() {
        decode_rle_pixels(image_type, header.depth, header.cmap_first, body, &palette, pixel_count)
    } else {
        decode_raw_pixels(image_type, header.depth, header.cmap_first, body, &palette, pixel_count)
    };
    let pixels = match pixels {
        Ok(p) => p,
        Err(e) => return Err(e),
    };
    let bpp: usize = if image_type.is_grayscale() { 1 } else { 4 };
    proof {
        lemma_pal_entries(palette);
        let bb = depth_bytes(header.depth);
        let pal = opt_pal(palette);
        if image_type.is_rle() {
            lemma_rle_from_len(image_type, header.depth, header.cmap_first, body@, pal, bb, pixel_count as nat);
        } else {
            lemma_raw_from_len(image_type, header.depth, header.cmap_first, body@, pal, bb, pixel_count as nat);
        }
        assert(pixel_count * bpp == width * height * bpp);
    }
    let data = reorder_pixels(pixels, width, height, bpp, !header.is_top_down(), header.is_right_to_left());
    let pixel_format = if image_type.is_grayscale() {
        TgaPixelFormat::Gray8
    } else {
        TgaPixelFormat::Rgba
    };
    Ok(TgaImage { width: header.width as u32, height: header.height as u32, pixel_format, data, pts: None })
}

} // verus!
