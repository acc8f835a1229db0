//! TGA encode: uncompressed and run-length true-colour (types 2 / 10),
//! grayscale (types 3 / 11) and colour-mapped (types 1 / 9) writers.
//! Every writer emits a top-down image (descriptor bit 5 set).
use vstd::prelude::*;
use crate::encode_spec::{
    entry_ser, lemma_pal_index_unique, lemma_palette_prefix, lemma_palette_props, no_dups,
    pack555, pal_index, palette_build, palette_indices, spec_encode_palette, grid,
    byte_rows, gray_to_rgba, has_translucent, lemma_rle_rows_step, pixel3, pixel4, pixels3,
    pixels4, rgb_rows, rgb_to_rgba, rgba_rows, spec_encode_grayscale, spec_encode_rgb24,
    spec_encode_truecolour, truecolour_header, written_header,
};
use crate::decode_spec::lemma_src_index_bound;
use crate::error::{TgaError, TgaErrorKind};
use crate::image::{TgaImage, TgaPixelFormat};
use crate::rle_encode::{
    px4_eq, lemma_ser_all_bytes, lemma_ser_all_step, rle_one_row, rle_one_row_rgb24, rle_one_row_u8,
    write_pixel, write_pixel3,
};
use crate::rle_spec::{rle_rows, ser_all, ser_bgr, ser_bgra, ser_byte};
use crate::types::{push_u16_le, ColorMapEntrySize, ImageType, TgaHeader};

verus! {

/// Append the 18 on-disk bytes of a header.
pub fn write_header(out: &mut Vec<u8>, h: &TgaHeader)
    ensures
        final(out)@ == old(out)@ + h.spec_bytes(),
{
    out.push(h.id_length);
    out.push(h.cmap_type);
    out.push(h.image_type_raw);
    push_u16_le(out, h.cmap_first);
    push_u16_le(out, h.cmap_length);
    out.push(h.cmap_entry_size);
    push_u16_le(out, h.x_origin);
    push_u16_le(out, h.y_origin);
    push_u16_le(out, h.width);
    push_u16_le(out, h.height);
    out.push(h.depth);
    out.push(h.descriptor);
    assert(final(out)@ =~= old(out)@ + h.spec_bytes());
}

/// `true` when any complete pixel has alpha below `0xFF` (so the output
/// needs 32 bpp); an input length that isn't a multiple of 4 is rejected.
fn pick_output_depth(rgba: &[u8]) -> (r: Result<bool, TgaError>)
    ensures
        match r {
            Ok(a) => rgba@.len() % 4 == 0 && a == has_translucent(rgba@),
            Err(e) => rgba@.len() % 4 != 0 && e.kind() == TgaErrorKind::InvalidData,
        },
{
    if rgba.len() % 4 != 0 {
        return Err(TgaError::invalid("TGA encoder: input length not multiple of 4"));
    }
    let n = rgba.len() / 4;
    let mut p: usize = 0;
    while p < n
        invariant
            n == rgba@.len() / 4,
            rgba@.len() % 4 == 0,
            4 * n <= rgba.len(),
            p <= n,
            forall|q: int| 0 <= q < p ==> #[trigger] rgba@[4 * q + 3] == 255,
        decreases n - p,
    {
        if rgba[4 * p + 3] != 0xFF {
            proof {
                let pp = p as int;
                assert(0 <= pp < rgba@.len() / 4 && rgba@[4 * pp + 3] != 255);
                assert(has_translucent(rgba@));
            }
            return Ok(true);
        }
        p = p + 1;
    }
    Ok(false)
}

/// `width × height × bpp` without overflow.
fn area_bytes(width: u16, height: u16, bpp: u64) -> (r: u64)
    requires
        bpp <= 4,
    ensures
        r == (width as int) * (height as int) * (bpp as int),
{
    assert((width as u64) * (height as u64) <= 65535 * 65535) by (nonlinear_arith)
        requires
            width <= 65535,
            height <= 65535,
    ;
    assert((width as u64) * (height as u64) * bpp <= 65535 * 65535 * 4) by (nonlinear_arith)
        requires
            (width as u64) * (height as u64) <= 65535 * 65535,
            bpp <= 4,
    ;
    (width as u64) * (height as u64) * bpp
}

fn truecolour_header_exec(t: ImageType, width: u16, height: u16, translucent: bool) -> (h: TgaHeader)
    ensures
        h == truecolour_header(t, width, height, translucent),
{
    TgaHeader {
        id_length: 0,
        cmap_type: 0,
        image_type_raw: t.as_u8(),
        cmap_first: 0,
        cmap_length: 0,
        cmap_entry_size: 0,
        x_origin: 0,
        y_origin: 0,
        width,
        height,
        depth: if translucent { 32 } else { 24 },
        descriptor: if translucent { 0x28 } else { 0x20 },
    }
}

/// Encode `width × height` RGBA bytes (4 bytes per pixel, top-down,
/// row-major) into an uncompressed TGA file (image type 2). Output depth
/// is 32 bpp if any input alpha byte is `< 0xFF`, otherwise 24 bpp.
pub fn encode_tga_uncompressed(width: u16, height: u16, rgba: &[u8]) -> (r: Result<Vec<u8>, TgaError>)
    ensures
        match spec_encode_truecolour(width, height, rgba@, false) {
            Ok(b) => r matches Ok(v) && v@ == b,
            Err(k) => r matches Err(e) && e.kind() == k,
        },
{
    let translucent = match pick_output_depth(rgba) {
        Ok(a) => a,
        Err(e) => return Err(e),
    };
    if (rgba.len() as u64) < area_bytes(width, height, 4) {
        return Err(TgaError::invalid("TGA encoder: input shorter than w*h*4"));
    }
    let n = width as usize * height as usize;
    let mut out: Vec<u8> = Vec::new();
    let hdr = truecolour_header_exec(ImageType::UncompressedTrueColour, width, height, translucent);
    write_header(&mut out, &hdr);
    let ghost ser = ser_bgra(translucent);
    let ghost pix = pixels4(rgba@, n as nat);
    let ghost head = out@;
    let mut k: usize = 0;
    assert(pix.subrange(0, 0) =~= Seq::<[u8; 4]>::empty());
    assert(out@ =~= head + ser_all(pix.subrange(0, 0), ser));
    while k < n
        invariant
            n == width * height,
            4 * n <= rgba@.len(),
            rgba@.len() == rgba.len(),
            k <= n,
            ser == ser_bgra(translucent),
            pix == pixels4(rgba@, n as nat),
            out@ == head + ser_all(pix.subrange(0, k as int), ser),
        decreases n - k,
    {
        let p = [rgba[4 * k], rgba[4 * k + 1], rgba[4 * k + 2], rgba[4 * k + 3]];
        assert(p =~= pixel4(rgba@, k as int));
        write_pixel(&p, translucent, &mut out);
        proof {
            lemma_ser_all_step(pix, 0, k as int, ser);
        }
        k = k + 1;
    }
    assert(pix.subrange(0, n as int) =~= pix);
    Ok(out)
}

/// Encode `width × height` RGBA bytes into an RLE TGA file (image type
/// 10). Output depth is 32 bpp if any input alpha byte is `< 0xFF`,
/// otherwise 24 bpp. Packets never cross a row boundary.
pub fn encode_tga_rle(width: u16, height: u16, rgba: &[u8]) -> (r: Result<Vec<u8>, TgaError>)
    ensures
        match spec_encode_truecolour(width, height, rgba@, true) {
            Ok(b) => r matches Ok(v) && v@ == b,
            Err(k) => r matches Err(e) && e.kind() == k,
        },
{
    let translucent = match pick_output_depth(rgba) {
        Ok(a) => a,
        Err(e) => return Err(e),
    };
    if (rgba.len() as u64) < area_bytes(width, height, 4) {
        return Err(TgaError::invalid("TGA encoder: input shorter than w*h*4"));
    }
    let w = width as usize;
    let h = height as usize;
    let mut out: Vec<u8> = Vec::new();
    let hdr = truecolour_header_exec(ImageType::RleTrueColour, width, height, translucent);
    write_header(&mut out, &hdr);
    let ghost ser = ser_bgra(translucent);
    let ghost rows = rgba_rows(rgba@, w as nat, h as nat);
    let ghost head = out@;
    assert(rows.take(0) =~= Seq::<Seq<[u8; 4]>>::empty());
    assert(out@ =~= head + rle_rows(rows.take(0), ser));
    let mut y: usize = 0;
    while y < h
        invariant
            w == width,
            h == height,
            w * h * 4 <= rgba@.len(),
            rgba@.len() == rgba.len(),
            y <= h,
            ser == ser_bgra(translucent),
            rows == rgba_rows(rgba@, w as nat, h as nat),
            out@ == head + rle_rows(rows.take(y as int), ser),
        decreases h - y,
    {
        let mut row: Vec<[u8; 4]> = Vec::new();
        let mut x: usize = 0;
        proof {
            if w > 0 {
                lemma_src_index_bound(y as int, 0, 0, w as int, h as int, 4);
            } else {
                assert(y * w == 0) by (nonlinear_arith) requires w == 0;
            }
        }
        let base = y * w;
        while x < w
            invariant
                w == width,
                h == height,
                y < h,
                base == y * w,
                w * h * 4 <= rgba@.len(),
                rgba@.len() == rgba.len(),
                x <= w,
                row@ =~= Seq::new(x as nat, |j: int| pixel4(rgba@, y * w + j)),
            decreases w - x,
        {
            proof {
                lemma_src_index_bound(y as int, x as int, 3, w as int, h as int, 4);
            }
            let off = (base + x) * 4;
            row.push([rgba[off], rgba[off + 1], rgba[off + 2], rgba[off + 3]]);
            assert(row@[x as int] =~= pixel4(rgba@, y * w + x));
            x = x + 1;
        }
        assert(row@ =~= rows[y as int]);
        rle_one_row(row.as_slice(), translucent, &mut out);
        proof {
            lemma_rle_rows_step(rows, y as int, ser);
        }
        y = y + 1;
    }
    assert(rows.take(h as int) =~= rows);
    Ok(out)
}

/// Encode `width × height` RGB24 bytes (3 bytes per pixel, top-down,
/// row-major) into an uncompressed TGA file (image type 2) at 24 bpp.
pub fn encode_tga_uncompressed_rgb24(width: u16, height: u16, rgb: &[u8]) -> (r: Result<Vec<u8>, TgaError>)
    ensures
        match spec_encode_rgb24(width, height, rgb@, false) {
            Ok(b) => r matches Ok(v) && v@ == b,
            Err(k) => r matches Err(e) && e.kind() == k,
        },
{
    if rgb.len() % 3 != 0 {
        return Err(TgaError::invalid("TGA encoder: rgb input length not multiple of 3"));
    }
    if (rgb.len() as u64) < area_bytes(width, height, 3) {
        return Err(TgaError::invalid("TGA encoder: rgb input shorter than w*h*3"));
    }
    let n = width as usize * height as usize;
    let mut out: Vec<u8> = Vec::new();
    let hdr = truecolour_header_exec(ImageType::UncompressedTrueColour, width, height, false);
    write_header(&mut out, &hdr);
    let ghost ser = ser_bgr();
    let ghost pix = pixels3(rgb@, n as nat);
    let ghost head = out@;
    let mut k: usize = 0;
    assert(pix.subrange(0, 0) =~= Seq::<[u8; 3]>::empty());
    assert(out@ =~= head + ser_all(pix.subrange(0, 0), ser));
    while k < n
        invariant
            n == width * height,
            3 * n <= rgb@.len(),
            rgb@.len() == rgb.len(),
            k <= n,
            ser == ser_bgr(),
            pix == pixels3(rgb@, n as nat),
            out@ == head + ser_all(pix.subrange(0, k as int), ser),
        decreases n - k,
    {
        let p = [rgb[3 * k], rgb[3 * k + 1], rgb[3 * k + 2]];
        assert(p =~= pixel3(rgb@, k as int));
        write_pixel3(&p, &mut out);
        proof {
            lemma_ser_all_step(pix, 0, k as int, ser);
        }
        k = k + 1;
    }
    assert(pix.subrange(0, n as int) =~= pix);
    Ok(out)
}

/// Encode `width × height` RGB24 bytes into an RLE TGA file (image type
/// 10) at 24 bpp.
pub fn encode_tga_rle_rgb24(width: u16, height: u16, rgb: &[u8]) -> (r: Result<Vec<u8>, TgaError>)
    ensures
        match spec_encode_rgb24(width, height, rgb@, true) {
            Ok(b) => r matches Ok(v) && v@ == b,
            Err(k) => r matches Err(e) && e.kind() == k,
        },
{
    if rgb.len() % 3 != 0 {
        return Err(TgaError::invalid("TGA encoder: rgb input length not multiple of 3"));
    }
    if (rgb.len() as u64) < area_bytes(width, height, 3) {
        return Err(TgaError::invalid("TGA encoder: rgb input shorter than w*h*3"));
    }
    let w = width as usize;
    let h = height as usize;
    let mut out: Vec<u8> = Vec::new();
    let hdr = truecolour_header_exec(ImageType::RleTrueColour, width, height, false);
    write_header(&mut out, &hdr);
    let ghost ser = ser_bgr();
    let ghost rows = rgb_rows(rgb@, w as nat, h as nat);
    let ghost head = out@;
    assert(rows.take(0) =~= Seq::<Seq<[u8; 3]>>::empty());
    assert(out@ =~= head + rle_rows(rows.take(0), ser));
    let mut y: usize = 0;
    while y < h
        invariant
            w == width,
            h == height,
            w * h * 3 <= rgb@.len(),
            rgb@.len() == rgb.len(),
            y <= h,
            ser == ser_bgr(),
            rows == rgb_rows(rgb@, w as nat, h as nat),
            out@ == head + rle_rows(rows.take(y as int), ser),
        decreases h - y,
    {
        let mut row: Vec<[u8; 3]> = Vec::new();
        let mut x: usize = 0;
        proof {
            if w > 0 {
                lemma_src_index_bound(y as int, 0, 0, w as int, h as int, 3);
            } else {
                assert(y * w == 0) by (nonlinear_arith) requires w == 0;
            }
        }
        let base = y * w;
        while x < w
            invariant
                w == width,
                h == height,
                y < h,
                base == y * w,
                w * h * 3 <= rgb@.len(),
                rgb@.len() == rgb.len(),
                x <= w,
                row@ =~= Seq::new(x as nat, |j: int| pixel3(rgb@, y * w + j)),
            decreases w - x,
        {
            proof {
                lemma_src_index_bound(y as int, x as int, 2, w as int, h as int, 3);
            }
            let off = (base + x) * 3;
            row.push([rgb[off], rgb[off + 1], rgb[off + 2]]);
            assert(row@[x as int] =~= pixel3(rgb@, y * w + x));
            x = x + 1;
        }
        assert(row@ =~= rows[y as int]);
        rle_one_row_rgb24(row.as_slice(), &mut out);
        proof {
            lemma_rle_rows_step(rows, y as int, ser);
        }
        y = y + 1;
    }
    assert(rows.take(h as int) =~= rows);
    Ok(out)
}

/// Encode `width × height` Gray8 bytes (1 byte per pixel, top-down,
/// row-major) into an uncompressed grayscale TGA file (image type 3).
pub fn encode_tga_grayscale(width: u16, height: u16, gray: &[u8]) -> (r: Result<Vec<u8>, TgaError>)
    ensures
        match spec_encode_grayscale(width, height, gray@, false) {
            Ok(b) => r matches Ok(v) && v@ == b,
            Err(k) => r matches Err(e) && e.kind() == k,
        },
{
    encode_grayscale_inner(width, height, gray, false)
}

/// Encode `width × height` Gray8 bytes into an RLE grayscale TGA file
/// (image type 11).
pub fn encode_tga_grayscale_rle(width: u16, height: u16, gray: &[u8]) -> (r: Result<Vec<u8>, TgaError>)
    ensures
        match spec_encode_grayscale(width, height, gray@, true) {
            Ok(b) => r matches Ok(v) && v@ == b,
            Err(k) => r matches Err(e) && e.kind() == k,
        },
{
    encode_grayscale_inner(width, height, gray, true)
}

fn encode_grayscale_inner(width: u16, height: u16, gray: &[u8], rle: bool) -> (r: Result<Vec<u8>, TgaError>)
    ensures
        match spec_encode_grayscale(width, height, gray@, rle) {
            Ok(b) => r matches Ok(v) && v@ == b,
            Err(k) => r matches Err(e) && e.kind() == k,
        },
{
    if (gray.len() as u64) < area_bytes(width, height, 1) {
        return Err(TgaError::invalid("TGA grayscale encoder: input shorter than w*h"));
    }
    let image_type = if rle { ImageType::RleGrayscale } else { ImageType::UncompressedGrayscale };
    let hdr = TgaHeader {
        id_length: 0,
        cmap_type: 0,
        image_type_raw: image_type.as_u8(),
        cmap_first: 0,
        cmap_length: 0,
        cmap_entry_size: 0,
        x_origin: 0,
        y_origin: 0,
        width,
        height,
        depth: 8,
        descriptor: 0x20,
    };
    assert(hdr == written_header(image_type, 0, 0, 0, width, height, 8, 0x20));
    let mut out: Vec<u8> = Vec::new();
    write_header(&mut out, &hdr);
    let ghost head = out@;
    let w = width as usize;
    let h = height as usize;
    if rle {
        let ghost ser = ser_byte();
        let ghost rows = byte_rows(gray@, w as nat, h as nat);
        assert(rows.take(0) =~= Seq::<Seq<u8>>::empty());
        assert(out@ =~= head + rle_rows(rows.take(0), ser));
        let mut y: usize = 0;
        while y < h
            invariant
                w == width,
                h == height,
                w * h <= gray@.len(),
                gray@.len() == gray.len(),
                y <= h,
                ser == ser_byte(),
                rows == byte_rows(gray@, w as nat, h as nat),
                out@ == head + rle_rows(rows.take(y as int), ser),
            decreases h - y,
        {
            proof {
                if w > 0 {
                    lemma_src_index_bound(y as int, w - 1, 0, w as int, h as int, 1);
                } else {
                    assert(y * w == 0) by (nonlinear_arith) requires w == 0;
                }
            }
            let base = y * w;
            let row = &gray[base..base + w];
            assert(row@ =~= rows[y as int]);
            rle_one_row_u8(row, &mut out);
            proof {
                lemma_rle_rows_step(rows, y as int, ser);
            }
            y = y + 1;
        }
        assert(rows.take(h as int) =~= rows);
    } else {
        let n = w * h;
        let mut k: usize = 0;
        while k < n
            invariant
                n == width * height,
                n <= gray@.len(),
                gray@.len() == gray.len(),
                k <= n,
                out@ == head + gray@.take(k as int),
            decreases n - k,
        {
            out.push(gray[k]);
            assert(gray@.take(k + 1) =~= gray@.take(k as int).push(gray@[k as int]));
            k = k + 1;
        }
    }
    Ok(out)
}

/// Flatten any image layout to RGBA (alpha `0xFF` where the layout has none).
fn to_rgba(image: &TgaImage) -> (out: Vec<u8>)
    ensures
        out@ == spec_to_rgba(image.pixel_format, image.data@),
{
    match image.pixel_format {
        TgaPixelFormat::Rgba => image.data.clone(),
        TgaPixelFormat::Rgb24 => {
            let n = image.data.len() / 3;
            let ghost pix = pixels3(image.data@, n as nat);
            let mut out: Vec<u8> = Vec::new();
            let mut k: usize = 0;
            assert(pix.subrange(0, 0) =~= Seq::<[u8; 3]>::empty());
            assert(out@ =~= ser_all(pix.subrange(0, 0), rgb_to_rgba()));
            while k < n
                invariant
                    n == image.data@.len() / 3,
                    3 * n <= image.data.len(),
                    k <= n,
                    pix == pixels3(image.data@, n as nat),
                    out@ == ser_all(pix.subrange(0, k as int), rgb_to_rgba()),
                decreases n - k,
            {
                let p = [image.data[3 * k], image.data[3 * k + 1], image.data[3 * k + 2]];
                assert(p =~= pixel3(image.data@, k as int));
                out.push(p[0]);
                out.push(p[1]);
                out.push(p[2]);
                out.push(0xFF);
                proof {
                    lemma_ser_all_step(pix, 0, k as int, rgb_to_rgba());
                    assert(out@ =~= ser_all(pix.subrange(0, k + 1), rgb_to_rgba()));
                }
                k = k + 1;
            }
            assert(pix.subrange(0, n as int) =~= pix);
            out
        },
        TgaPixelFormat::Gray8 => {
            let n = image.data.len();
            let mut out: Vec<u8> = Vec::new();
            let mut k: usize = 0;
            assert(image.data@.subrange(0, 0) =~= Seq::<u8>::empty());
            assert(out@ =~= ser_all(image.data@.subrange(0, 0), gray_to_rgba()));
            while k < n
                invariant
                    n == image.data@.len(),
                    k <= n,
                    out@ == ser_all(image.data@.subrange(0, k as int), gray_to_rgba()),
                decreases n - k,
            {
                let g = image.data[k];
                out.push(g);
                out.push(g);
                out.push(g);
                out.push(0xFF);
                proof {
                    lemma_ser_all_step(image.data@, 0, k as int, gray_to_rgba());
                    assert(out@ =~= ser_all(image.data@.subrange(0, k + 1), gray_to_rgba()));
                }
                k = k + 1;
            }
            assert(image.data@.subrange(0, n as int) =~= image.data@);
            out
        },
    }
}

/// The RGBA bytes of an image in any layout.
pub open spec fn spec_to_rgba(f: TgaPixelFormat, d: Seq<u8>) -> Seq<u8> {
    match f {
        TgaPixelFormat::Rgba => d,
        TgaPixelFormat::Rgb24 => ser_all(pixels3(d, d.len() / 3), rgb_to_rgba()),
        TgaPixelFormat::Gray8 => ser_all(d, gray_to_rgba()),
    }
}

/// [`encode_tga_uncompressed`] of a [`TgaImage`] in any layout (width and
/// height taken modulo 2^16, as the header fields are 16-bit).
pub fn encode_tga_uncompressed_image(image: &TgaImage) -> (r: Result<Vec<u8>, TgaError>)
    ensures
        match spec_encode_truecolour(
            image.width as u16,
            image.height as u16,
            spec_to_rgba(image.pixel_format, image.data@),
            false,
        ) {
            Ok(b) => r matches Ok(v) && v@ == b,
            Err(k) => r matches Err(e) && e.kind() == k,
        },
{
    let rgba = to_rgba(image);
    encode_tga_uncompressed(image.width as u16, image.height as u16, rgba.as_slice())
}

/// [`encode_tga_rle`] of a [`TgaImage`] in any layout.
pub fn encode_tga_rle_image(image: &TgaImage) -> (r: Result<Vec<u8>, TgaError>)
    ensures
        match spec_encode_truecolour(
            image.width as u16,
            image.height as u16,
            spec_to_rgba(image.pixel_format, image.data@),
            true,
        ) {
            Ok(b) => r matches Ok(v) && v@ == b,
            Err(k) => r matches Err(e) && e.kind() == k,
        },
{
    let rgba = to_rgba(image);
    encode_tga_rle(image.width as u16, image.height as u16, rgba.as_slice())
}


/// Append the on-disk bytes of one colour-map entry.
fn push_colour_map_entry(out: &mut Vec<u8>, c: [u8; 4], entry: ColorMapEntrySize)
    ensures
        final(out)@ == old(out)@ + (entry_ser(entry))(c),
{
    match entry {
        ColorMapEntrySize::Bits24 => {
            out.push(c[2]);
            out.push(c[1]);
            out.push(c[0]);
        },
        ColorMapEntrySize::Bits32 => {
            out.push(c[2]);
            out.push(c[1]);
            out.push(c[0]);
            out.push(c[3]);
        },
        ColorMapEntrySize::Bits15 | ColorMapEntrySize::Bits16 => {
            let r5 = (c[0] / 8) as u16;
            let g5 = (c[1] / 8) as u16;
            let b5 = (c[2] / 8) as u16;
            let mut v: u16 = r5 * 1024 + g5 * 32 + b5;
            let alpha_bit = match entry {
                ColorMapEntrySize::Bits16 => true,
                _ => false,
            };
            if alpha_bit && c[3] >= 0x80 {
                v = v + 32768;
            }
            assert(v == pack555(c, alpha_bit));
            push_u16_le(out, v);
        },
    }
    assert(final(out)@ =~= old(out)@ + (entry_ser(entry))(c));
}

#[verifier::rlimit(40)]
fn encode_palette_inner(
    width: u16,
    height: u16,
    rgba: &[u8],
    image_type: ImageType,
    entry_size: Option<ColorMapEntrySize>,
) -> (r: Result<Vec<u8>, TgaError>)
    ensures
        match spec_encode_palette(width, height, rgba@, image_type, entry_size) {
            Ok(b) => r matches Ok(v) && v@ == b,
            Err(k) => r matches Err(e) && e.kind() == k,
        },
{
    if rgba.len() % 4 != 0 {
        return Err(TgaError::invalid("TGA encoder: palette input length not multiple of 4"));
    }
    if (rgba.len() as u64) < area_bytes(width, height, 4) {
        return Err(TgaError::invalid("TGA palette encoder: input shorter than w*h*4"));
    }
    let n = width as usize * height as usize;
    let ghost pix = pixels4(rgba@, n as nat);
    let mut palette: Vec<[u8; 4]> = Vec::new();
    let mut indices: Vec<u8> = Vec::new();
    let mut k: usize = 0;
    assert(pix.take(0) =~= Seq::<[u8; 4]>::empty());
    while k < n
        invariant
            n == width * height,
            4 * n <= rgba@.len(),
            rgba@.len() % 4 == 0,
            rgba@.len() == rgba.len(),
            k <= n,
            pix == pixels4(rgba@, n as nat),
            palette@ == palette_build(pix.take(k as int)),
            no_dups(palette@),
            palette@.len() <= 256,
            indices@.len() == k,
            forall|m: int| 0 <= m < k ==> palette@.contains(#[trigger] pix[m]),
            forall|m: int|
                0 <= m < k ==> #[trigger] indices@[m] == pal_index(palette@, pix[m]) as u8 && pal_index(
                    palette@,
                    pix[m],
                ) < palette@.len(),
        decreases n - k,
    {
        let p = [rgba[4 * k], rgba[4 * k + 1], rgba[4 * k + 2], rgba[4 * k + 3]];
        assert(p =~= pix[k as int]);
        let mut j: usize = 0;
        while j < palette.len() && !px4_eq(palette[j], p)
            invariant
                j <= palette@.len(),
                forall|i: int| 0 <= i < j ==> palette@[i] != p,
            decreases palette@.len() - j,
        {
            j = j + 1;
        }
        let ghost old_pal = palette@;
        proof {
            assert(pix.take(k + 1).drop_last() =~= pix.take(k as int));
            assert(pix.take(k + 1).last() == p);
        }
        if j < palette.len() {
            proof {
                assert(old_pal.contains(p));
                lemma_pal_index_unique(old_pal, p, j as int);
            }
            indices.push(j as u8);
        } else {
            proof {
                assert(!old_pal.contains(p));
            }
            if palette.len() == 256 {
                proof {
                    assert(palette_build(pix.take(k + 1)) == old_pal.push(p));
                    lemma_palette_prefix(pix, k + 1);
                    assert(palette_build(pix).len() > 256);
                }
                return Err(TgaError::unsupported(
                    "TGA palette encoder: input has > 256 unique RGBA colours (use encode_tga_uncompressed/encode_tga_rle for true-colour)",
                ));
            }
            palette.push(p);
            proof {
                assert forall|m: int| 0 <= m < k implies #[trigger] indices@[m] == pal_index(palette@, pix[m]) as u8
                    && pal_index(palette@, pix[m]) < palette@.len() by {
                    let i0 = pal_index(old_pal, pix[m]);
                    assert(old_pal.contains(pix[m]));
                    assert(0 <= i0 < old_pal.len() && old_pal[i0] == pix[m]);
                    assert(palette@[i0] == pix[m]);
                    lemma_palette_props(pix.take(k + 1));
                    lemma_pal_index_unique(palette@, pix[m], i0);
                }
                lemma_palette_props(pix.take(k + 1));
                lemma_pal_index_unique(palette@, p, old_pal.len() as int);
            }
            indices.push((palette.len() - 1) as u8);
        }
        proof {
            lemma_palette_props(pix.take(k + 1));
            assert forall|m: int| 0 <= m < k + 1 implies palette@.contains(#[trigger] pix[m]) by {
                assert(pix.take(k + 1)[m] == pix[m]);
            }
        }
        k = k + 1;
    }
    proof {
        assert(pix.take(n as int) =~= pix);
        assert(indices@ =~= palette_indices(pix));
    }
    let entry = match entry_size {
        Option::Some(e) => e,
        Option::None => ColorMapEntrySize::smallest_lossless_for(palette.as_slice()),
    };
    let hdr = TgaHeader {
        id_length: 0,
        cmap_type: 1,
        image_type_raw: image_type.as_u8(),
        cmap_first: 0,
        cmap_length: palette.len() as u16,
        cmap_entry_size: entry.bits(),
        x_origin: 0,
        y_origin: 0,
        width,
        height,
        depth: 8,
        descriptor: 0x20,
    };
    let mut out: Vec<u8> = Vec::new();
    write_header(&mut out, &hdr);
    let ghost head = out@;
    let mut i: usize = 0;
    assert(palette@.subrange(0, 0) =~= Seq::<[u8; 4]>::empty());
    assert(out@ =~= head + ser_all(palette@.subrange(0, 0), entry_ser(entry)));
    while i < palette.len()
        invariant
            i <= palette@.len(),
            out@ == head + ser_all(palette@.subrange(0, i as int), entry_ser(entry)),
        decreases palette@.len() - i,
    {
        push_colour_map_entry(&mut out, palette[i], entry);
        proof {
            lemma_ser_all_step(palette@, 0, i as int, entry_ser(entry));
        }
        i = i + 1;
    }
    assert(palette@.subrange(0, palette@.len() as int) =~= palette@);
    let ghost mid = out@;
    let w = width as usize;
    let h = height as usize;
    if image_type.is_rle() {
        let ghost idx = indices@;
        let ghost rows = grid(|q: int| idx[q], w as nat, h as nat);
        assert(rows.take(0) =~= Seq::<Seq<u8>>::empty());
        assert(out@ =~= mid + rle_rows(rows.take(0), ser_byte()));
        let mut y: usize = 0;
        while y < h
            invariant
                w == width,
                h == height,
                w * h == indices@.len(),
                indices@.len() == indices.len(),
                idx == indices@,
                y <= h,
                rows == grid(|q: int| idx[q], w as nat, h as nat),
                out@ == mid + rle_rows(rows.take(y as int), ser_byte()),
            decreases h - y,
        {
            proof {
                if w > 0 {
                    lemma_src_index_bound(y as int, w - 1, 0, w as int, h as int, 1);
                } else {
                    assert(y * w == 0) by (nonlinear_arith) requires w == 0;
                }
            }
            let base = y * w;
            let row = &indices.as_slice()[base..base + w];
            assert(row@ =~= rows[y as int]);
            rle_one_row_u8(row, &mut out);
            proof {
                lemma_rle_rows_step(rows, y as int, ser_byte());
            }
            y = y + 1;
        }
        assert(rows.take(h as int) =~= rows);
    } else {
        let mut q: usize = 0;
        while q < indices.len()
            invariant
                q <= indices@.len(),
                out@ == mid + indices@.take(q as int),
            decreases indices@.len() - q,
        {
            out.push(indices[q]);
            assert(indices@.take(q + 1) =~= indices@.take(q as int).push(indices@[q as int]));
            q = q + 1;
        }
        assert(indices@.take(indices@.len() as int) =~= indices@);
    }
    Ok(out)
}

/// Encode `width × height` RGBA bytes into an uncompressed colour-mapped
/// TGA file (image type 1) with 8-bit indices. The colour-map entry size
/// is the narrowest lossless one (24-bit for an opaque palette, else
/// 32-bit). More than 256 distinct colours is `Unsupported`.
pub fn encode_tga_palette(width: u16, height: u16, rgba: &[u8]) -> (r: Result<Vec<u8>, TgaError>)
    ensures
        match spec_encode_palette(width, height, rgba@, ImageType::UncompressedColourMapped, Option::None) {
            Ok(b) => r matches Ok(v) && v@ == b,
            Err(k) => r matches Err(e) && e.kind() == k,
        },
{
    encode_palette_inner(width, height, rgba, ImageType::UncompressedColourMapped, Option::None)
}

/// Encode `width × height` RGBA bytes into an RLE colour-mapped TGA file
/// (image type 9); palette as for [`encode_tga_palette`].
pub fn encode_tga_palette_rle(width: u16, height: u16, rgba: &[u8]) -> (r: Result<Vec<u8>, TgaError>)
    ensures
        match spec_encode_palette(width, height, rgba@, ImageType::RleColourMapped, Option::None) {
            Ok(b) => r matches Ok(v) && v@ == b,
            Err(k) => r matches Err(e) && e.kind() == k,
        },
{
    encode_palette_inner(width, height, rgba, ImageType::RleColourMapped, Option::None)
}

/// Encode `width × height` RGBA bytes into a colour-mapped TGA file (type
/// 1 or 9) with an explicit colour-map entry size. Any other image type
/// is `InvalidData`. 15/16-bit entries keep the top 5 bits per channel.
pub fn encode_tga_palette_with_entry_size(
    width: u16,
    height: u16,
    rgba: &[u8],
    image_type: ImageType,
    entry_size: ColorMapEntrySize,
) -> (r: Result<Vec<u8>, TgaError>)
    ensures
        !image_type.is_colour_mapped() ==> (r matches Err(e) && e.kind() == TgaErrorKind::InvalidData),
        image_type.is_colour_mapped() ==> match spec_encode_palette(width, height, rgba@, image_type, Option::Some(entry_size)) {
            Ok(b) => r matches Ok(v) && v@ == b,
            Err(k) => r matches Err(e) && e.kind() == k,
        },
{
    if !image_type.is_colour_mapped() {
        return Err(TgaError::invalid(
            "TGA palette encoder: image_type must be 1 (uncompressed) or 9 (RLE) colour-mapped",
        ));
    }
    encode_palette_inner(width, height, rgba, image_type, Option::Some(entry_size))
}

} // verus!
