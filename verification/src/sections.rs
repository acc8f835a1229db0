//! Decoders for the parts of a file beside the main raster: the scan-line
//! table (computed, and used for random row access), the postage stamp,
//! and the colour map.
use vstd::prelude::*;
use crate::decode_spec::{
    depth_bytes, depth_ok, entry_size_supported, palette_of, out_bpp, raw_from, reorder,
    decode_body, spec_read_palette, out_format, lemma_raw_from_len, lemma_rle_from_len,
};
use crate::decoder::{
    opt_pal, pal_view, decode_palette, validate_depth, decode_raw_pixels, decode_rle_pixels,
    reorder_pixels, read_palette, lemma_pal_entries,
};
use crate::error::{TgaError, TgaErrorKind};
use crate::textfmt::{push_str_dec_u64, str_dec_str};
use crate::image::{ImageModel, TgaImage, TgaPixelFormat};
use crate::types::{
    image_type_of, parse_header, spec_parse_header, ImageType, TgaHeader, TGA_HEADER_SIZE,
    u32_at,
};
use crate::scanline::TgaScanLineTable;
use crate::extension::parse_extension_area;
use crate::metadata::{file_ext_offset, parse_tga_extension_area};

verus! {

// ---------------------------------------------------------------------------
// Shared preamble
// ---------------------------------------------------------------------------

/// The checks every raster decoder runs before touching pixel data: a
/// complete header, a known image type that carries image data, non-zero
/// dimensions, a readable colour map, and a supported depth. On success,
/// the header, type, palette and offset of the first pixel-data byte.
pub open spec fn spec_prepare(s: Seq<u8>) -> Result<
    (TgaHeader, ImageType, Option<Seq<Seq<u8>>>, nat),
    TgaErrorKind,
> {
    match spec_parse_header(s) {
        None => Err(TgaErrorKind::InvalidData),
        Some(h) => match image_type_of(h.image_type_raw) {
            None => Err(TgaErrorKind::Unsupported),
            Some(t) => if t is NoImageData {
                Err(TgaErrorKind::InvalidData)
            } else if h.width == 0 || h.height == 0 {
                Err(TgaErrorKind::InvalidData)
            } else {
                match spec_read_palette(s, h, t) {
                    Err(k) => Err(k),
                    Ok((pal, cursor)) => if !depth_ok(t, h.depth) {
                        Err(TgaErrorKind::Unsupported)
                    } else {
                        Ok((h, t, pal, cursor))
                    },
                }
            },
        },
    }
}

fn prepare(input: &[u8]) -> (r: Result<(TgaHeader, ImageType, Option<Vec<[u8; 4]>>, usize), TgaError>)
    ensures
        match spec_prepare(input@) {
            Ok((h, t, pal, cur)) => r matches Ok((h2, t2, p2, c2)) && h2 == h && t2 == t
                && opt_pal(p2) == pal && c2 == cur,
            Err(k) => r matches Err(e) && e.kind() == k,
        },
{
    let header = match parse_header(input) {
        Some(h) => h,
        None => return Err(TgaError::invalid("TGA: header truncated")),
    };
    let image_type = match ImageType::from_u8(header.image_type_raw) {
        Some(t) => t,
        None => {
            let m = str_dec_str("TGA: image type ", header.image_type_raw as u32, " not supported");
            return Err(TgaError::unsupported_owned(m));
        },
    };
    if matches!(image_type, ImageType::NoImageData) {
        return Err(TgaError::invalid("TGA: image_type == 0 (no image data)"));
    }
    if header.width == 0 || header.height == 0 {
        return Err(TgaError::invalid("TGA: zero dimension"));
    }
    let (palette, cursor) = match read_palette(input, &header, image_type) {
        Ok(pc) => pc,
        Err(e) => return Err(e),
    };
    match validate_depth(image_type, header.depth) {
        Ok(()) => {},
        Err(e) => return Err(e),
    }
    Ok((header, image_type, palette, cursor))
}

// ---------------------------------------------------------------------------
// Scan-line table
// ---------------------------------------------------------------------------

/// Walk the packets of one run-length row of `remaining` pixels from
/// `pos`: the position after the row, or the error the walk meets (a
/// packet that spans rows is `Unsupported`).
pub open spec fn rle_row_end(s: Seq<u8>, pos: int, remaining: int, bpp: int) -> Result<
    int,
    TgaErrorKind,
>
    decreases remaining,
{
    if remaining <= 0 {
        Ok(pos)
    } else if pos < 0 || pos >= s.len() {
        Err(TgaErrorKind::InvalidData)
    } else {
        let packet = s[pos];
        let count = (packet % 128) as int + 1;
        if count > remaining {
            Err(TgaErrorKind::Unsupported)
        } else {
            let body = if packet >= 128 {
                bpp
            } else {
                count * bpp
            };
            if pos + 1 + body > s.len() {
                Err(TgaErrorKind::InvalidData)
            } else {
                rle_row_end(s, pos + 1 + body, remaining - count, bpp)
            }
        }
    }
}

/// Offsets of `rows` run-length rows of `w` pixels starting at `pos`.
pub open spec fn rle_offsets(s: Seq<u8>, pos: int, rows: int, w: int, bpp: int) -> Result<
    Seq<u32>,
    TgaErrorKind,
>
    decreases rows,
{
    if rows <= 0 {
        Ok(Seq::empty())
    } else if pos > u32::MAX {
        Err(TgaErrorKind::InvalidData)
    } else {
        match rle_row_end(s, pos, w, bpp) {
            Err(k) => Err(k),
            Ok(next) => match rle_offsets(s, next, rows - 1, w, bpp) {
                Ok(rest) => Ok(seq![pos as u32] + rest),
                Err(k) => Err(k),
            },
        }
    }
}

/// The scan-line table a file's pixel data implies, or the error kind.
pub open spec fn spec_scan_line_table(s: Seq<u8>) -> Result<Seq<u32>, TgaErrorKind> {
    match spec_prepare(s) {
        Err(k) => Err(k),
        Ok((h, t, pal, cursor)) => {
            let bpp = depth_bytes(h.depth) as int;
            let w = h.width as int;
            let rows = h.height as int;
            if t.is_rle() {
                rle_offsets(s, cursor as int, rows, w, bpp)
            } else {
                let rb = w * bpp;
                if s.len() < cursor + rb * rows {
                    Err(TgaErrorKind::InvalidData)
                } else if cursor + (rows - 1) * rb > u32::MAX {
                    Err(TgaErrorKind::InvalidData)
                } else {
                    Ok(Seq::new(rows as nat, |y: int| (cursor + y * rb) as u32))
                }
            }
        },
    }
}

/// Build the scan-line table for an encoded TGA: one file offset per
/// stored row, in saved order. Run-length files are walked packet by
/// packet; a packet that spans two rows is `Unsupported` (no table can
/// describe such a file).
#[verifier::rlimit(60)]
pub fn compute_tga_scan_line_table(input: &[u8]) -> (r: Result<TgaScanLineTable, TgaError>)
    ensures
        match spec_scan_line_table(input@) {
            Ok(v) => r matches Ok(t) && t.offsets@ == v,
            Err(k) => r matches Err(e) && e.kind() == k,
        },
{
    let (header, image_type, _palette, pixel_start) = match prepare(input) {
        Ok(p) => p,
        Err(e) => return Err(e),
    };
    let ghost s = input@;
    let width = header.width as usize;
    let height = header.height as usize;
    let in_bpp = (header.depth as usize + 7) / 8;
    assert(in_bpp <= 32);
    assert(in_bpp == depth_bytes(header.depth));
    let mut table = TgaScanLineTable::with_capacity(header.height);
    if image_type.is_rle() {
        let ghost res0 = rle_offsets(s, pixel_start as int, height as int, width as int, in_bpp as int);
        assert(spec_scan_line_table(s) == res0);
        let mut pos = pixel_start;
        let mut y: usize = 0;
        while y < height
            invariant
                s == input@,
                y <= height,
                pos <= input.len(),
                1 <= in_bpp <= 32,
                res0 == rle_offsets(s, pixel_start as int, height as int, width as int, in_bpp as int),
                spec_scan_line_table(s) == res0,
                res0 == (match rle_offsets(s, pos as int, height - y, width as int, in_bpp as int) {
                    Ok(rest) => Ok::<Seq<u32>, TgaErrorKind>(table.offsets@ + rest),
                    Err(k) => Err(k),
                }),
            decreases height - y,
        {
            if pos > 0xffff_ffff {
                return Err(TgaError::invalid("TGA: scan-line offset exceeds the table's 4-byte field"));
            }
            let row_start = pos;
            let ghost before = table.offsets@;
            table.offsets.push(pos as u32);
            let mut remaining = width;
            while remaining > 0
                invariant
                    s == input@,
                    pos <= input.len(),
                    remaining <= width,
                    1 <= in_bpp <= 32,
                    y < height,
                    row_start <= 0xffff_ffff,
                    table.offsets@ == before + seq![row_start as u32],
                    spec_scan_line_table(s) == res0,
                    res0 == (match rle_offsets(s, row_start as int, height - y, width as int, in_bpp as int) {
                        Ok(rest) => Ok::<Seq<u32>, TgaErrorKind>(before + rest),
                        Err(k) => Err(k),
                    }),
                    rle_row_end(s, row_start as int, width as int, in_bpp as int) == rle_row_end(
                        s,
                        pos as int,
                        remaining as int,
                        in_bpp as int,
                    ),
                decreases remaining,
            {
                if pos >= input.len() {
                    return Err(TgaError::invalid("TGA: RLE stream truncated (no packet hdr)"));
                }
                let packet = input[pos];
                let count = (packet % 128) as usize + 1;
                if count > remaining {
                    let mut m = String::new();
                    push_str_dec_u64(&mut m, "TGA: RLE packet spans a scan-line boundary (row has ", remaining as u64);
                    push_str_dec_u64(&mut m, " pixel(s) left, packet encodes ", count as u64);
                    m.append(
                        "); rows don't start on packet boundaries, so no §C.6.9 scan-line table can describe this file",
                    );
                    return Err(TgaError::unsupported_owned(m));
                }
                assert(count * in_bpp <= 128 * 32) by (nonlinear_arith)
                    requires
                        count <= 128,
                        in_bpp <= 32,
                ;
                let body = if packet >= 128 {
                    in_bpp
                } else {
                    count * in_bpp
                };
                if input.len() - pos - 1 < body {
                    return Err(TgaError::invalid("TGA: RLE packet truncated"));
                }
                pos = pos + 1 + body;
                remaining = remaining - count;
            }
            proof {
                assert(rle_row_end(s, row_start as int, width as int, in_bpp as int) == Ok::<int, TgaErrorKind>(pos as int));
                assert(table.offsets@ == before + seq![row_start as u32]);
                match rle_offsets(s, pos as int, height - y - 1, width as int, in_bpp as int) {
                    Ok(rest) => {
                        assert(before + (seq![row_start as u32] + rest) =~= table.offsets@ + rest);
                    },
                    Err(k) => {},
                }
            }
            y = y + 1;
        }
        assert(table.offsets@ + Seq::<u32>::empty() =~= table.offsets@);
    } else {
        assert(width * in_bpp <= 65535 * 32) by (nonlinear_arith)
            requires
                width <= 65535,
                in_bpp <= 32,
        ;
        let row_bytes = width * in_bpp;
        assert(row_bytes * height <= 65535 * 32 * 65535) by (nonlinear_arith)
            requires
                row_bytes <= 65535 * 32,
                height <= 65535,
        ;
        let total = (row_bytes as u64) * (height as u64);
        assert(pixel_start <= input.len());
        if ((input.len() - pixel_start) as u64) < total {
            return Err(TgaError::invalid("TGA: pixel data truncated"));
        }
        assert((height - 1) * row_bytes <= row_bytes * height) by (nonlinear_arith)
            requires
                height >= 1,
        ;
        let last = (pixel_start as u64) + ((height - 1) as u64) * (row_bytes as u64);
        if last > 0xffff_ffff {
            return Err(TgaError::invalid("TGA: scan-line offset exceeds the table's 4-byte field"));
        }
        let mut y: usize = 0;
        while y < height
            invariant
                y <= height,
                height >= 1,
                (pixel_start as u64) + ((height - 1) as u64) * (row_bytes as u64) <= 0xffff_ffff,
                table.offsets@ == Seq::new(y as nat, |k: int| (pixel_start + k * row_bytes) as u32),
            decreases height - y,
        {
            assert(y * row_bytes <= (height - 1) * row_bytes) by (nonlinear_arith)
                requires
                    y < height,
            ;
            let off = (pixel_start as u64) + (y as u64) * (row_bytes as u64);
            table.offsets.push(off as u32);
            y = y + 1;
            assert(table.offsets@ =~= Seq::new(y as nat, |k: int| (pixel_start + k * row_bytes) as u32));
        }
    }
    Ok(table)
}

/// The row a scan-line table entry points at, decoded, or the error kind.
pub open spec fn spec_scan_line(s: Seq<u8>, offsets: Seq<u32>, index: int) -> Result<
    ImageModel,
    TgaErrorKind,
> {
    match spec_prepare(s) {
        Err(k) => Err(k),
        Ok((h, t, pal, cursor)) => if index < 0 || index >= offsets.len() {
            Err(TgaErrorKind::InvalidData)
        } else if offsets[index] > s.len() {
            Err(TgaErrorKind::InvalidData)
        } else {
            match decode_body(
                t,
                h.depth,
                h.cmap_first,
                s.skip(offsets[index] as int),
                pal,
                h.width as nat,
            ) {
                None => Err(TgaErrorKind::InvalidData),
                Some(px) => Ok(
                    ImageModel {
                        width: h.width as u32,
                        height: 1,
                        pixel_format: out_format(t),
                        data: reorder(px, h.width as nat, 1, out_bpp(t), false, h.is_right_to_left()),
                    },
                ),
            }
        },
    }
}

/// Decode one stored row through a scan-line table, without decoding the
/// rows before it. `index` is in saved order; columns are normalised to
/// left-to-right. The result is a one-row image.
pub fn parse_tga_scan_line(input: &[u8], table: &TgaScanLineTable, index: usize) -> (r: Result<
    TgaImage,
    TgaError,
>)
    ensures
        match spec_scan_line(input@, table.offsets@, index as int) {
            Ok(m) => r matches Ok(img) && img.model() == m && img.pts is None,
            Err(k) => r matches Err(e) && e.kind() == k,
        },
{
    let (header, image_type, palette, _pixel_start) = match prepare(input) {
        Ok(p) => p,
        Err(e) => return Err(e),
    };
    let offset = match table.get(index) {
        Some(o) => o as usize,
        None => {
            let mut m = String::new();
            push_str_dec_u64(&mut m, "TGA: scan-line index ", index as u64);
            push_str_dec_u64(&mut m, " out of range (table has ", table.offsets.len() as u64);
            m.append(" entries)");
            return Err(TgaError::invalid_owned(m));
        },
    };
    if offset > input.len() {
        return Err(TgaError::invalid("TGA: scan-line table offset points past the end of the input"));
    }
    let row_input = vstd::slice::slice_subrange(input, offset, input.len());
    assert(row_input@ =~= input@.skip(offset as int));
    let width = header.width as usize;
    let pixels = if image_type.is_rle() {
        decode_rle_pixels(image_type, header.depth, header.cmap_first, row_input, &palette, width)
    } else {
        decode_raw_pixels(image_type, header.depth, header.cmap_first, row_input, &palette, width)
    };
    let pixels = match pixels {
        Ok(p) => p,
        Err(e) => return Err(e),
    };
    let bpp: usize = if image_type.is_grayscale() { 1 } else { 4 };
    proof {
        lemma_pal_entries(palette);
        let bb = depth_bytes(header.depth);
        let pal = opt_pal(palette);
        if image_type.is_rle() {
            lemma_rle_from_len(image_type, header.depth, header.cmap_first, row_input@, pal, bb, width as nat);
        } else {
            lemma_raw_from_len(image_type, header.depth, header.cmap_first, row_input@, pal, bb, width as nat);
        }
    }
    let data = reorder_pixels(pixels, width, 1, bpp, false, header.is_right_to_left());
    let pixel_format = if image_type.is_grayscale() {
        TgaPixelFormat::Gray8
    } else {
        TgaPixelFormat::Rgba
    };
    Ok(TgaImage { width: header.width as u32, height: 1, pixel_format, data, pts: None })
}

// ---------------------------------------------------------------------------
// Postage stamp
// ---------------------------------------------------------------------------

/// The uncompressed image type of the same kind (postage stamps are never
/// run-length encoded).
pub open spec fn uncompressed_of(t: ImageType) -> ImageType {
    match t {
        ImageType::RleColourMapped => ImageType::UncompressedColourMapped,
        ImageType::RleTrueColour => ImageType::UncompressedTrueColour,
        ImageType::RleGrayscale => ImageType::UncompressedGrayscale,
        other => other,
    }
}

/// The postage stamp a file carries, decoded (`None` when there is none),
/// or the error kind.
pub open spec fn spec_postage_stamp(s: Seq<u8>) -> Result<Option<ImageModel>, TgaErrorKind> {
    match file_ext_offset(s) {
        None => Ok(None),
        Some(off) => {
            let p = u32_at(s, off + 486) as int;
            if p == 0 {
                Ok(None)
            } else {
                match spec_parse_header(s) {
                    None => Err(TgaErrorKind::InvalidData),
                    Some(h) => match image_type_of(h.image_type_raw) {
                        None => Err(TgaErrorKind::Unsupported),
                        Some(t) => if t is NoImageData {
                            Err(TgaErrorKind::InvalidData)
                        } else {
                            match spec_read_palette(s, h, t) {
                                Err(k) => Err(k),
                                Ok((pal, _cursor)) => if s.len() < p + 2 {
                                    Err(TgaErrorKind::InvalidData)
                                } else if s[p] == 0 || s[p + 1] == 0 {
                                    Err(TgaErrorKind::InvalidData)
                                } else {
                                    let st = uncompressed_of(t);
                                    let bpp = depth_bytes(h.depth);
                                    let n = (s[p] * s[p + 1]) as nat;
                                    let body = s.skip(p + 2);
                                    if !depth_ok(st, h.depth) {
                                        Err(TgaErrorKind::Unsupported)
                                    } else if body.len() < n * bpp {
                                        Err(TgaErrorKind::InvalidData)
                                    } else {
                                        match raw_from(st, h.depth, h.cmap_first, body, pal, bpp, n) {
                                            None => Err(TgaErrorKind::InvalidData),
                                            Some(px) => Ok(
                                                Some(
                                                    ImageModel {
                                                        width: s[p] as u32,
                                                        height: s[p + 1] as u32,
                                                        pixel_format: out_format(st),
                                                        data: px,
                                                    },
                                                ),
                                            ),
                                        }
                                    }
                                }
                            }
                        },
                    },
                }
            }
        },
    }
}

/// Decode the postage-stamp thumbnail: two size bytes then uncompressed
/// pixels in the parent's type, depth and palette. `Ok(None)` when the
/// file has no extension area or no stamp.
pub fn parse_tga_postage_stamp(input: &[u8]) -> (r: Result<Option<TgaImage>, TgaError>)
    ensures
        match spec_postage_stamp(input@) {
            Ok(None) => r matches Ok(None),
            Ok(Some(m)) => r matches Ok(Some(img)) && img.model() == m && img.pts is None,
            Err(k) => r matches Err(e) && e.kind() == k,
        },
{
    let ext = match parse_tga_extension_area(input) {
        Some(e) => e,
        None => return Ok(None),
    };
    if ext.postage_stamp_offset == 0 {
        return Ok(None);
    }
    let header = match parse_header(input) {
        Some(h) => h,
        None => return Err(TgaError::invalid("TGA: header truncated")),
    };
    let image_type = match ImageType::from_u8(header.image_type_raw) {
        Some(t) => t,
        None => {
            let m = str_dec_str("TGA: image type ", header.image_type_raw as u32, " not supported (postage stamp)");
            return Err(TgaError::unsupported_owned(m));
        },
    };
    if matches!(image_type, ImageType::NoImageData) {
        return Err(TgaError::invalid("TGA: image_type == 0 (postage stamp parent has no main image)"));
    }
    let (palette, _pixel_start) = match read_palette(input, &header, image_type) {
        Ok(pc) => pc,
        Err(e) => return Err(e),
    };
    let pp_off = ext.postage_stamp_offset as usize;
    if input.len() < pp_off || input.len() - pp_off < 2 {
        return Err(TgaError::invalid("TGA: postage stamp size header truncated"));
    }
    let stamp_w = input[pp_off];
    let stamp_h = input[pp_off + 1];
    if stamp_w == 0 || stamp_h == 0 {
        return Err(TgaError::invalid("TGA: postage stamp has zero dimension"));
    }
    let stamp_type = match image_type {
        ImageType::RleColourMapped => ImageType::UncompressedColourMapped,
        ImageType::RleTrueColour => ImageType::UncompressedTrueColour,
        ImageType::RleGrayscale => ImageType::UncompressedGrayscale,
        other => other,
    };
    match validate_depth(stamp_type, header.depth) {
        Ok(()) => {},
        Err(e) => return Err(e),
    }
    let pixels_in = vstd::slice::slice_subrange(input, pp_off + 2, input.len());
    assert(pixels_in@ =~= input@.skip(pp_off + 2));
    assert((stamp_w as usize) * (stamp_h as usize) <= 65025) by (nonlinear_arith)
        requires
            stamp_w < 256,
            stamp_h < 256,
    ;
    let count = (stamp_w as usize) * (stamp_h as usize);
    let pixels = match decode_raw_pixels(stamp_type, header.depth, header.cmap_first, pixels_in, &palette, count) {
        Ok(p) => p,
        Err(e) => return Err(e),
    };
    let pixel_format = if stamp_type.is_grayscale() {
        TgaPixelFormat::Gray8
    } else {
        TgaPixelFormat::Rgba
    };
    Ok(Some(TgaImage { width: stamp_w as u32, height: stamp_h as u32, pixel_format, data: pixels, pts: None }))
}

// ---------------------------------------------------------------------------
// Colour map
// ---------------------------------------------------------------------------

/// A file's colour map, de-interleaved to straight RGBA.
#[derive(Debug, Clone, PartialEq, Eq, Default)]
pub struct TgaColorMap {
    /// Colour-map origin: the logical index of the first stored entry.
    pub first_index: u16,
    /// Entry size in bits (15, 16, 24 or 32).
    pub entry_size: u8,
    /// Entries in on-disk order (entry `i` is logical index `first_index + i`).
    pub entries: Vec<[u8; 4]>,
}

impl TgaColorMap {
    /// The empty map.
    pub fn empty() -> (m: Self)
        ensures
            m.first_index == 0 && m.entry_size == 0 && m.entries@.len() == 0,
    {
        TgaColorMap { first_index: 0, entry_size: 0, entries: Vec::new() }
    }

    /// `true` when no entries are stored.
    pub fn is_empty(&self) -> (r: bool)
        ensures
            r == (self.entries@.len() == 0),
    {
        self.entries.len() == 0
    }

    /// Number of stored entries.
    pub fn len(&self) -> (r: usize)
        ensures
            r == self.entries@.len(),
    {
        self.entries.len()
    }

    /// The entry logical index `idx` names: `entries[idx - first_index]`,
    /// `None` below the origin or past the stored entries.
    pub fn get(&self, idx: usize) -> (r: Option<[u8; 4]>)
        ensures
            r == (if self.first_index <= idx < self.first_index + self.entries@.len() {
                Some(self.entries@[idx - self.first_index])
            } else {
                None::<[u8; 4]>
            }),
    {
        let first = self.first_index as usize;
        if idx < first {
            return None;
        }
        let local = idx - first;
        if local < self.entries.len() {
            Some(self.entries[local])
        } else {
            None
        }
    }
}

/// The colour map a file carries as `(origin, entry size, RGBA entries)`
/// (`None` when the colour-map type byte is not 1), or the error kind.
pub open spec fn spec_color_map(s: Seq<u8>) -> Result<Option<(u16, u8, Seq<Seq<u8>>)>, TgaErrorKind> {
    match spec_parse_header(s) {
        None => Err(TgaErrorKind::InvalidData),
        Some(h) => if h.cmap_type != 1 {
            Ok(None)
        } else if h.cmap_entry_size == 0 || h.cmap_length == 0 {
            Err(TgaErrorKind::InvalidData)
        } else {
            let cursor = 18 + h.id_length;
            let cmap_bytes = depth_bytes(h.cmap_entry_size) * (h.cmap_length as nat);
            if s.len() < cursor + cmap_bytes {
                Err(TgaErrorKind::InvalidData)
            } else if !entry_size_supported(h.cmap_entry_size) {
                Err(TgaErrorKind::Unsupported)
            } else {
                Ok(
                    Some(
                        (
                            h.cmap_first,
                            h.cmap_entry_size,
                            palette_of(
                                s.subrange(cursor as int, (cursor + cmap_bytes) as int),
                                h.cmap_entry_size,
                            ),
                        ),
                    ),
                )
            }
        },
    }
}

/// Read a file's colour map (also from a type-0, palette-only file).
pub fn parse_tga_color_map(input: &[u8]) -> (r: Result<Option<TgaColorMap>, TgaError>)
    ensures
        match spec_color_map(input@) {
            Ok(None) => r matches Ok(None),
            Ok(Some((first, es, pal))) => r matches Ok(Some(m)) && m.first_index == first
                && m.entry_size == es && pal_view(m.entries@) == pal && m.entries@.len() > 0,
            Err(k) => r matches Err(e) && e.kind() == k,
        },
{
    let header = match parse_header(input) {
        Some(h) => h,
        None => return Err(TgaError::invalid("TGA: header truncated")),
    };
    if header.cmap_type != 1 {
        return Ok(None);
    }
    if header.cmap_entry_size == 0 || header.cmap_length == 0 {
        return Err(TgaError::invalid("TGA: cmap_type == 1 but cmap_entry_size / cmap_length == 0"));
    }
    let cursor = TGA_HEADER_SIZE + header.id_length as usize;
    let entry_bytes = (header.cmap_entry_size as usize + 7) / 8;
    assert(entry_bytes <= 32);
    assert(entry_bytes * (header.cmap_length as usize) <= 32 * 65535) by (nonlinear_arith)
        requires
            entry_bytes <= 32,
    ;
    let cmap_bytes = entry_bytes * header.cmap_length as usize;
    if input.len() < cursor || input.len() - cursor < cmap_bytes {
        return Err(TgaError::invalid("TGA: colour map truncated"));
    }
    let cmap = vstd::slice::slice_subrange(input, cursor, cursor + cmap_bytes);
    proof {
        assert(cmap_bytes / entry_bytes == header.cmap_length) by (nonlinear_arith)
            requires
                cmap_bytes == entry_bytes * header.cmap_length,
                entry_bytes > 0,
        ;
        assert(cmap_bytes == depth_bytes(header.cmap_entry_size) * (header.cmap_length as nat)) by (nonlinear_arith)
            requires
                cmap_bytes == entry_bytes * header.cmap_length,
                entry_bytes == depth_bytes(header.cmap_entry_size),
        ;
    }
    let entries = match decode_palette(cmap, header.cmap_entry_size, entry_bytes) {
        Ok(p) => p,
        Err(e) => return Err(e),
    };
    assert(cmap@.len() == cmap_bytes);
    assert(palette_of(cmap@, header.cmap_entry_size).len() == header.cmap_length);
    assert(pal_view(entries@).len() == entries@.len());
    Ok(Some(TgaColorMap { first_index: header.cmap_first, entry_size: header.cmap_entry_size, entries }))
}

/// The border colour a true-colour or grayscale file records as the first
/// colour-map entry; `Ok(None)` for a colour-mapped type (its map is the
/// palette) or a file without a colour map.
pub fn parse_tga_border_color(input: &[u8]) -> (r: Result<Option<[u8; 4]>, TgaError>)
    ensures
        match spec_parse_header(input@) {
            None => r matches Err(e) && e.kind() == TgaErrorKind::InvalidData,
            Some(h) => if image_type_of(h.image_type_raw) matches Some(t) && t.is_colour_mapped() {
                r matches Ok(None)
            } else {
                match spec_color_map(input@) {
                    Ok(None) => r matches Ok(None),
                    Ok(Some((_, _, pal))) => pal.len() > 0 && (r matches Ok(Some(c)) && c@ == pal[0]),
                    Err(k) => r matches Err(e) && e.kind() == k,
                }
            },
        },
{
    let header = match parse_header(input) {
        Some(h) => h,
        None => return Err(TgaError::invalid("TGA: header truncated")),
    };
    match ImageType::from_u8(header.image_type_raw) {
        Some(t) => {
            if t.is_colour_mapped() {
                return Ok(None);
            }
        },
        None => {},
    }
    match parse_tga_color_map(input) {
        Ok(Some(map)) => {
            if map.entries.len() == 0 {
                return Ok(None);
            }
            Ok(Some(map.entries[0]))
        },
        Ok(None) => Ok(None),
        Err(e) => Err(e),
    }
}

} // verus!
