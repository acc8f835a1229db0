//! One-call readers for the metadata a TGA file carries besides its
//! raster: the footer, Image ID, extension-area fields and tables, the
//! developer directory, and typed header fields; plus the two alpha
//! resolvers built on them.
use vstd::prelude::*;
use crate::error::{TgaError, TgaErrorKind};
use crate::image::{TgaImage, TgaPixelFormat, opaque_rgba, all_alpha_zero_seq};
use crate::types::{
    parse_footer, parse_header, spec_parse_footer, spec_parse_header, TgaFooter, TGA_HEADER_SIZE,
    u16_at, u32_at,
};
use crate::descriptor::{
    AttributeBits, Interleaving, ImageOrigin, ColorMapType, interleaving_of, color_map_type_of,
};
use crate::ext_fields::{
    AttributesType, KeyColor, PixelAspectRatio, GammaValue, SoftwareVersion, TgaTimestamp,
    JobTime, PostageStamp, attributes_type_of,
};
use crate::ascii::{TgaAsciiField, TgaAuthorComments};
use crate::extension::{
    TgaExtensionArea, parse_extension_area, ext_area_fits, ext_area_at, field_text,
};
use crate::cct::TgaColourCorrectionTable;
use crate::scanline::{TgaScanLineTable, u32s_at};
use crate::developer::{TgaDeveloperArea, directory_ok, tags_at};

verus! {

/// The offset of the extension area a file holds: its footer is present
/// and names a non-zero offset whose 495-byte body lies in the file.
pub open spec fn file_ext_offset(s: Seq<u8>) -> Option<int> {
    match spec_parse_footer(s) {
        Some(f) => if ext_area_fits(s, f.extension_area_offset) {
            Some(f.extension_area_offset as int)
        } else {
            None
        },
        None => None,
    }
}

/// The attributes type a file's extension area declares, if it has one.
pub open spec fn file_attributes(s: Seq<u8>) -> Option<AttributesType> {
    match file_ext_offset(s) {
        Some(off) => Some(attributes_type_of(s[off + 494])),
        None => None,
    }
}

/// Recognise and parse the optional TGA 2.0 footer.
pub fn parse_tga_footer(input: &[u8]) -> (r: Option<TgaFooter>)
    ensures
        r == spec_parse_footer(input@),
{
    parse_footer(input)
}

/// The Image ID bytes after the header (`Some(&[])` when `id_length` is
/// 0); `None` when the header or the Image ID is truncated.
pub fn parse_tga_image_id(input: &[u8]) -> (r: Option<&[u8]>)
    ensures
        match spec_parse_header(input@) {
            Some(h) => if 18 + h.id_length <= input@.len() {
                r matches Some(b) && b@ == input@.subrange(18, 18 + h.id_length)
            } else {
                r is None
            },
            None => r is None,
        },
{
    let header = match parse_header(input) {
        Some(h) => h,
        None => return None,
    };
    let end = TGA_HEADER_SIZE + header.id_length as usize;
    if input.len() < end {
        return None;
    }
    Some(vstd::slice::slice_subrange(input, TGA_HEADER_SIZE, end))
}

/// Parse the extension area the footer points at, if the file has one.
pub fn parse_tga_extension_area(input: &[u8]) -> (r: Option<TgaExtensionArea>)
    ensures
        match file_ext_offset(input@) {
            Some(off) => r matches Some(e) && ext_area_at(e, input@, off),
            None => r is None,
        },
{
    let footer = match parse_footer(input) {
        Some(f) => f,
        None => return None,
    };
    parse_extension_area(input, footer.extension_area_offset)
}

/// Parse the colour-correction table the extension area points at.
pub fn parse_tga_colour_correction_table(input: &[u8]) -> (r: Option<TgaColourCorrectionTable>)
    ensures
        match file_ext_offset(input@) {
            Some(off) => {
                let t_off = u32_at(input@, off + 482);
                if t_off != 0 && t_off + 2048 <= input@.len() {
                    r matches Some(t) && t.stored_at(input@, t_off as int)
                } else {
                    r is None
                }
            },
            None => r is None,
        },
{
    let ext = match parse_tga_extension_area(input) {
        Some(e) => e,
        None => return None,
    };
    TgaColourCorrectionTable::parse(input, ext.colour_correction_offset)
}

/// Parse the scan-line table the extension area points at, sized by the
/// header's height.
pub fn parse_tga_scan_line_table(input: &[u8]) -> (r: Option<TgaScanLineTable>)
    ensures
        match file_ext_offset(input@) {
            Some(off) => {
                let t_off = u32_at(input@, off + 490);
                let h = u16_at(input@, 14);
                if t_off != 0 && h != 0 && t_off + 4 * h <= input@.len() {
                    r matches Some(t) && t.offsets@ == u32s_at(input@, t_off as int, h as nat)
                } else {
                    r is None
                }
            },
            None => r is None,
        },
{
    let ext = match parse_tga_extension_area(input) {
        Some(e) => e,
        None => return None,
    };
    let header = match parse_header(input) {
        Some(h) => h,
        None => return None,
    };
    TgaScanLineTable::parse(input, ext.scan_line_offset, header.height)
}

/// Parse the developer directory the footer points at.
pub fn parse_tga_developer_area(input: &[u8]) -> (r: Option<TgaDeveloperArea>)
    ensures
        match spec_parse_footer(input@) {
            Some(f) => if directory_ok(input@, f.developer_directory_offset) {
                r matches Some(d) && d.tags@ == tags_at(input@, f.developer_directory_offset as int)
            } else {
                r is None
            },
            None => r is None,
        },
{
    let footer = match parse_footer(input) {
        Some(f) => f,
        None => return None,
    };
    TgaDeveloperArea::parse(input, footer.developer_directory_offset)
}

/// The attributes type the extension area declares, if there is one.
pub fn parse_tga_attributes_type(input: &[u8]) -> (r: Option<AttributesType>)
    ensures
        r == file_attributes(input@),
{
    match parse_tga_extension_area(input) {
        Some(e) => Some(e.attributes()),
        None => None,
    }
}

/// The extension area's key colour.
pub fn parse_tga_key_color(input: &[u8]) -> (r: Option<KeyColor>)
    ensures
        match file_ext_offset(input@) {
            Some(off) => r == Some(
                KeyColor {
                    a: input@[off + 470],
                    r: input@[off + 471],
                    g: input@[off + 472],
                    b: input@[off + 473],
                },
            ),
            None => r is None,
        },
{
    match parse_tga_extension_area(input) {
        Some(e) => Some(e.key_color_typed()),
        None => None,
    }
}

/// The extension area's pixel aspect ratio.
pub fn parse_tga_pixel_aspect_ratio(input: &[u8]) -> (r: Option<PixelAspectRatio>)
    ensures
        match file_ext_offset(input@) {
            Some(off) => r == Some(
                PixelAspectRatio {
                    numerator: u16_at(input@, off + 474),
                    denominator: u16_at(input@, off + 476),
                },
            ),
            None => r is None,
        },
{
    match parse_tga_extension_area(input) {
        Some(e) => {
            let ghost off = file_ext_offset(input@)->0;
            assert(u16_at(input@.subrange(off, off + 495), 474) == u16_at(input@, off + 474));
            assert(u16_at(input@.subrange(off, off + 495), 476) == u16_at(input@, off + 476));
            Some(e.pixel_aspect_ratio_typed())
        },
        None => None,
    }
}

/// The extension area's gamma value.
pub fn parse_tga_gamma(input: &[u8]) -> (r: Option<GammaValue>)
    ensures
        match file_ext_offset(input@) {
            Some(off) => r == Some(
                GammaValue {
                    numerator: u16_at(input@, off + 478),
                    denominator: u16_at(input@, off + 480),
                },
            ),
            None => r is None,
        },
{
    match parse_tga_extension_area(input) {
        Some(e) => {
            let ghost off = file_ext_offset(input@)->0;
            assert(u16_at(input@.subrange(off, off + 495), 478) == u16_at(input@, off + 478));
            assert(u16_at(input@.subrange(off, off + 495), 480) == u16_at(input@, off + 480));
            Some(e.gamma_typed())
        },
        None => None,
    }
}

/// The extension area's software version.
pub fn parse_tga_software_version(input: &[u8]) -> (r: Option<SoftwareVersion>)
    ensures
        match file_ext_offset(input@) {
            Some(off) => r == Some(
                SoftwareVersion {
                    number_times_100: u16_at(input@, off + 467),
                    letter: input@[off + 469] as char,
                },
            ),
            None => r is None,
        },
{
    match parse_tga_extension_area(input) {
        Some(e) => {
            let ghost off = file_ext_offset(input@)->0;
            assert(u16_at(input@.subrange(off, off + 495), 467) == u16_at(input@, off + 467));
            Some(e.software_version_typed())
        },
        None => None,
    }
}

/// The extension area's date/time stamp (unfiltered).
pub fn parse_tga_timestamp(input: &[u8]) -> (r: Option<TgaTimestamp>)
    ensures
        match file_ext_offset(input@) {
            Some(off) => r == Some(
                TgaTimestamp {
                    month: u16_at(input@, off + 367),
                    day: u16_at(input@, off + 369),
                    year: u16_at(input@, off + 371),
                    hour: u16_at(input@, off + 373),
                    minute: u16_at(input@, off + 375),
                    second: u16_at(input@, off + 377),
                },
            ),
            None => r is None,
        },
{
    match parse_tga_extension_area(input) {
        Some(e) => {
            let ghost off = file_ext_offset(input@)->0;
            let ghost b = input@.subrange(off, off + 495);
            assert(u16_at(b, 367) == u16_at(input@, off + 367));
            assert(u16_at(b, 369) == u16_at(input@, off + 369));
            assert(u16_at(b, 371) == u16_at(input@, off + 371));
            assert(u16_at(b, 373) == u16_at(input@, off + 373));
            assert(u16_at(b, 375) == u16_at(input@, off + 375));
            assert(u16_at(b, 377) == u16_at(input@, off + 377));
            Some(e.timestamp_typed())
        },
        None => None,
    }
}

/// The extension area's job time (unfiltered).
pub fn parse_tga_job_time(input: &[u8]) -> (r: Option<JobTime>)
    ensures
        match file_ext_offset(input@) {
            Some(off) => r == Some(
                JobTime {
                    hours: u16_at(input@, off + 420),
                    minutes: u16_at(input@, off + 422),
                    seconds: u16_at(input@, off + 424),
                },
            ),
            None => r is None,
        },
{
    match parse_tga_extension_area(input) {
        Some(e) => {
            let ghost off = file_ext_offset(input@)->0;
            let ghost b = input@.subrange(off, off + 495);
            assert(u16_at(b, 420) == u16_at(input@, off + 420));
            assert(u16_at(b, 422) == u16_at(input@, off + 422));
            assert(u16_at(b, 424) == u16_at(input@, off + 424));
            Some(e.job_time_typed())
        },
        None => None,
    }
}

/// The extension area's author name.
pub fn parse_tga_author_name(input: &[u8]) -> (r: Option<TgaAsciiField>)
    ensures
        match file_ext_offset(input@) {
            Some(off) => r matches Some(f) && f.value@ == field_text(
                input@.subrange(off + 2, off + 43),
            ),
            None => r is None,
        },
{
    match parse_tga_extension_area(input) {
        Some(e) => {
            let ghost off = file_ext_offset(input@)->0;
            assert(input@.subrange(off, off + 495).subrange(2, 43) =~= input@.subrange(
                off + 2,
                off + 43,
            ));
            Some(e.author_name_typed())
        },
        None => None,
    }
}

/// The extension area's four author-comment lines.
pub fn parse_tga_author_comments(input: &[u8]) -> (r: Option<TgaAuthorComments>)
    ensures
        match file_ext_offset(input@) {
            Some(off) => r matches Some(c) && (forall|i: int|
                0 <= i < 4 ==> (#[trigger] c.lines@[i])@ == field_text(
                    input@.subrange(off + 43 + 81 * i, off + 124 + 81 * i),
                )),
            None => r is None,
        },
{
    match parse_tga_extension_area(input) {
        Some(e) => {
            let ghost off = file_ext_offset(input@)->0;
            let ghost b = input@.subrange(off, off + 495);
            assert(b.subrange(43, 124) =~= input@.subrange(off + 43, off + 124));
            assert(b.subrange(124, 205) =~= input@.subrange(off + 124, off + 205));
            assert(b.subrange(205, 286) =~= input@.subrange(off + 205, off + 286));
            assert(b.subrange(286, 367) =~= input@.subrange(off + 286, off + 367));
            let c = e.author_comments_typed();
            assert forall|i: int| 0 <= i < 4 implies (#[trigger] c.lines@[i])@ == field_text(
                input@.subrange(off + 43 + 81 * i, off + 124 + 81 * i),
            ) by {
                if i == 0 {
                } else if i == 1 {
                } else if i == 2 {
                } else {
                }
            }
            Some(c)
        },
        None => None,
    }
}

/// The extension area's job name.
pub fn parse_tga_job_name(input: &[u8]) -> (r: Option<TgaAsciiField>)
    ensures
        match file_ext_offset(input@) {
            Some(off) => r matches Some(f) && f.value@ == field_text(
                input@.subrange(off + 379, off + 420),
            ),
            None => r is None,
        },
{
    match parse_tga_extension_area(input) {
        Some(e) => {
            let ghost off = file_ext_offset(input@)->0;
            assert(input@.subrange(off, off + 495).subrange(379, 420) =~= input@.subrange(
                off + 379,
                off + 420,
            ));
            Some(e.job_name_typed())
        },
        None => None,
    }
}

/// The extension area's software ID.
pub fn parse_tga_software_id(input: &[u8]) -> (r: Option<TgaAsciiField>)
    ensures
        match file_ext_offset(input@) {
            Some(off) => r matches Some(f) && f.value@ == field_text(
                input@.subrange(off + 426, off + 467),
            ),
            None => r is None,
        },
{
    match parse_tga_extension_area(input) {
        Some(e) => {
            let ghost off = file_ext_offset(input@)->0;
            assert(input@.subrange(off, off + 495).subrange(426, 467) =~= input@.subrange(
                off + 426,
                off + 467,
            ));
            Some(e.software_id_typed())
        },
        None => None,
    }
}

/// Resolve an RGBA image's alpha to straight alpha: apply the attributes
/// type the file declares if it has one; otherwise treat an all-zero alpha
/// plane as opaque. Returns the attributes type applied, if any. Other
/// formats are left untouched.
pub fn resolve_alpha_with_targa32_fallback(input: &[u8], image: &mut TgaImage) -> (r: Option<
    AttributesType,
>)
    ensures
        r == file_attributes(input@),
        final(image).width == old(image).width,
        final(image).height == old(image).height,
        final(image).pixel_format == old(image).pixel_format,
        final(image).pts == old(image).pts,
        final(image).data@ == (if old(image).pixel_format != TgaPixelFormat::Rgba {
            old(image).data@
        } else {
            match file_attributes(input@) {
                Some(a) => a.applied(old(image).data@),
                None => if old(image).data@.len() > 0 && all_alpha_zero_seq(old(image).data@) {
                    opaque_rgba(old(image).data@)
                } else {
                    old(image).data@
                },
            }
        }),
{
    if image.pixel_format != TgaPixelFormat::Rgba {
        return parse_tga_attributes_type(input);
    }
    match parse_tga_attributes_type(input) {
        Some(attrs) => {
            attrs.apply_to_image(image);
            Some(attrs)
        },
        None => {
            if image.all_alpha_zero() {
                image.force_opaque();
            }
            None
        },
    }
}

/// The header's attribute-bit count; `None` when the header is truncated.
pub fn parse_tga_attribute_bits(input: &[u8]) -> (r: Option<AttributeBits>)
    ensures
        match spec_parse_header(input@) {
            Some(h) => r == Some(AttributeBits { count: h.descriptor & 0x0F }),
            None => r is None,
        },
{
    match parse_header(input) {
        Some(h) => Some(h.attribute_bits()),
        None => None,
    }
}

/// The header's interleaving flag; `None` when the header is truncated.
pub fn parse_tga_interleaving(input: &[u8]) -> (r: Option<Interleaving>)
    ensures
        match spec_parse_header(input@) {
            Some(h) => r == Some(interleaving_of(h.descriptor >> 6)),
            None => r is None,
        },
{
    match parse_header(input) {
        Some(h) => Some(h.interleaving()),
        None => None,
    }
}

/// The header's screen-placement origin; `None` when the header is
/// truncated.
pub fn parse_tga_image_origin(input: &[u8]) -> (r: Option<ImageOrigin>)
    ensures
        match spec_parse_header(input@) {
            Some(h) => r == Some(ImageOrigin { x: h.x_origin, y: h.y_origin }),
            None => r is None,
        },
{
    match parse_header(input) {
        Some(h) => Some(h.image_origin()),
        None => None,
    }
}

/// Force an RGBA image opaque when the header declares zero attribute
/// bits; returns the declared bits (`None`, image untouched, when the
/// header is truncated).
pub fn resolve_alpha_from_descriptor(input: &[u8], image: &mut TgaImage) -> (r: Option<
    AttributeBits,
>)
    ensures
        final(image).width == old(image).width,
        final(image).height == old(image).height,
        final(image).pixel_format == old(image).pixel_format,
        final(image).pts == old(image).pts,
        match spec_parse_header(input@) {
            Some(h) => r == Some(AttributeBits { count: h.descriptor & 0x0F })
                && final(image).data@ == (if old(image).pixel_format == TgaPixelFormat::Rgba
                && h.descriptor & 0x0F == 0 {
                opaque_rgba(old(image).data@)
            } else {
                old(image).data@
            }),
            None => r is None && final(image).data@ == old(image).data@,
        },
{
    let bits = match parse_tga_attribute_bits(input) {
        Some(b) => b,
        None => return None,
    };
    if image.pixel_format == TgaPixelFormat::Rgba && bits.is_none() {
        image.force_opaque();
    }
    Some(bits)
}

/// The postage stamp's two size bytes. `Ok(None)` without an extension
/// area or with a zero stamp offset; `Err(InvalidData)` when the size
/// bytes lie past the end of the file.
pub fn parse_tga_postage_stamp_dimensions(input: &[u8]) -> (r: Result<Option<PostageStamp>, TgaError>)
    ensures
        match file_ext_offset(input@) {
            Some(off) => {
                let p = u32_at(input@, off + 486);
                if p == 0 {
                    r == Ok::<Option<PostageStamp>, TgaError>(None)
                } else if p + 2 > input@.len() {
                    r matches Err(e) && e.kind() == TgaErrorKind::InvalidData
                } else {
                    r == Ok::<Option<PostageStamp>, TgaError>(
                        Some(PostageStamp { width: input@[p as int], height: input@[p + 1] }),
                    )
                }
            },
            None => r == Ok::<Option<PostageStamp>, TgaError>(None),
        },
{
    let ext = match parse_tga_extension_area(input) {
        Some(e) => e,
        None => return Ok(None),
    };
    if ext.postage_stamp_offset == 0 {
        return Ok(None);
    }
    let off = ext.postage_stamp_offset as usize;
    if input.len() < off || input.len() - off < 2 {
        return Err(TgaError::invalid("TGA: postage stamp size header truncated"));
    }
    Ok(Some(PostageStamp::new(input[off], input[off + 1])))
}

/// The header's colour-map type; `Err(InvalidData)` when the header is
/// truncated.
pub fn parse_tga_color_map_type(input: &[u8]) -> (r: Result<ColorMapType, TgaError>)
    ensures
        match spec_parse_header(input@) {
            Some(h) => r == Ok::<ColorMapType, TgaError>(color_map_type_of(h.cmap_type)),
            None => r matches Err(e) && e.kind() == TgaErrorKind::InvalidData,
        },
{
    match parse_header(input) {
        Some(h) => Ok(h.color_map_type()),
        None => Err(TgaError::invalid("TGA: header truncated")),
    }
}

} // verus!
