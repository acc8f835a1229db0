//! Truevision TGA (TARGA) image reader/writer with machine-checked contracts.
//!
//! Reads image types 1/2/3/9/10/11 (colour-mapped, true-colour and
//! grayscale, raw or run-length encoded) into a top-down, left-to-right
//! RGBA or Gray8 raster; writes the same six types; and reads and writes
//! the TGA 2.0 metadata sections (footer, extension area, postage stamp,
//! colour-correction and scan-line tables, developer area).
use vstd::prelude::*;

pub mod error;
pub mod image;
pub mod types;
pub mod descriptor;
pub mod textfmt;
pub mod ext_fields;
pub mod ascii;
pub mod extension;
pub mod cct;
pub mod scanline;
pub mod developer;
pub mod decode_spec;
pub mod decoder;
pub mod metadata;
pub mod sections;
pub mod display;
pub mod rle_spec;
pub mod rle_encode;
pub mod encode_spec;
pub mod encoder;
pub mod ext_encoder;
pub mod laws;
pub mod file_laws;
pub mod ext_laws;
pub mod palette_laws;
pub mod probe;
pub mod scanline_laws;
pub mod stamp_laws;
pub mod channel_laws;

pub use error::{TgaError, TgaErrorKind};
pub use image::{pack_rows, TgaImage, TgaPixelFormat};
pub use types::{
    parse_footer, parse_header, read_u16_le, read_u32_le, ColorMapEntrySize, ImageType, TgaFooter,
    TgaHeader, TGA_FOOTER_MAGIC, TGA_FOOTER_SIZE, TGA_HEADER_SIZE,
};
pub use descriptor::{
    AttributeBits, ColorMapType, ImageOrigin, Interleaving, TGA_ATTRIBUTE_BITS_MAX,
    TGA_INTERLEAVING_MASK,
};
pub use ext_fields::{
    AttributesType, GammaValue, JobTime, KeyColor, PixelAspectRatio, PostageStamp,
    SoftwareVersion, TgaTimestamp, TGA_POSTAGE_STAMP_MAX, TGA_POSTAGE_STAMP_RECOMMENDED_MAX,
};
pub use ascii::{
    TgaAsciiField, TgaAuthorComments, TGA_ASCII_FIELD_MAX_CHARS, TGA_AUTHOR_COMMENT_LINES,
    TGA_AUTHOR_COMMENT_LINE_BYTES, TGA_AUTHOR_COMMENT_LINE_MAX_CHARS,
};
pub use extension::{parse_extension_area, TgaExtensionArea, TGA_EXTENSION_AREA_SIZE};
pub use cct::{
    TgaColourCorrectionTable, TGA_COLOUR_CORRECTION_TABLE_ENTRIES,
    TGA_COLOUR_CORRECTION_TABLE_SIZE,
};
pub use scanline::{TgaScanLineTable, TGA_SCAN_LINE_OFFSET_BYTES};
pub use developer::{
    TgaDeveloperArea, TgaDeveloperTag, TGA_DEVELOPER_DIRECTORY_HEADER_BYTES,
    TGA_DEVELOPER_TAG_BYTES,
};
pub use decoder::parse_tga;
pub use probe::{probe_tga, TgaProbe};
pub use metadata::{
    parse_tga_attribute_bits, parse_tga_attributes_type, parse_tga_author_comments,
    parse_tga_author_name, parse_tga_color_map_type, parse_tga_colour_correction_table,
    parse_tga_developer_area, parse_tga_extension_area, parse_tga_footer, parse_tga_gamma,
    parse_tga_image_id, parse_tga_image_origin, parse_tga_interleaving, parse_tga_job_name,
    parse_tga_job_time, parse_tga_key_color, parse_tga_pixel_aspect_ratio,
    parse_tga_postage_stamp_dimensions, parse_tga_scan_line_table, parse_tga_software_id,
    parse_tga_software_version, parse_tga_timestamp, resolve_alpha_from_descriptor,
    resolve_alpha_with_targa32_fallback,
};
pub use sections::{
    compute_tga_scan_line_table, parse_tga_border_color, parse_tga_color_map,
    parse_tga_postage_stamp, parse_tga_scan_line, TgaColorMap,
};
pub use display::{
    choose_tone, display_begin, display_finish, resolve_alpha, AlphaResolution, TgaDecodedFrame, TgaDisplayOptions,
    TgaDisplayReport, ToneApplied,
};
pub use encoder::{
    encode_tga_grayscale, encode_tga_grayscale_rle, encode_tga_palette, encode_tga_palette_rle,
    encode_tga_palette_with_entry_size, encode_tga_rle, encode_tga_rle_image,
    encode_tga_rle_rgb24, encode_tga_uncompressed, encode_tga_uncompressed_image,
    encode_tga_uncompressed_rgb24,
};
pub use ext_encoder::{
    encode_tga_with_extension, set_image_origin, splice_image_id, DeveloperTagInput,
    ExtensionAreaInput, TGA_IMAGE_ID_MAX,
};

verus! {

/// Codec id for TGA image frames.
pub const CODEC_ID_STR: &'static str = "tga";

} // verus!
