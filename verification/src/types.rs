//! TGA structural types: the fixed 18-byte header, the optional 26-byte
//! TGA 2.0 footer, and the little-endian field readers they rest on.
//!
//! On-disk layout (TGA 2.0):
//! header (18 bytes) | image ID (`id_length` bytes) | colour map |
//! pixel data | optional extension / developer areas | optional footer.
use vstd::prelude::*;

verus! {

/// Header size in bytes (always 18).
pub const TGA_HEADER_SIZE: usize = 18;

/// TGA 2.0 footer size in bytes.
pub const TGA_FOOTER_SIZE: usize = 26;

/// TGA 2.0 footer magic string `"TRUEVISION-XFILE.\0"`.
pub const TGA_FOOTER_MAGIC: [u8; 18] = [84, 82, 85, 69, 86, 73, 83, 73, 79, 78, 45, 88, 70, 73, 76, 69, 46, 0];

// ---------------------------------------------------------------------------
// Little-endian field model
// ---------------------------------------------------------------------------

/// The little-endian 16-bit value of two bytes.
pub open spec fn le_u16(b0: u8, b1: u8) -> u16 {
    (b0 as int + 256 * (b1 as int)) as u16
}

/// The little-endian 16-bit value stored at `off`.
pub open spec fn u16_at(s: Seq<u8>, off: int) -> u16 {
    le_u16(s[off], s[off + 1])
}

/// The little-endian 32-bit value stored at `off`.
pub open spec fn u32_at(s: Seq<u8>, off: int) -> u32 {
    (s[off] as int + 256 * (s[off + 1] as int) + 65536 * (s[off + 2] as int) + 16777216 * (
    s[off + 3] as int)) as u32
}

/// The two little-endian bytes of `v`.
pub open spec fn u16_le_bytes(v: u16) -> Seq<u8> {
    seq![(v % 256) as u8, (v / 256) as u8]
}

/// The four little-endian bytes of `v`.
pub open spec fn u32_le_bytes(v: u32) -> Seq<u8> {
    seq![(v % 256) as u8, ((v / 256) % 256) as u8, ((v / 65536) % 256) as u8, (v / 16777216) as u8]
}

/// Reading back the bytes of a 16-bit value gives the value.
pub proof fn lemma_u16_roundtrip(v: u16)
    ensures
        u16_at(u16_le_bytes(v), 0) == v,
        u16_le_bytes(v).len() == 2,
{
}

/// Reading back the bytes of a 32-bit value gives the value.
pub proof fn lemma_u32_roundtrip(v: u32)
    ensures
        u32_at(u32_le_bytes(v), 0) == v,
        u32_le_bytes(v).len() == 4,
{
    let b0 = v % 256;
    let b1 = (v / 256) % 256;
    let b2 = (v / 65536) % 256;
    let b3 = v / 16777216;
    assert(b0 + 256 * b1 + 65536 * b2 + 16777216 * b3 == v) by (nonlinear_arith)
        requires
            b0 == v % 256,
            b1 == (v / 256) % 256,
            b2 == (v / 65536) % 256,
            b3 == v / 16777216,
    ;
}

/// Read the little-endian 16-bit value at `off`.
pub fn read_u16_le(buf: &[u8], off: usize) -> (r: u16)
    requires
        off + 2 <= buf.len(),
    ensures
        r == u16_at(buf@, off as int),
{
    (buf[off] as u16) + (buf[off + 1] as u16) * 256
}

/// Read the little-endian 32-bit value at `off`.
pub fn read_u32_le(buf: &[u8], off: usize) -> (r: u32)
    requires
        off + 4 <= buf.len(),
    ensures
        r == u32_at(buf@, off as int),
{
    (buf[off] as u32) + (buf[off + 1] as u32) * 256 + (buf[off + 2] as u32) * 65536 + (buf[off
        + 3] as u32) * 16777216
}

/// Append the two little-endian bytes of `v`.
pub fn push_u16_le(out: &mut Vec<u8>, v: u16)
    ensures
        final(out)@ == old(out)@ + u16_le_bytes(v),
{
    out.push((v % 256) as u8);
    out.push((v / 256) as u8);
    assert(out@ =~= old(out)@ + u16_le_bytes(v));
}

/// Append the four little-endian bytes of `v`.
pub fn push_u32_le(out: &mut Vec<u8>, v: u32)
    ensures
        final(out)@ == old(out)@ + u32_le_bytes(v),
{
    out.push((v % 256) as u8);
    out.push(((v / 256) % 256) as u8);
    out.push(((v / 65536) % 256) as u8);
    out.push((v / 16777216) as u8);
    assert(out@ =~= old(out)@ + u32_le_bytes(v));
}

// ---------------------------------------------------------------------------
// Image type
// ---------------------------------------------------------------------------

/// Image type codes (TGA 2.0, field 3).
#[derive(Debug, Clone, Copy, PartialEq, Eq, Structural)]
pub enum ImageType {
    /// `0` — no image data included (header only).
    NoImageData,
    /// `1` — uncompressed colour-mapped image.
    UncompressedColourMapped,
    /// `2` — uncompressed true-colour image.
    UncompressedTrueColour,
    /// `3` — uncompressed black-and-white (grayscale) image.
    UncompressedGrayscale,
    /// `9` — run-length encoded colour-mapped image.
    RleColourMapped,
    /// `10` — run-length encoded true-colour image.
    RleTrueColour,
    /// `11` — run-length encoded black-and-white (grayscale) image.
    RleGrayscale,
}

/// The image type a raw byte names, if any.
pub open spec fn image_type_of(v: u8) -> Option<ImageType> {
    if v == 0 {
        Some(ImageType::NoImageData)
    } else if v == 1 {
        Some(ImageType::UncompressedColourMapped)
    } else if v == 2 {
        Some(ImageType::UncompressedTrueColour)
    } else if v == 3 {
        Some(ImageType::UncompressedGrayscale)
    } else if v == 9 {
        Some(ImageType::RleColourMapped)
    } else if v == 10 {
        Some(ImageType::RleTrueColour)
    } else if v == 11 {
        Some(ImageType::RleGrayscale)
    } else {
        None
    }
}

impl ImageType {
    /// Decode a raw image-type byte; `None` for codes outside 0/1/2/3/9/10/11.
    pub fn from_u8(v: u8) -> (r: Option<Self>)
        ensures
            r == image_type_of(v),
    {
        match v {
            0 => Some(ImageType::NoImageData),
            1 => Some(ImageType::UncompressedColourMapped),
            2 => Some(ImageType::UncompressedTrueColour),
            3 => Some(ImageType::UncompressedGrayscale),
            9 => Some(ImageType::RleColourMapped),
            10 => Some(ImageType::RleTrueColour),
            11 => Some(ImageType::RleGrayscale),
            _ => None,
        }
    }

    /// The on-disk code of this image type.
    #[verifier::allow_in_spec]
    pub fn as_u8(self) -> u8
        returns
            match self {
                ImageType::NoImageData => 0u8,
                ImageType::UncompressedColourMapped => 1u8,
                ImageType::UncompressedTrueColour => 2u8,
                ImageType::UncompressedGrayscale => 3u8,
                ImageType::RleColourMapped => 9u8,
                ImageType::RleTrueColour => 10u8,
                ImageType::RleGrayscale => 11u8,
            },
    {
        match self {
            ImageType::NoImageData => 0,
            ImageType::UncompressedColourMapped => 1,
            ImageType::UncompressedTrueColour => 2,
            ImageType::UncompressedGrayscale => 3,
            ImageType::RleColourMapped => 9,
            ImageType::RleTrueColour => 10,
            ImageType::RleGrayscale => 11,
        }
    }

    /// `true` for image types 9/10/11 (RLE-compressed pixel data).
    #[verifier::allow_in_spec]
    pub fn is_rle(self) -> bool
        returns
            self is RleColourMapped || self is RleTrueColour || self is RleGrayscale,
    {
        matches!(self, ImageType::RleColourMapped | ImageType::RleTrueColour | ImageType::RleGrayscale)
    }

    /// `true` for image types 1/9 (palette-indexed pixel data).
    #[verifier::allow_in_spec]
    pub fn is_colour_mapped(self) -> bool
        returns
            self is UncompressedColourMapped || self is RleColourMapped,
    {
        matches!(self, ImageType::UncompressedColourMapped | ImageType::RleColourMapped)
    }

    /// `true` for image types 3/11 (single-channel grayscale).
    #[verifier::allow_in_spec]
    pub fn is_grayscale(self) -> bool
        returns
            self is UncompressedGrayscale || self is RleGrayscale,
    {
        matches!(self, ImageType::UncompressedGrayscale | ImageType::RleGrayscale)
    }
}

/// Decoding the code of an image type gives the image type back.
pub proof fn lemma_image_type_roundtrip(t: ImageType)
    ensures
        image_type_of(t.as_u8()) == Some(t),
{
}

// ---------------------------------------------------------------------------
// Colour-map entry size
// ---------------------------------------------------------------------------

/// Colour-map entry width (header byte 7) the palette writers can emit.
#[derive(Debug, Clone, Copy, PartialEq, Eq, Structural)]
pub enum ColorMapEntrySize {
    /// 15-bit `RRRRRGGGGGBBBBB` (top bit unused).
    Bits15,
    /// 16-bit `ARRRRRGGGGGBBBBB` (top bit = alpha ≥ 0x80).
    Bits16,
    /// 24-bit BGR.
    Bits24,
    /// 32-bit BGRA.
    Bits32,
}

impl ColorMapEntrySize {
    /// The entry size a header byte names, if it is one of 15/16/24/32.
    pub fn from_u8(v: u8) -> (r: Option<Self>)
        ensures
            r == (if v == 15 {
                Some(ColorMapEntrySize::Bits15)
            } else if v == 16 {
                Some(ColorMapEntrySize::Bits16)
            } else if v == 24 {
                Some(ColorMapEntrySize::Bits24)
            } else if v == 32 {
                Some(ColorMapEntrySize::Bits32)
            } else {
                None
            }),
    {
        match v {
            15 => Some(ColorMapEntrySize::Bits15),
            16 => Some(ColorMapEntrySize::Bits16),
            24 => Some(ColorMapEntrySize::Bits24),
            32 => Some(ColorMapEntrySize::Bits32),
            _ => None,
        }
    }

    /// Bits per entry (the header byte).
    #[verifier::allow_in_spec]
    pub fn bits(self) -> u8
        returns
            match self {
                ColorMapEntrySize::Bits15 => 15u8,
                ColorMapEntrySize::Bits16 => 16u8,
                ColorMapEntrySize::Bits24 => 24u8,
                ColorMapEntrySize::Bits32 => 32u8,
            },
    {
        match self {
            ColorMapEntrySize::Bits15 => 15,
            ColorMapEntrySize::Bits16 => 16,
            ColorMapEntrySize::Bits24 => 24,
            ColorMapEntrySize::Bits32 => 32,
        }
    }

    /// Bytes per entry on disk.
    #[verifier::allow_in_spec]
    pub fn bytes(self) -> usize
        returns
            match self {
                ColorMapEntrySize::Bits15 => 2usize,
                ColorMapEntrySize::Bits16 => 2usize,
                ColorMapEntrySize::Bits24 => 3usize,
                ColorMapEntrySize::Bits32 => 4usize,
            },
    {
        match self {
            ColorMapEntrySize::Bits15 => 2,
            ColorMapEntrySize::Bits16 => 2,
            ColorMapEntrySize::Bits24 => 3,
            ColorMapEntrySize::Bits32 => 4,
        }
    }

    /// `true` for the sizes that carry an alpha channel (16 and 32).
    #[verifier::allow_in_spec]
    pub fn has_alpha(self) -> bool
        returns
            self is Bits16 || self is Bits32,
    {
        matches!(self, ColorMapEntrySize::Bits16 | ColorMapEntrySize::Bits32)
    }

    /// The narrowest lossless size for a palette: 24-bit when every entry
    /// is fully opaque, otherwise 32-bit.
    pub fn smallest_lossless_for(palette: &[[u8; 4]]) -> (r: Self)
        ensures
            r == (if forall|i: int| 0 <= i < palette@.len() ==> (#[trigger] palette@[i])[3] == 255 {
                ColorMapEntrySize::Bits24
            } else {
                ColorMapEntrySize::Bits32
            }),
    {
        let mut i: usize = 0;
        while i < palette.len()
            invariant
                i <= palette@.len(),
                forall|j: int| 0 <= j < i ==> (#[trigger] palette@[j])[3] == 255,
            decreases palette@.len() - i,
        {
            if palette[i][3] != 0xFF {
                assert(palette@[i as int][3] != 255);
                return ColorMapEntrySize::Bits32;
            }
            i = i + 1;
        }
        ColorMapEntrySize::Bits24
    }
}

// ---------------------------------------------------------------------------
// Header
// ---------------------------------------------------------------------------

/// Parsed TGA header fields. Sizes match the on-disk u8/u16 widths.
#[derive(Debug, Clone, Copy)]
pub struct TgaHeader {
    pub id_length: u8,
    pub cmap_type: u8,
    pub image_type_raw: u8,
    pub cmap_first: u16,
    pub cmap_length: u16,
    pub cmap_entry_size: u8,
    pub x_origin: u16,
    pub y_origin: u16,
    pub width: u16,
    pub height: u16,
    pub depth: u8,
    pub descriptor: u8,
}

impl TgaHeader {
    /// Alpha-channel bit count from the bottom 4 bits of the descriptor.
    #[verifier::allow_in_spec]
    pub fn alpha_bits(&self) -> u8
        returns
            self.descriptor & 0x0F,
    {
        self.descriptor & 0x0F
    }

    /// `true` when bit 5 of the descriptor is set (rows stored top-to-bottom).
    #[verifier::allow_in_spec]
    pub fn is_top_down(&self) -> bool
        returns
            (self.descriptor & 0x20) != 0,
    {
        (self.descriptor & 0x20) != 0
    }

    /// `true` when bit 4 of the descriptor is set (columns stored right-to-left).
    #[verifier::allow_in_spec]
    pub fn is_right_to_left(&self) -> bool
        returns
            (self.descriptor & 0x10) != 0,
    {
        (self.descriptor & 0x10) != 0
    }

    /// The 18 on-disk bytes of this header.
    pub open spec fn spec_bytes(self) -> Seq<u8> {
        seq![self.id_length, self.cmap_type, self.image_type_raw] + u16_le_bytes(self.cmap_first)
            + u16_le_bytes(self.cmap_length) + seq![self.cmap_entry_size] + u16_le_bytes(
            self.x_origin,
        ) + u16_le_bytes(self.y_origin) + u16_le_bytes(self.width) + u16_le_bytes(self.height)
            + seq![self.depth, self.descriptor]
    }
}

/// The header the first 18 bytes of `s` hold, if `s` is that long.
pub open spec fn spec_parse_header(s: Seq<u8>) -> Option<TgaHeader> {
    if s.len() < 18 {
        None
    } else {
        Some(
            TgaHeader {
                id_length: s[0],
                cmap_type: s[1],
                image_type_raw: s[2],
                cmap_first: u16_at(s, 3),
                cmap_length: u16_at(s, 5),
                cmap_entry_size: s[7],
                x_origin: u16_at(s, 8),
                y_origin: u16_at(s, 10),
                width: u16_at(s, 12),
                height: u16_at(s, 14),
                depth: s[16],
                descriptor: s[17],
            },
        )
    }
}

/// Parse the 18-byte TGA header. Returns `None` if the input is shorter
/// than 18 bytes.
pub fn parse_header(input: &[u8]) -> (r: Option<TgaHeader>)
    ensures
        r == spec_parse_header(input@),
{
    if input.len() < TGA_HEADER_SIZE {
        return None;
    }
    Some(
        TgaHeader {
            id_length: input[0],
            cmap_type: input[1],
            image_type_raw: input[2],
            cmap_first: read_u16_le(input, 3),
            cmap_length: read_u16_le(input, 5),
            cmap_entry_size: input[7],
            x_origin: read_u16_le(input, 8),
            y_origin: read_u16_le(input, 10),
            width: read_u16_le(input, 12),
            height: read_u16_le(input, 14),
            depth: input[16],
            descriptor: input[17],
        },
    )
}

/// Law: the header read from a stream that starts with a header's bytes
/// is that header.
pub proof fn lemma_header_roundtrip(h: TgaHeader, rest: Seq<u8>)
    ensures
        h.spec_bytes().len() == 18,
        spec_parse_header(h.spec_bytes() + rest) == Some(h),
{
    let s = h.spec_bytes() + rest;
    lemma_u16_roundtrip(h.cmap_first);
    lemma_u16_roundtrip(h.cmap_length);
    lemma_u16_roundtrip(h.x_origin);
    lemma_u16_roundtrip(h.y_origin);
    lemma_u16_roundtrip(h.width);
    lemma_u16_roundtrip(h.height);
    assert(u16_at(s, 3) == u16_at(u16_le_bytes(h.cmap_first), 0));
    assert(u16_at(s, 5) == u16_at(u16_le_bytes(h.cmap_length), 0));
    assert(u16_at(s, 8) == u16_at(u16_le_bytes(h.x_origin), 0));
    assert(u16_at(s, 10) == u16_at(u16_le_bytes(h.y_origin), 0));
    assert(u16_at(s, 12) == u16_at(u16_le_bytes(h.width), 0));
    assert(u16_at(s, 14) == u16_at(u16_le_bytes(h.height), 0));
}

// ---------------------------------------------------------------------------
// Footer
// ---------------------------------------------------------------------------

/// Offsets parsed out of the optional 26-byte TGA 2.0 footer. A zero
/// offset means "this section is not present".
#[derive(Debug, Clone, Copy, PartialEq, Eq, Structural, Default)]
pub struct TgaFooter {
    /// Byte offset of the extension area (0 if absent).
    pub extension_area_offset: u32,
    /// Byte offset of the developer directory (0 if absent).
    pub developer_directory_offset: u32,
}

impl TgaFooter {
    /// The all-zero marker footer (neither extension area nor developer
    /// directory).
    pub fn unset() -> (f: Self)
        ensures
            f.extension_area_offset == 0,
            f.developer_directory_offset == 0,
    {
        TgaFooter { extension_area_offset: 0, developer_directory_offset: 0 }
    }

    /// Build a footer from the two byte offsets.
    pub fn new(extension_area_offset: u32, developer_directory_offset: u32) -> (f: Self)
        ensures
            f.extension_area_offset == extension_area_offset,
            f.developer_directory_offset == developer_directory_offset,
    {
        TgaFooter { extension_area_offset, developer_directory_offset }
    }

    /// The `(extension_area_offset, developer_directory_offset)` pair.
    pub fn as_tuple(self) -> (t: (u32, u32))
        ensures
            t == (self.extension_area_offset, self.developer_directory_offset),
    {
        (self.extension_area_offset, self.developer_directory_offset)
    }

    /// Inverse of [`Self::as_tuple`].
    pub fn from_tuple(t: (u32, u32)) -> (f: Self)
        ensures
            f.extension_area_offset == t.0,
            f.developer_directory_offset == t.1,
    {
        TgaFooter { extension_area_offset: t.0, developer_directory_offset: t.1 }
    }

    /// `true` when the footer advertises an extension area.
    #[verifier::allow_in_spec]
    pub fn has_extension_area(self) -> bool
        returns
            self.extension_area_offset != 0,
    {
        self.extension_area_offset != 0
    }

    /// `true` when the footer advertises a developer directory.
    #[verifier::allow_in_spec]
    pub fn has_developer_area(self) -> bool
        returns
            self.developer_directory_offset != 0,
    {
        self.developer_directory_offset != 0
    }

    /// `true` when both offsets are zero.
    pub fn is_marker_only(self) -> (r: bool)
        ensures
            r == (self.extension_area_offset == 0 && self.developer_directory_offset == 0),
    {
        !self.has_extension_area() && !self.has_developer_area()
    }

    /// `true` when every non-zero offset lies at or before the start of
    /// the trailing 26-byte footer of a file of `input_len` bytes.
    pub fn offsets_within(self, input_len: usize) -> (r: bool)
        ensures
            r == (input_len >= 26 && (self.extension_area_offset == 0
                || self.extension_area_offset <= input_len - 26) && (
            self.developer_directory_offset == 0 || self.developer_directory_offset <= input_len
                - 26)),
    {
        if input_len < TGA_FOOTER_SIZE {
            return false;
        }
        let footer_start = input_len - TGA_FOOTER_SIZE;
        if self.has_extension_area() && (self.extension_area_offset as usize) > footer_start {
            return false;
        }
        if self.has_developer_area() && (self.developer_directory_offset as usize) > footer_start {
            return false;
        }
        true
    }

    /// The 26 on-disk bytes of this footer.
    pub open spec fn spec_bytes(self) -> Seq<u8> {
        u32_le_bytes(self.extension_area_offset) + u32_le_bytes(self.developer_directory_offset)
            + TGA_FOOTER_MAGIC@
    }

    /// Serialise the footer to its canonical 26-byte on-disk layout: two
    /// little-endian `u32` offsets followed by the signature.
    pub fn to_bytes(self) -> (out: [u8; 26])
        ensures
            out@ == self.spec_bytes(),
    {
        let mut v: Vec<u8> = Vec::new();
        push_u32_le(&mut v, self.extension_area_offset);
        push_u32_le(&mut v, self.developer_directory_offset);
        let mut out = [0u8; 26];
        let mut i: usize = 0;
        while i < 8
            invariant
                i <= 8,
                v@.len() == 8,
                forall|j: int| 0 <= j < i ==> out@[j] == v@[j],
            decreases 8 - i,
        {
            out[i] = v[i];
            i = i + 1;
        }
        let mut k: usize = 0;
        while k < 18
            invariant
                k <= 18,
                v@.len() == 8,
                forall|j: int| 0 <= j < 8 ==> out@[j] == v@[j],
                forall|j: int| 0 <= j < k ==> out@[8 + j] == TGA_FOOTER_MAGIC@[j],
            decreases 18 - k,
        {
            out[8 + k] = TGA_FOOTER_MAGIC[k];
            k = k + 1;
        }
        assert(out@ =~= self.spec_bytes());
        out
    }
}

/// The footer at the tail of `s`, if the last 26 bytes end in the magic.
pub open spec fn spec_parse_footer(s: Seq<u8>) -> Option<TgaFooter> {
    if s.len() < 26 {
        None
    } else if s.subrange(s.len() - 18, s.len() as int) != TGA_FOOTER_MAGIC@ {
        None
    } else {
        Some(
            TgaFooter {
                extension_area_offset: u32_at(s, s.len() - 26),
                developer_directory_offset: u32_at(s, s.len() - 22),
            },
        )
    }
}

/// Detect + parse the 26-byte TGA 2.0 footer at the tail of `input`.
/// Returns `None` if the magic isn't present.
pub fn parse_footer(input: &[u8]) -> (r: Option<TgaFooter>)
    ensures
        r == spec_parse_footer(input@),
{
    if input.len() < TGA_FOOTER_SIZE {
        return None;
    }
    let off = input.len() - TGA_FOOTER_SIZE;
    let mut k: usize = 0;
    while k < 18
        invariant
            k <= 18,
            off + 26 == input.len(),
            forall|j: int| 0 <= j < k ==> input@[off + 8 + j] == TGA_FOOTER_MAGIC@[j],
        decreases 18 - k,
    {
        if input[off + 8 + k] != TGA_FOOTER_MAGIC[k] {
            assert(input@.subrange(input@.len() - 18, input@.len() as int)[k as int]
                != TGA_FOOTER_MAGIC@[k as int]);
            return None;
        }
        k = k + 1;
    }
    assert(input@.subrange(input@.len() - 18, input@.len() as int) =~= TGA_FOOTER_MAGIC@);
    Some(
        TgaFooter {
            extension_area_offset: read_u32_le(input, off),
            developer_directory_offset: read_u32_le(input, off + 4),
        },
    )
}

/// Law: appending a footer's bytes to any stream makes the footer
/// parser return exactly that footer.
pub proof fn lemma_footer_roundtrip(prefix: Seq<u8>, f: TgaFooter)
    ensures
        spec_parse_footer(prefix + f.spec_bytes()) == Some(f),
{
    let s = prefix + f.spec_bytes();
    let p = prefix.len() as int;
    lemma_u32_roundtrip(f.extension_area_offset);
    lemma_u32_roundtrip(f.developer_directory_offset);
    assert(s.subrange(s.len() - 18, s.len() as int) =~= TGA_FOOTER_MAGIC@);
    assert(u32_at(s, p) == u32_at(u32_le_bytes(f.extension_area_offset), 0));
    assert(u32_at(s, p + 4) == u32_at(u32_le_bytes(f.developer_directory_offset), 0));
}

} // verus!
