//! Typed views of individual fixed-header fields: the image-descriptor
//! attribute-bit count (bits 3-0) and interleaving flag (bits 7-6), the
//! screen-placement origin (bytes 8-11) and the colour-map type (byte 1).
use vstd::prelude::*;
use crate::types::{TgaHeader, TGA_HEADER_SIZE, u16_at, u16_le_bytes, read_u16_le};

verus! {

/// Largest attribute-bit count the 4-bit descriptor field can hold.
pub const TGA_ATTRIBUTE_BITS_MAX: u8 = 15;

/// Mask of the descriptor's interleaving bits (7-6).
pub const TGA_INTERLEAVING_MASK: u8 = 0xC0;

/// Number of attribute (alpha) bits per pixel the image descriptor declares.
#[derive(Debug, Clone, Copy, PartialEq, Eq, Structural, Default)]
pub struct AttributeBits {
    /// Attribute bits per pixel, `0..=15`.
    pub count: u8,
}

impl AttributeBits {
    /// Zero attribute bits: the pixel carries no meaningful alpha.
    pub fn none() -> (r: Self)
        ensures
            r.count == 0,
    {
        AttributeBits { count: 0 }
    }

    /// Wrap a count, keeping only the four bits the descriptor field holds.
    pub fn new(count: u8) -> (r: Self)
        ensures
            r.count == count & 0x0F,
            r.count <= TGA_ATTRIBUTE_BITS_MAX,
    {
        assert(count & 0x0F <= 15) by (bit_vector);
        AttributeBits { count: count & 0x0F }
    }

    /// The count held in the low nibble of an image-descriptor byte.
    pub fn from_descriptor(descriptor: u8) -> (r: Self)
        ensures
            r.count == descriptor & 0x0F,
    {
        AttributeBits::new(descriptor)
    }

    /// `true` when no attribute bits are declared.
    pub fn is_none(self) -> (r: bool)
        ensures
            r == (self.count == 0),
    {
        self.count == 0
    }

    /// `true` when at least one attribute bit is declared.
    pub fn has_alpha(self) -> (r: bool)
        ensures
            r == (self.count != 0),
    {
        self.count != 0
    }

    /// `true` when the count is the one the spec pairs with `depth`: 8 for
    /// 32 bpp, 1 for 16 bpp, or zero at any depth.
    pub fn is_canonical_for_depth(self, depth: u8) -> (r: bool)
        ensures
            r == (self.count == 0 || (depth == 32 && self.count == 8) || (depth == 16
                && self.count == 1)),
    {
        self.count == 0 || (depth == 32 && self.count == 8) || (depth == 16 && self.count == 1)
    }
}

/// Data-storage interleaving flag of the image descriptor (bits 7-6).
#[derive(Debug, Clone, Copy, PartialEq, Eq, Structural, Default)]
pub enum Interleaving {
    /// `00` — non-interleaved (the only TGA 2.0 value).
    #[default]
    NonInterleaved,
    /// `01` — two-way (even/odd) interleaving.
    TwoWay,
    /// `10` — four-way interleaving.
    FourWay,
    /// `11` — reserved.
    Reserved,
}

/// The interleaving a two-bit field value names.
pub open spec fn interleaving_of(v: u8) -> Interleaving {
    if v == 0 {
        Interleaving::NonInterleaved
    } else if v == 1 {
        Interleaving::TwoWay
    } else if v == 2 {
        Interleaving::FourWay
    } else {
        Interleaving::Reserved
    }
}

impl Interleaving {
    /// The interleaving named by bits 7-6 of an image-descriptor byte.
    pub fn from_descriptor(descriptor: u8) -> (r: Self)
        ensures
            r == interleaving_of(descriptor >> 6),
    {
        let v = descriptor >> 6;
        assert(v <= 3) by (bit_vector)
            requires
                v == descriptor >> 6,
        ;
        if v == 0 {
            Interleaving::NonInterleaved
        } else if v == 1 {
            Interleaving::TwoWay
        } else if v == 2 {
            Interleaving::FourWay
        } else {
            Interleaving::Reserved
        }
    }

    /// The two-bit field value (`0..=3`).
    pub fn raw(self) -> (r: u8)
        ensures
            r <= 3,
            interleaving_of(r) == self,
    {
        match self {
            Interleaving::NonInterleaved => 0,
            Interleaving::TwoWay => 1,
            Interleaving::FourWay => 2,
            Interleaving::Reserved => 3,
        }
    }

    /// The flag positioned in descriptor bits 7-6 (other bits zero).
    pub fn to_descriptor_bits(self) -> (r: u8)
        ensures
            r & !TGA_INTERLEAVING_MASK == 0,
            interleaving_of(r >> 6) == self,
    {
        let v = self.raw();
        let r = v << 6;
        assert(r & !0xC0u8 == 0 && (r >> 6) == v) by (bit_vector)
            requires
                v <= 3,
                r == v << 6,
        ;
        r
    }

    /// `true` for [`Interleaving::NonInterleaved`].
    pub fn is_non_interleaved(self) -> (r: bool)
        ensures
            r == (self is NonInterleaved),
    {
        matches!(self, Interleaving::NonInterleaved)
    }

    /// `true` for [`Interleaving::TwoWay`].
    pub fn is_two_way(self) -> (r: bool)
        ensures
            r == (self is TwoWay),
    {
        matches!(self, Interleaving::TwoWay)
    }

    /// `true` for [`Interleaving::FourWay`].
    pub fn is_four_way(self) -> (r: bool)
        ensures
            r == (self is FourWay),
    {
        matches!(self, Interleaving::FourWay)
    }

    /// `true` for [`Interleaving::Reserved`].
    pub fn is_reserved(self) -> (r: bool)
        ensures
            r == (self is Reserved),
    {
        matches!(self, Interleaving::Reserved)
    }

    /// `true` when the flag has the value TGA 2.0 requires (zero).
    pub fn is_tga2_compliant(self) -> (r: bool)
        ensures
            r == (self is NonInterleaved),
    {
        matches!(self, Interleaving::NonInterleaved)
    }
}

/// On-screen placement of the image's lower-left corner (header bytes 8-11).
#[derive(Debug, Clone, Copy, PartialEq, Eq, Structural, Default)]
pub struct ImageOrigin {
    /// Horizontal coordinate (bytes 8-9).
    pub x: u16,
    /// Vertical coordinate (bytes 10-11).
    pub y: u16,
}

impl ImageOrigin {
    /// The `(0, 0)` screen-origin default.
    pub fn origin() -> (r: Self)
        ensures
            r.x == 0 && r.y == 0,
    {
        ImageOrigin { x: 0, y: 0 }
    }

    /// Wrap an `(x, y)` coordinate.
    pub fn new(x: u16, y: u16) -> (r: Self)
        ensures
            r.x == x && r.y == y,
    {
        ImageOrigin { x, y }
    }

    /// The `(x, y)` pair.
    pub fn as_tuple(self) -> (r: (u16, u16))
        ensures
            r == (self.x, self.y),
    {
        (self.x, self.y)
    }

    /// Build from an `(x, y)` pair; inverse of [`Self::as_tuple`].
    pub fn from_tuple(t: (u16, u16)) -> (r: Self)
        ensures
            r.x == t.0 && r.y == t.1,
    {
        ImageOrigin { x: t.0, y: t.1 }
    }

    /// `true` for the `(0, 0)` default.
    pub fn is_origin(self) -> (r: bool)
        ensures
            r == (self.x == 0 && self.y == 0),
    {
        self.x == 0 && self.y == 0
    }

    /// `true` for any placement other than `(0, 0)`.
    pub fn is_offset(self) -> (r: bool)
        ensures
            r == !(self.x == 0 && self.y == 0),
    {
        !self.is_origin()
    }

    /// The four on-disk bytes: `x` then `y`, little-endian.
    pub open spec fn spec_bytes(self) -> Seq<u8> {
        u16_le_bytes(self.x) + u16_le_bytes(self.y)
    }

    /// Serialise to the four on-disk bytes (header bytes 8-11).
    pub fn to_bytes(self) -> (r: [u8; 4])
        ensures
            r@ == self.spec_bytes(),
    {
        let r = [(self.x % 256) as u8, (self.x / 256) as u8, (self.y % 256) as u8, (self.y
            / 256) as u8];
        assert(r@ =~= self.spec_bytes());
        r
    }

    /// Read the origin from the fixed header at the front of `header`;
    /// `None` when fewer than 18 bytes are given.
    pub fn from_header(header: &[u8]) -> (r: Option<Self>)
        ensures
            match r {
                Some(o) => header@.len() >= 18 && o.x == u16_at(header@, 8) && o.y == u16_at(
                    header@,
                    10,
                ),
                None => header@.len() < 18,
            },
    {
        if header.len() < TGA_HEADER_SIZE {
            return None;
        }
        Some(ImageOrigin { x: read_u16_le(header, 8), y: read_u16_le(header, 10) })
    }
}

/// Colour-map type byte (header byte 1).
#[derive(Debug, Clone, Copy, PartialEq, Eq, Structural, Default)]
pub enum ColorMapType {
    /// `0` — no colour map.
    #[default]
    Absent,
    /// `1` — a colour map follows the Image ID.
    Present,
    /// Any other value, preserved verbatim.
    Reserved(u8),
}

/// The colour-map type a header byte names.
pub open spec fn color_map_type_of(v: u8) -> ColorMapType {
    if v == 0 {
        ColorMapType::Absent
    } else if v == 1 {
        ColorMapType::Present
    } else {
        ColorMapType::Reserved(v)
    }
}

impl ColorMapType {
    /// Classify a colour-map type byte.
    pub fn from_u8(v: u8) -> (r: Self)
        ensures
            r == color_map_type_of(v),
    {
        match v {
            0 => ColorMapType::Absent,
            1 => ColorMapType::Present,
            other => ColorMapType::Reserved(other),
        }
    }

    /// The on-disk byte; inverse of [`Self::from_u8`].
    pub fn to_u8(self) -> (r: u8)
        ensures
            match self {
                ColorMapType::Absent => r == 0,
                ColorMapType::Present => r == 1,
                ColorMapType::Reserved(v) => r == v,
            },
    {
        match self {
            ColorMapType::Absent => 0,
            ColorMapType::Present => 1,
            ColorMapType::Reserved(v) => v,
        }
    }

    /// `true` for [`ColorMapType::Absent`].
    pub fn is_absent(self) -> (r: bool)
        ensures
            r == (self is Absent),
    {
        matches!(self, ColorMapType::Absent)
    }

    /// `true` for [`ColorMapType::Present`].
    pub fn is_present(self) -> (r: bool)
        ensures
            r == (self is Present),
    {
        matches!(self, ColorMapType::Present)
    }

    /// `true` for [`ColorMapType::Reserved`].
    pub fn is_reserved(self) -> (r: bool)
        ensures
            r == (self is Reserved),
    {
        matches!(self, ColorMapType::Reserved(_))
    }

    /// `true` for any non-zero byte: map data is taken to follow.
    pub fn has_map_data(self) -> (r: bool)
        ensures
            r == !(self is Absent),
    {
        !matches!(self, ColorMapType::Absent)
    }

    /// `true` for the two values the spec defines (0 and 1).
    pub fn is_conformant(self) -> (r: bool)
        ensures
            r == !(self is Reserved),
    {
        !matches!(self, ColorMapType::Reserved(_))
    }
}

/// Law: classifying a colour-map type byte and writing it back gives the
/// byte.
pub proof fn law_color_map_type_roundtrip(v: u8)
    ensures
        match color_map_type_of(v) {
            ColorMapType::Absent => v == 0,
            ColorMapType::Present => v == 1,
            ColorMapType::Reserved(b) => b == v && v > 1,
        },
{
}

impl TgaHeader {
    /// Typed view of the descriptor's attribute-bit count (bits 3-0).
    pub fn attribute_bits(&self) -> (r: AttributeBits)
        ensures
            r.count == self.descriptor & 0x0F,
    {
        AttributeBits::from_descriptor(self.descriptor)
    }

    /// Typed view of the descriptor's interleaving flag (bits 7-6).
    pub fn interleaving(&self) -> (r: Interleaving)
        ensures
            r == interleaving_of(self.descriptor >> 6),
    {
        Interleaving::from_descriptor(self.descriptor)
    }

    /// Typed view of the screen-placement origin (bytes 8-11).
    pub fn image_origin(&self) -> (r: ImageOrigin)
        ensures
            r.x == self.x_origin && r.y == self.y_origin,
    {
        ImageOrigin { x: self.x_origin, y: self.y_origin }
    }

    /// Typed view of the colour-map type byte (byte 1).
    pub fn color_map_type(&self) -> (r: ColorMapType)
        ensures
            r == color_map_type_of(self.cmap_type),
    {
        ColorMapType::from_u8(self.cmap_type)
    }
}

} // verus!
