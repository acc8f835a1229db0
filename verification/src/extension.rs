//! The TGA 2.0 extension area: its 495-byte fixed layout, the parser and
//! the typed accessors over the parsed fields.
use vstd::prelude::*;
use vstd::utf8::{valid_utf8, decode_utf8};
use crate::types::{read_u16_le, read_u32_le, u16_at, u32_at, TGA_HEADER_SIZE};
use crate::ext_fields::{
    AttributesType, TgaTimestamp, JobTime, KeyColor, PixelAspectRatio, GammaValue,
    SoftwareVersion, attributes_type_of,
};
use crate::ascii::{TgaAsciiField, TgaAuthorComments};

verus! {

/// Size of the extension area as the standard lays it out.
pub const TGA_EXTENSION_AREA_SIZE: usize = 495;

/// What `String::from_utf8_lossy` makes of a byte string.
pub uninterp spec fn utf8_lossy(bytes: Seq<u8>) -> Seq<char>;

/// `String::from_utf8_lossy(..).into_owned()`: the bytes decoded as UTF-8,
/// invalid sequences replaced by U+FFFD. Stated: the result is a function
/// of the bytes, and valid UTF-8 decodes exactly; the replacement
/// behaviour on invalid input is left unsaid.
#[verifier::external_body]
fn string_from_utf8_lossy(bytes: &[u8]) -> (s: String)
    ensures
        s@ == utf8_lossy(bytes@),
        valid_utf8(bytes@) ==> s@ == decode_utf8(bytes@),
{
    String::from_utf8_lossy(bytes).into_owned()
}

/// Index of the first NUL byte of `s`, or its length when there is none.
pub open spec fn nul_end(s: Seq<u8>) -> int
    decreases s.len(),
{
    if s.len() == 0 {
        0
    } else if s[0] == 0 {
        0
    } else {
        1 + nul_end(s.drop_first())
    }
}

/// A text field's payload: the bytes before the first NUL, decoded as
/// UTF-8 (lossily when they are not valid UTF-8).
pub open spec fn field_text(s: Seq<u8>) -> Seq<char> {
    let t = s.take(nul_end(s));
    if valid_utf8(t) {
        decode_utf8(t)
    } else {
        utf8_lossy(t)
    }
}

/// `nul_end` is the first NUL position (or the length).
pub proof fn lemma_nul_end(s: Seq<u8>, n: int)
    requires
        0 <= n <= s.len(),
        forall|j: int| 0 <= j < n ==> s[j] != 0,
        n == s.len() || s[n] == 0,
    ensures
        nul_end(s) == n,
    decreases s.len(),
{
    if s.len() > 0 && n > 0 {
        lemma_nul_end(s.drop_first(), n - 1);
    }
}

/// Read a NUL-terminated text field from a fixed-width slot.
fn read_string(slot: &[u8]) -> (s: String)
    ensures
        s@ == field_text(slot@),
{
    let mut i: usize = 0;
    while i < slot.len() && slot[i] != 0
        invariant
            i <= slot.len(),
            forall|j: int| 0 <= j < i ==> slot@[j] != 0,
        decreases slot.len() - i,
    {
        i = i + 1;
    }
    proof {
        lemma_nul_end(slot@, i as int);
    }
    let payload = vstd::slice::slice_subrange(slot, 0, i);
    assert(payload@ =~= slot@.take(i as int));
    string_from_utf8_lossy(payload)
}

/// Parsed TGA 2.0 extension-area body.
#[derive(Debug, PartialEq, Eq)]
pub struct TgaExtensionArea {
    /// Reported size of the extension area (495 for canonical files).
    pub extension_size: u16,
    /// Author name (at most 40 characters on disk).
    pub author_name: String,
    /// The four author-comment lines.
    pub author_comment: [String; 4],
    /// Date/time stamp.
    pub timestamp: TgaTimestamp,
    /// Job name / ID.
    pub job_name: String,
    /// Job elapsed time `(hours, minutes, seconds)`.
    pub job_time: (u16, u16, u16),
    /// Software ID.
    pub software_id: String,
    /// Software version `(version × 100, letter)`.
    pub software_version: (u16, char),
    /// Key colour as `[A, R, G, B]`.
    pub key_color: [u8; 4],
    /// Pixel aspect ratio `(numerator, denominator)`.
    pub pixel_aspect_ratio: (u16, u16),
    /// Gamma `(numerator, denominator)`.
    pub gamma: (u16, u16),
    /// Offset of the colour-correction table (0 = absent).
    pub colour_correction_offset: u32,
    /// Offset of the postage stamp (0 = absent).
    pub postage_stamp_offset: u32,
    /// Offset of the scan-line table (0 = absent).
    pub scan_line_offset: u32,
    /// Alpha attributes type byte.
    pub attributes_type: u8,
}

/// `true` when the extension area at `offset` lies entirely in `s`
/// (`offset` 0 means "no extension area") and its stored size leaves room
/// for the 495 bytes of fixed-layout fields.
pub open spec fn ext_area_fits(s: Seq<u8>, offset: u32) -> bool {
    offset != 0 && offset + 495 <= s.len() && u16_at(s, offset as int) >= 495
}

/// `true` when `e` holds exactly the fields stored in the 495 bytes of `s`
/// starting at `off`.
pub open spec fn ext_area_at(e: TgaExtensionArea, s: Seq<u8>, off: int) -> bool {
    let b = s.subrange(off, off + 495);
    &&& e.extension_size == u16_at(b, 0)
    &&& e.author_name@ == field_text(b.subrange(2, 43))
    &&& e.author_comment@[0]@ == field_text(b.subrange(43, 124))
    &&& e.author_comment@[1]@ == field_text(b.subrange(124, 205))
    &&& e.author_comment@[2]@ == field_text(b.subrange(205, 286))
    &&& e.author_comment@[3]@ == field_text(b.subrange(286, 367))
    &&& e.timestamp == TgaTimestamp {
        month: u16_at(b, 367),
        day: u16_at(b, 369),
        year: u16_at(b, 371),
        hour: u16_at(b, 373),
        minute: u16_at(b, 375),
        second: u16_at(b, 377),
    }
    &&& e.job_name@ == field_text(b.subrange(379, 420))
    &&& e.job_time == (u16_at(b, 420), u16_at(b, 422), u16_at(b, 424))
    &&& e.software_id@ == field_text(b.subrange(426, 467))
    &&& e.software_version == (u16_at(b, 467), b[469] as char)
    &&& e.key_color == [b[470], b[471], b[472], b[473]]
    &&& e.pixel_aspect_ratio == (u16_at(b, 474), u16_at(b, 476))
    &&& e.gamma == (u16_at(b, 478), u16_at(b, 480))
    &&& e.colour_correction_offset == u32_at(b, 482)
    &&& e.postage_stamp_offset == u32_at(b, 486)
    &&& e.scan_line_offset == u32_at(b, 490)
    &&& e.attributes_type == b[494]
}

/// Parse the extension-area body at byte `offset` of `input`. `None` when
/// `offset` is 0 (no extension area), when the 495-byte body is truncated,
/// or when its stored extension size is too small for the fixed-layout
/// fields to fit.
pub fn parse_extension_area(input: &[u8], offset: u32) -> (r: Option<TgaExtensionArea>)
    ensures
        match r {
            Some(e) => ext_area_fits(input@, offset) && ext_area_at(e, input@, offset as int),
            None => !ext_area_fits(input@, offset),
        },
{
    if offset == 0 {
        return None;
    }
    let off = offset as usize;
    if input.len() < off || input.len() - off < TGA_EXTENSION_AREA_SIZE {
        return None;
    }
    let buf = vstd::slice::slice_subrange(input, off, off + TGA_EXTENSION_AREA_SIZE);
    let ghost b = input@.subrange(off as int, off + 495);
    assert(buf@ =~= b);
    let extension_size = read_u16_le(buf, 0);
    assert(u16_at(b, 0) == u16_at(input@, off as int));
    if extension_size < 495 {
        return None;
    }
    let author_name = read_string(vstd::slice::slice_subrange(buf, 2, 43));
    let c0 = read_string(vstd::slice::slice_subrange(buf, 43, 124));
    let c1 = read_string(vstd::slice::slice_subrange(buf, 124, 205));
    let c2 = read_string(vstd::slice::slice_subrange(buf, 205, 286));
    let c3 = read_string(vstd::slice::slice_subrange(buf, 286, 367));
    let timestamp = TgaTimestamp {
        month: read_u16_le(buf, 367),
        day: read_u16_le(buf, 369),
        year: read_u16_le(buf, 371),
        hour: read_u16_le(buf, 373),
        minute: read_u16_le(buf, 375),
        second: read_u16_le(buf, 377),
    };
    let job_name = read_string(vstd::slice::slice_subrange(buf, 379, 420));
    let job_time = (read_u16_le(buf, 420), read_u16_le(buf, 422), read_u16_le(buf, 424));
    let software_id = read_string(vstd::slice::slice_subrange(buf, 426, 467));
    let software_version = (read_u16_le(buf, 467), buf[469] as char);
    let key_color = [buf[470], buf[471], buf[472], buf[473]];
    let pixel_aspect_ratio = (read_u16_le(buf, 474), read_u16_le(buf, 476));
    let gamma = (read_u16_le(buf, 478), read_u16_le(buf, 480));
    let e = TgaExtensionArea {
        extension_size,
        author_name,
        author_comment: [c0, c1, c2, c3],
        timestamp,
        job_name,
        job_time,
        software_id,
        software_version,
        key_color,
        pixel_aspect_ratio,
        gamma,
        colour_correction_offset: read_u32_le(buf, 482),
        postage_stamp_offset: read_u32_le(buf, 486),
        scan_line_offset: read_u32_le(buf, 490),
        attributes_type: buf[494],
    };
    Some(e)
}

impl Clone for TgaExtensionArea {
    fn clone(&self) -> (r: Self)
        ensures
            r == *self,
    {
        let r = TgaExtensionArea {
            extension_size: self.extension_size,
            author_name: self.author_name.clone(),
            author_comment: [
                self.author_comment[0].clone(),
                self.author_comment[1].clone(),
                self.author_comment[2].clone(),
                self.author_comment[3].clone(),
            ],
            timestamp: self.timestamp,
            job_name: self.job_name.clone(),
            job_time: self.job_time,
            software_id: self.software_id.clone(),
            software_version: self.software_version,
            key_color: self.key_color,
            pixel_aspect_ratio: self.pixel_aspect_ratio,
            gamma: self.gamma,
            colour_correction_offset: self.colour_correction_offset,
            postage_stamp_offset: self.postage_stamp_offset,
            scan_line_offset: self.scan_line_offset,
            attributes_type: self.attributes_type,
        };
        assert(r.author_comment =~= self.author_comment);
        r
    }
}

impl Default for TgaExtensionArea {
    fn default() -> (e: Self)
        ensures
            e.extension_size == 495,
            e.author_name@.len() == 0,
            forall|i: int| 0 <= i < 4 ==> (#[trigger] e.author_comment@[i])@.len() == 0,
            e.timestamp.is_unset_spec(),
            e.job_name@.len() == 0,
            e.job_time == (0u16, 0u16, 0u16),
            e.software_id@.len() == 0,
            e.software_version == (0u16, ' '),
            e.key_color == [0u8, 0u8, 0u8, 0u8],
            e.pixel_aspect_ratio == (0u16, 0u16),
            e.gamma == (0u16, 0u16),
            e.colour_correction_offset == 0,
            e.postage_stamp_offset == 0,
            e.scan_line_offset == 0,
            e.attributes_type == 0,
    {
        TgaExtensionArea {
            extension_size: 495,
            author_name: String::new(),
            author_comment: [String::new(), String::new(), String::new(), String::new()],
            timestamp: TgaTimestamp::unset(),
            job_name: String::new(),
            job_time: (0, 0, 0),
            software_id: String::new(),
            software_version: (0, ' '),
            key_color: [0, 0, 0, 0],
            pixel_aspect_ratio: (0, 0),
            gamma: (0, 0),
            colour_correction_offset: 0,
            postage_stamp_offset: 0,
            scan_line_offset: 0,
            attributes_type: 0,
        }
    }
}

impl TgaExtensionArea {
    /// Typed view of `attributes_type`.
    pub fn attributes(&self) -> (r: AttributesType)
        ensures
            r == attributes_type_of(self.attributes_type),
    {
        AttributesType::from_u8(self.attributes_type)
    }

    /// Typed view of `key_color`.
    pub fn key_color_typed(&self) -> (r: KeyColor)
        ensures
            r == (KeyColor {
                a: self.key_color[0],
                r: self.key_color[1],
                g: self.key_color[2],
                b: self.key_color[3],
            }),
    {
        KeyColor::from_argb(self.key_color)
    }

    /// Typed view of `pixel_aspect_ratio`.
    pub fn pixel_aspect_ratio_typed(&self) -> (r: PixelAspectRatio)
        ensures
            r.numerator == self.pixel_aspect_ratio.0 && r.denominator
                == self.pixel_aspect_ratio.1,
    {
        PixelAspectRatio::new(self.pixel_aspect_ratio.0, self.pixel_aspect_ratio.1)
    }

    /// Typed view of `gamma`.
    pub fn gamma_typed(&self) -> (r: GammaValue)
        ensures
            r.numerator == self.gamma.0 && r.denominator == self.gamma.1,
    {
        GammaValue::new(self.gamma.0, self.gamma.1)
    }

    /// Typed view of `software_version`.
    pub fn software_version_typed(&self) -> (r: SoftwareVersion)
        ensures
            r.number_times_100 == self.software_version.0 && r.letter
                == self.software_version.1,
    {
        SoftwareVersion::new(self.software_version.0, self.software_version.1)
    }

    /// The date/time stamp.
    pub fn timestamp_typed(&self) -> (r: TgaTimestamp)
        ensures
            r == self.timestamp,
    {
        self.timestamp
    }

    /// Typed view of `job_time`.
    pub fn job_time_typed(&self) -> (r: JobTime)
        ensures
            (r.hours, r.minutes, r.seconds) == self.job_time,
    {
        JobTime::from_tuple(self.job_time)
    }

    /// Typed view of `author_name`.
    pub fn author_name_typed(&self) -> (r: TgaAsciiField)
        ensures
            r.value == self.author_name,
    {
        TgaAsciiField::new(self.author_name.clone())
    }

    /// Typed view of the author-comment lines.
    pub fn author_comments_typed(&self) -> (r: TgaAuthorComments)
        ensures
            r.lines@ == self.author_comment@,
    {
        let lines = [
            self.author_comment[0].clone(),
            self.author_comment[1].clone(),
            self.author_comment[2].clone(),
            self.author_comment[3].clone(),
        ];
        assert(lines@ =~= self.author_comment@);
        TgaAuthorComments::new(lines)
    }

    /// Typed view of `job_name`.
    pub fn job_name_typed(&self) -> (r: TgaAsciiField)
        ensures
            r.value == self.job_name,
    {
        TgaAsciiField::new(self.job_name.clone())
    }

    /// Typed view of `software_id`.
    pub fn software_id_typed(&self) -> (r: TgaAsciiField)
        ensures
            r.value == self.software_id,
    {
        TgaAsciiField::new(self.software_id.clone())
    }
}

} // verus!
