//! Typed views of the numeric TGA 2.0 extension-area fields: attributes
//! type, date/time stamp, job time, key colour, pixel aspect ratio, gamma,
//! software version and the postage-stamp geometry.
use vstd::prelude::*;
use crate::image::{TgaImage, TgaPixelFormat};
use crate::textfmt::{padded_dec, push_padded};

verus! {

// ---------------------------------------------------------------------------
// Attributes type (alpha-channel semantics)
// ---------------------------------------------------------------------------

/// Typed view of the extension area's `attributes_type` byte.
#[derive(Debug, Clone, Copy, PartialEq, Eq, Structural, Default)]
pub enum AttributesType {
    /// `0` — no alpha data included.
    #[default]
    NoAlpha,
    /// `1` — undefined alpha data, may be ignored.
    UndefinedIgnore,
    /// `2` — undefined alpha data, should be retained.
    UndefinedRetain,
    /// `3` — useful (straight) alpha-channel data.
    UsefulAlpha,
    /// `4` — pre-multiplied alpha.
    PremultipliedAlpha,
    /// Any value not assigned by the spec; preserved verbatim.
    Reserved(u8),
}

/// The attributes type a raw byte names.
pub open spec fn attributes_type_of(v: u8) -> AttributesType {
    if v == 0 {
        AttributesType::NoAlpha
    } else if v == 1 {
        AttributesType::UndefinedIgnore
    } else if v == 2 {
        AttributesType::UndefinedRetain
    } else if v == 3 {
        AttributesType::UsefulAlpha
    } else if v == 4 {
        AttributesType::PremultipliedAlpha
    } else {
        AttributesType::Reserved(v)
    }
}

/// A stored pre-multiplied colour sample divided back by its alpha:
/// `round(c * 255 / a)` clamped to 255.
pub open spec fn unpremultiply(c: u8, a: u8) -> u8 {
    let q = ((c as int) * 255 + (a as int) / 2) / (a as int);
    if q > 255 {
        255u8
    } else {
        q as u8
    }
}

/// The four bytes of pixel `p` (a byte offset `4 * p`) of `d`.
pub open spec fn px4(d: Seq<u8>, p: int) -> [u8; 4] {
    [d[4 * p], d[4 * p + 1], d[4 * p + 2], d[4 * p + 3]]
}

impl AttributesType {
    /// Decode the byte: 0..=4 name variants, anything else is `Reserved`.
    pub fn from_u8(v: u8) -> (r: Self)
        ensures
            r == attributes_type_of(v),
    {
        match v {
            0 => AttributesType::NoAlpha,
            1 => AttributesType::UndefinedIgnore,
            2 => AttributesType::UndefinedRetain,
            3 => AttributesType::UsefulAlpha,
            4 => AttributesType::PremultipliedAlpha,
            other => AttributesType::Reserved(other),
        }
    }

    /// Encode back to the byte; inverse of [`Self::from_u8`].
    pub fn as_u8(self) -> (r: u8)
        ensures
            attributes_type_of(r) == self || (self is Reserved && self->0 == r),
            match self {
                AttributesType::NoAlpha => r == 0,
                AttributesType::UndefinedIgnore => r == 1,
                AttributesType::UndefinedRetain => r == 2,
                AttributesType::UsefulAlpha => r == 3,
                AttributesType::PremultipliedAlpha => r == 4,
                AttributesType::Reserved(v) => r == v,
            },
    {
        match self {
            AttributesType::NoAlpha => 0,
            AttributesType::UndefinedIgnore => 1,
            AttributesType::UndefinedRetain => 2,
            AttributesType::UsefulAlpha => 3,
            AttributesType::PremultipliedAlpha => 4,
            AttributesType::Reserved(v) => v,
        }
    }

    /// `true` for `UsefulAlpha` and `PremultipliedAlpha`.
    pub fn has_meaningful_alpha(self) -> (r: bool)
        ensures
            r == (self is UsefulAlpha || self is PremultipliedAlpha),
    {
        matches!(self, AttributesType::UsefulAlpha | AttributesType::PremultipliedAlpha)
    }

    /// `true` for `PremultipliedAlpha`.
    pub fn is_premultiplied(self) -> (r: bool)
        ensures
            r == (self is PremultipliedAlpha),
    {
        matches!(self, AttributesType::PremultipliedAlpha)
    }

    /// What [`Self::normalize_rgba8`] returns for `rgba`.
    pub open spec fn normalized(self, rgba: [u8; 4]) -> [u8; 4] {
        match self {
            AttributesType::NoAlpha | AttributesType::UndefinedIgnore => [
                rgba[0],
                rgba[1],
                rgba[2],
                255u8,
            ],
            AttributesType::PremultipliedAlpha => if rgba[3] == 0 {
                [0u8, 0u8, 0u8, 0u8]
            } else {
                [
                    unpremultiply(rgba[0], rgba[3]),
                    unpremultiply(rgba[1], rgba[3]),
                    unpremultiply(rgba[2], rgba[3]),
                    rgba[3],
                ]
            },
            _ => rgba,
        }
    }

    /// Normalise one `[R, G, B, A]` pixel to straight alpha: forced opaque
    /// for `NoAlpha`/`UndefinedIgnore`, un-premultiplied for
    /// `PremultipliedAlpha` (transparent black when `A == 0`), verbatim
    /// otherwise.
    pub fn normalize_rgba8(self, rgba: [u8; 4]) -> (r: [u8; 4])
        ensures
            r == self.normalized(rgba),
    {
        match self {
            AttributesType::NoAlpha | AttributesType::UndefinedIgnore => [
                rgba[0],
                rgba[1],
                rgba[2],
                0xFF,
            ],
            AttributesType::PremultipliedAlpha => {
                let a = rgba[3];
                if a == 0 {
                    return [0, 0, 0, 0];
                }
                [unmul(rgba[0], a), unmul(rgba[1], a), unmul(rgba[2], a), a]
            },
            _ => rgba,
        }
    }

    /// Bytes of an RGBA image after [`Self::apply_to_image`]: every
    /// complete pixel normalised, a trailing partial pixel untouched.
    pub open spec fn applied(self, d: Seq<u8>) -> Seq<u8> {
        Seq::new(
            d.len(),
            |i: int|
                if i < d.len() - d.len() % 4 {
                    self.normalized(px4(d, i / 4))[i % 4]
                } else {
                    d[i]
                },
        )
    }

    /// Normalise every pixel of an RGBA image in place; other formats
    /// are left untouched.
    pub fn apply_to_image(self, image: &mut TgaImage)
        ensures
            final(image).width == old(image).width,
            final(image).height == old(image).height,
            final(image).pixel_format == old(image).pixel_format,
            final(image).pts == old(image).pts,
            final(image).data@ == (if old(image).pixel_format == TgaPixelFormat::Rgba {
                self.applied(old(image).data@)
            } else {
                old(image).data@
            }),
    {
        if image.pixel_format != TgaPixelFormat::Rgba {
            return;
        }
        if matches!(
            self,
            AttributesType::UndefinedRetain | AttributesType::UsefulAlpha | AttributesType::Reserved(_)
        ) {
            assert(image.data@ =~= self.applied(image.data@));
            return;
        }
        let ghost d0 = image.data@;
        let n = image.data.len() / 4;
        let mut p: usize = 0;
        while p < n
            invariant
                n == d0.len() / 4,
                4 * n <= d0.len(),
                d0.len() == image.data.len(),
                p <= n,
                image.width == old(image).width,
                image.height == old(image).height,
                image.pixel_format == old(image).pixel_format,
                image.pts == old(image).pts,
                d0 == old(image).data@,
                forall|i: int|
                    0 <= i < d0.len() ==> #[trigger] image.data@[i] == (if i < 4 * p {
                        self.normalized(px4(d0, i / 4))[i % 4]
                    } else {
                        d0[i]
                    }),
            decreases n - p,
        {
            let b = 4 * p;
            let px = [image.data[b], image.data[b + 1], image.data[b + 2], image.data[b + 3]];
            assert(px == px4(d0, p as int));
            let out = self.normalize_rgba8(px);
            image.data.set(b, out[0]);
            image.data.set(b + 1, out[1]);
            image.data.set(b + 2, out[2]);
            image.data.set(b + 3, out[3]);
            p = p + 1;
        }
        assert(image.data@ =~= self.applied(d0));
    }
}

fn unmul(c: u8, a: u8) -> (r: u8)
    requires
        a != 0,
    ensures
        r == unpremultiply(c, a),
{
    let num = c as u32 * 255 + (a as u32) / 2;
    let q = num / (a as u32);
    if q > 255 {
        255
    } else {
        q as u8
    }
}

// ---------------------------------------------------------------------------
// Date/time stamp
// ---------------------------------------------------------------------------

/// Date/time stamp (extension-area bytes 367-378). All zeros means unset.
#[derive(Debug, Clone, Copy, PartialEq, Eq, Structural, Default)]
pub struct TgaTimestamp {
    pub month: u16,
    pub day: u16,
    pub year: u16,
    pub hour: u16,
    pub minute: u16,
    pub second: u16,
}

impl TgaTimestamp {
    /// The all-zero "not set" stamp.
    pub fn unset() -> (r: Self)
        ensures
            r.is_unset_spec(),
    {
        TgaTimestamp { month: 0, day: 0, year: 0, hour: 0, minute: 0, second: 0 }
    }

    /// `true` when every field is zero.
    pub open spec fn is_unset_spec(&self) -> bool {
        self.month == 0 && self.day == 0 && self.year == 0 && self.hour == 0 && self.minute == 0
            && self.second == 0
    }

    /// `true` when every field is zero.
    pub fn is_unset(&self) -> (r: bool)
        ensures
            r == self.is_unset_spec(),
    {
        self.month == 0 && self.day == 0 && self.year == 0 && self.hour == 0 && self.minute == 0
            && self.second == 0
    }

    /// `true` when month is 1..=12, day 1..=31, year >= 1, hour <= 23,
    /// minute <= 59 and second <= 59.
    pub fn is_valid(&self) -> (r: bool)
        ensures
            r == (1 <= self.month <= 12 && 1 <= self.day <= 31 && self.year >= 1 && self.hour
                <= 23 && self.minute <= 59 && self.second <= 59),
    {
        1 <= self.month && self.month <= 12 && 1 <= self.day && self.day <= 31 && self.year >= 1
            && self.hour <= 23 && self.minute <= 59 && self.second <= 59
    }

    /// The `(month, day, year, hour, minute, second)` tuple in on-disk order.
    pub fn as_tuple(&self) -> (r: (u16, u16, u16, u16, u16, u16))
        ensures
            r == (self.month, self.day, self.year, self.hour, self.minute, self.second),
    {
        (self.month, self.day, self.year, self.hour, self.minute, self.second)
    }

    /// Build from the on-disk-order tuple; inverse of [`Self::as_tuple`].
    pub fn from_tuple(t: (u16, u16, u16, u16, u16, u16)) -> (r: Self)
        ensures
            r.as_tuple_spec() == t,
    {
        TgaTimestamp { month: t.0, day: t.1, year: t.2, hour: t.3, minute: t.4, second: t.5 }
    }

    /// The tuple [`Self::as_tuple`] returns.
    pub open spec fn as_tuple_spec(self) -> (u16, u16, u16, u16, u16, u16) {
        (self.month, self.day, self.year, self.hour, self.minute, self.second)
    }

    /// `"YYYY-MM-DDTHH:MM:SS"` with the year padded to 4 digits and every
    /// other field to 2.
    pub open spec fn iso8601_chars(&self) -> Seq<char> {
        padded_dec(self.year as nat, 4) + seq!['-'] + padded_dec(self.month as nat, 2) + seq!['-']
            + padded_dec(self.day as nat, 2) + seq!['T'] + padded_dec(self.hour as nat, 2) + seq![
            ':',
        ] + padded_dec(self.minute as nat, 2) + seq![':'] + padded_dec(self.second as nat, 2)
    }

    /// ISO-8601 rendering `"YYYY-MM-DDTHH:MM:SS"`, or `None` for the
    /// unset stamp.
    pub fn iso8601(&self) -> (r: Option<String>)
        ensures
            match r {
                Some(s) => !self.is_unset_spec() && s@ == self.iso8601_chars(),
                None => self.is_unset_spec(),
            },
    {
        if self.is_unset() {
            return None;
        }
        proof {
            reveal_strlit("-");
            reveal_strlit("T");
            reveal_strlit(":");
        }
        let mut s = String::new();
        push_padded(&mut s, self.year as u32, 4);
        s.append("-");
        push_padded(&mut s, self.month as u32, 2);
        s.append("-");
        push_padded(&mut s, self.day as u32, 2);
        s.append("T");
        push_padded(&mut s, self.hour as u32, 2);
        s.append(":");
        push_padded(&mut s, self.minute as u32, 2);
        s.append(":");
        push_padded(&mut s, self.second as u32, 2);
        assert(s@ =~= self.iso8601_chars());
        Some(s)
    }
}

// ---------------------------------------------------------------------------
// Job time
// ---------------------------------------------------------------------------

/// Elapsed job time (extension-area bytes 420-425).
#[derive(Debug, Clone, Copy, PartialEq, Eq, Structural, Default)]
pub struct JobTime {
    /// Elapsed hours (full SHORT range).
    pub hours: u16,
    /// Elapsed minutes (`0..=59`).
    pub minutes: u16,
    /// Elapsed seconds (`0..=59`).
    pub seconds: u16,
}

impl JobTime {
    /// The all-zero "not used" sentinel.
    pub fn unset() -> (r: Self)
        ensures
            r.hours == 0 && r.minutes == 0 && r.seconds == 0,
    {
        JobTime { hours: 0, minutes: 0, seconds: 0 }
    }

    /// Wrap an `(hours, minutes, seconds)` triple.
    pub fn new(hours: u16, minutes: u16, seconds: u16) -> (r: Self)
        ensures
            r.hours == hours && r.minutes == minutes && r.seconds == seconds,
    {
        JobTime { hours, minutes, seconds }
    }

    /// Build from the on-disk triple; inverse of [`Self::as_tuple`].
    pub fn from_tuple(triple: (u16, u16, u16)) -> (r: Self)
        ensures
            r.hours == triple.0 && r.minutes == triple.1 && r.seconds == triple.2,
    {
        JobTime { hours: triple.0, minutes: triple.1, seconds: triple.2 }
    }

    /// The `(hours, minutes, seconds)` triple.
    pub fn as_tuple(self) -> (r: (u16, u16, u16))
        ensures
            r == (self.hours, self.minutes, self.seconds),
    {
        (self.hours, self.minutes, self.seconds)
    }

    /// `true` when every field is zero.
    pub fn is_unset(self) -> (r: bool)
        ensures
            r == (self.hours == 0 && self.minutes == 0 && self.seconds == 0),
    {
        self.hours == 0 && self.minutes == 0 && self.seconds == 0
    }

    /// `true` when minutes and seconds are both at most 59.
    pub fn is_valid(self) -> (r: bool)
        ensures
            r == (self.minutes <= 59 && self.seconds <= 59),
    {
        self.minutes <= 59 && self.seconds <= 59
    }

    /// `hours * 3600 + minutes * 60 + seconds`.
    pub fn total_seconds(self) -> (r: u32)
        ensures
            r == self.hours * 3600 + self.minutes * 60 + self.seconds,
    {
        self.hours as u32 * 3600 + self.minutes as u32 * 60 + self.seconds as u32
    }

    /// `"HH:MM:SS"` with every field zero-padded to at least 2 digits.
    pub fn hms_string(self) -> (s: String)
        ensures
            s@ == padded_dec(self.hours as nat, 2) + seq![':'] + padded_dec(self.minutes as nat, 2)
                + seq![':'] + padded_dec(self.seconds as nat, 2),
    {
        proof {
            reveal_strlit(":");
        }
        let mut s = String::new();
        push_padded(&mut s, self.hours as u32, 2);
        s.append(":");
        push_padded(&mut s, self.minutes as u32, 2);
        s.append(":");
        push_padded(&mut s, self.seconds as u32, 2);
        assert(s@ =~= padded_dec(self.hours as nat, 2) + seq![':'] + padded_dec(
            self.minutes as nat,
            2,
        ) + seq![':'] + padded_dec(self.seconds as nat, 2));
        s
    }
}

// ---------------------------------------------------------------------------
// Key colour
// ---------------------------------------------------------------------------

/// The extension area's key (transparent / background) colour, stored on
/// disk as `A:R:G:B`.
#[derive(Debug, Clone, Copy, PartialEq, Eq, Structural, Default)]
pub struct KeyColor {
    pub a: u8,
    pub r: u8,
    pub g: u8,
    pub b: u8,
}

/// Number of complete pixels of `d` (among the first `p`) whose colour
/// bytes equal `(r, g, b)`.
pub open spec fn count_key_matches(d: Seq<u8>, p: int, r: u8, g: u8, b: u8) -> nat
    decreases p,
{
    if p <= 0 {
        0
    } else {
        count_key_matches(d, p - 1, r, g, b) + if d[4 * (p - 1)] == r && d[4 * (p - 1) + 1] == g
            && d[4 * (p - 1) + 2] == b {
            1nat
        } else {
            0nat
        }
    }
}

proof fn lemma_count_key_matches_bound(d: Seq<u8>, p: int, r: u8, g: u8, b: u8)
    requires
        p >= 0,
    ensures
        count_key_matches(d, p, r, g, b) <= p,
    decreases p,
{
    if p > 0 {
        lemma_count_key_matches_bound(d, p - 1, r, g, b);
    }
}

impl KeyColor {
    /// Read the on-disk `[A, R, G, B]` layout.
    pub fn from_argb(bytes: [u8; 4]) -> (k: Self)
        ensures
            k.a == bytes[0] && k.r == bytes[1] && k.g == bytes[2] && k.b == bytes[3],
    {
        KeyColor { a: bytes[0], r: bytes[1], g: bytes[2], b: bytes[3] }
    }

    /// The on-disk `[A, R, G, B]` layout.
    pub fn to_argb(self) -> (r: [u8; 4])
        ensures
            r == [self.a, self.r, self.g, self.b],
    {
        [self.a, self.r, self.g, self.b]
    }

    /// The colour in `[R, G, B, A]` order.
    pub fn as_rgba8(self) -> (r: [u8; 4])
        ensures
            r == [self.r, self.g, self.b, self.a],
    {
        [self.r, self.g, self.b, self.a]
    }

    /// `true` for the all-zero quadruple.
    pub fn is_unset(self) -> (r: bool)
        ensures
            r == (self.a == 0 && self.r == 0 && self.g == 0 && self.b == 0),
    {
        self.a == 0 && self.r == 0 && self.g == 0 && self.b == 0
    }

    /// `true` when the alpha byte is non-zero.
    pub fn has_alpha(self) -> (r: bool)
        ensures
            r == (self.a != 0),
    {
        self.a != 0
    }

    /// `true` when the colour bytes of an `[R, G, B, A]` pixel equal the
    /// key's (the pixel's alpha is ignored).
    pub fn matches_rgb(self, rgba: [u8; 4]) -> (m: bool)
        ensures
            m == (rgba[0] == self.r && rgba[1] == self.g && rgba[2] == self.b),
    {
        rgba[0] == self.r && rgba[1] == self.g && rgba[2] == self.b
    }

    /// `true` when all four bytes of an `[R, G, B, A]` pixel equal the key's.
    pub fn matches_rgba(self, rgba: [u8; 4]) -> (m: bool)
        ensures
            m == (rgba[0] == self.r && rgba[1] == self.g && rgba[2] == self.b && rgba[3]
                == self.a),
    {
        rgba[0] == self.r && rgba[1] == self.g && rgba[2] == self.b && rgba[3] == self.a
    }

    /// Bytes of an RGBA image after [`Self::key_out_image`]: the alpha of
    /// every complete pixel whose colour matches the key becomes 0.
    pub open spec fn keyed(self, d: Seq<u8>) -> Seq<u8> {
        Seq::new(
            d.len(),
            |i: int|
                if i % 4 == 3 && i < d.len() - d.len() % 4 && d[i - 3] == self.r && d[i - 2]
                    == self.g && d[i - 1] == self.b {
                    0u8
                } else {
                    d[i]
                },
        )
    }

    /// Chroma-key an RGBA image: set alpha to 0 on every pixel whose colour
    /// matches the key and return how many pixels matched. Other formats
    /// carry no alpha and are left untouched (returning 0).
    pub fn key_out_image(self, image: &mut TgaImage) -> (n: u32)
        requires
            old(image).data@.len() / 4 <= u32::MAX,
        ensures
            final(image).width == old(image).width,
            final(image).height == old(image).height,
            final(image).pixel_format == old(image).pixel_format,
            final(image).pts == old(image).pts,
            old(image).pixel_format == TgaPixelFormat::Rgba ==> final(image).data@ == self.keyed(
                old(image).data@,
            ) && n == count_key_matches(
                old(image).data@,
                (old(image).data@.len() / 4) as int,
                self.r,
                self.g,
                self.b,
            ),
            old(image).pixel_format != TgaPixelFormat::Rgba ==> final(image).data@ == old(
                image,
            ).data@ && n == 0,
    {
        if image.pixel_format != TgaPixelFormat::Rgba {
            return 0;
        }
        let ghost d0 = image.data@;
        let n = image.data.len() / 4;
        let mut p: usize = 0;
        let mut count: u32 = 0;
        while p < n
            invariant
                n == d0.len() / 4,
                n <= u32::MAX,
                4 * n <= d0.len(),
                d0.len() == image.data.len(),
                p <= n,
                image.width == old(image).width,
                image.height == old(image).height,
                image.pixel_format == old(image).pixel_format,
                image.pts == old(image).pts,
                d0 == old(image).data@,
                count == count_key_matches(d0, p as int, self.r, self.g, self.b),
                forall|i: int|
                    0 <= i < d0.len() ==> #[trigger] image.data@[i] == (if i % 4 == 3 && i < 4 * p
                        && d0[i - 3] == self.r && d0[i - 2] == self.g && d0[i - 1] == self.b {
                        0u8
                    } else {
                        d0[i]
                    }),
            decreases n - p,
        {
            let b = 4 * p;
            proof {
                lemma_count_key_matches_bound(d0, p as int, self.r, self.g, self.b);
            }
            if image.data[b] == self.r && image.data[b + 1] == self.g && image.data[b + 2]
                == self.b {
                image.data.set(b + 3, 0);
                count = count + 1;
            }
            p = p + 1;
        }
        assert(image.data@ =~= self.keyed(d0));
        count
    }
}

// ---------------------------------------------------------------------------
// Pixel aspect ratio, gamma, software version
// ---------------------------------------------------------------------------

/// Pixel aspect ratio `numerator / denominator`; `(0, 0)` means not set.
#[derive(Debug, Clone, Copy, PartialEq, Eq, Structural, Default)]
pub struct PixelAspectRatio {
    pub numerator: u16,
    pub denominator: u16,
}

impl PixelAspectRatio {
    /// The `(0, 0)` "not specified" sentinel.
    pub fn unset() -> (r: Self)
        ensures
            r.numerator == 0 && r.denominator == 0,
    {
        PixelAspectRatio { numerator: 0, denominator: 0 }
    }

    /// Wrap a `(numerator, denominator)` pair.
    pub fn new(numerator: u16, denominator: u16) -> (r: Self)
        ensures
            r.numerator == numerator && r.denominator == denominator,
    {
        PixelAspectRatio { numerator, denominator }
    }

    /// The `(numerator, denominator)` pair.
    pub fn as_tuple(self) -> (r: (u16, u16))
        ensures
            r == (self.numerator, self.denominator),
    {
        (self.numerator, self.denominator)
    }

    /// `true` for the `(0, 0)` sentinel.
    pub fn is_unset(self) -> (r: bool)
        ensures
            r == (self.numerator == 0 && self.denominator == 0),
    {
        self.numerator == 0 && self.denominator == 0
    }

    /// `true` for square pixels: equal numerator and denominator
    /// (including the `(0, 0)` sentinel).
    pub fn is_square(self) -> (r: bool)
        ensures
            r == (self.numerator == self.denominator),
    {
        self.numerator == self.denominator
    }
}

/// `v * a / b` rounded to nearest (halves up), saturated to `u32` and at
/// least 1.
pub open spec fn scaled_dim(v: u32, a: u16, b: u16) -> u32 {
    let q = (2 * (v as int) * (a as int) + (b as int)) / (2 * (b as int));
    if q > u32::MAX {
        u32::MAX
    } else if q < 1 {
        1
    } else {
        q as u32
    }
}

fn scale_dim(v: u32, a: u16, b: u16) -> (r: u32)
    requires
        b > 0,
    ensures
        r == scaled_dim(v, a, b),
{
    assert(2 * (v as int) * (a as int) + (b as int) <= 2 * 0xffff_ffff * 0xffff + 0xffff) by (nonlinear_arith)
        requires
            v <= 0xffff_ffff,
            a <= 0xffff,
            b <= 0xffff,
    ;
    let q = (2 * (v as u64) * (a as u64) + (b as u64)) / (2 * (b as u64));
    if q > 0xffff_ffff {
        0xffff_ffff
    } else if q < 1 {
        1
    } else {
        q as u32
    }
}

impl PixelAspectRatio {
    /// Display size with square pixels for a `w × h` frame: the shorter
    /// pixel axis stretched by the ratio (wide pixels widen the frame,
    /// tall pixels heighten it); `None` when the ratio is unset or zero.
    pub open spec fn display_dims(self, w: u32, h: u32) -> Option<(u32, u32)> {
        if self.denominator == 0 || self.numerator == 0 {
            None
        } else if self.numerator == self.denominator {
            Some((w, h))
        } else if self.numerator > self.denominator {
            Some((scaled_dim(w, self.numerator, self.denominator), h))
        } else {
            Some((w, scaled_dim(h, self.denominator, self.numerator)))
        }
    }

    /// Square-display-pixel size for a `width × height` frame.
    pub fn corrected_display_dimensions(self, width: u32, height: u32) -> (r: Option<(u32, u32)>)
        ensures
            r == self.display_dims(width, height),
    {
        if self.denominator == 0 || self.numerator == 0 {
            None
        } else if self.numerator == self.denominator {
            Some((width, height))
        } else if self.numerator > self.denominator {
            Some((scale_dim(width, self.numerator, self.denominator), height))
        } else {
            Some((width, scale_dim(height, self.denominator, self.numerator)))
        }
    }

    /// Nearest-neighbour resample of `image` to square display pixels;
    /// `None` for an empty image or when the size would not change.
    pub fn resampled(self, image: &TgaImage) -> (r: Option<TgaImage>)
        requires
            image.data@.len() >= image.width * image.height * image.pixel_format.bpp(),
            match self.display_dims(image.width, image.height) {
                Some((dw, dh)) => dw * dh * image.pixel_format.bpp() <= usize::MAX,
                None => true,
            },
        ensures
            match self.display_dims(image.width, image.height) {
                Some((dw, dh)) => if image.width == 0 || image.height == 0 || (dw == image.width
                    && dh == image.height) {
                    r is None
                } else {
                    r matches Some(t) && t.width == dw && t.height == dh && t.pixel_format
                        == image.pixel_format && t.pts == image.pts && t.data@ == subsampled(
                        image.data@,
                        image.width as int,
                        image.height as int,
                        image.pixel_format.bpp() as int,
                        dw as int,
                        dh as int,
                    )
                },
                None => r is None,
            },
    {
        if image.width == 0 || image.height == 0 {
            return None;
        }
        let (dw, dh) = match self.corrected_display_dimensions(image.width, image.height) {
            Some(d) => d,
            None => return None,
        };
        if dw == image.width && dh == image.height {
            return None;
        }
        let data = point_sample(image, dw, dh);
        Some(TgaImage { width: dw, height: dh, pixel_format: image.pixel_format, data, pts: image.pts })
    }

    /// [`Self::resampled`] in place; the image is untouched when that
    /// returns `None`.
    pub fn apply_to_image(self, image: &mut TgaImage)
        requires
            old(image).data@.len() >= old(image).width * old(image).height * old(
                image,
            ).pixel_format.bpp(),
            match self.display_dims(old(image).width, old(image).height) {
                Some((dw, dh)) => dw * dh * old(image).pixel_format.bpp() <= usize::MAX,
                None => true,
            },
        ensures
            match self.display_dims(old(image).width, old(image).height) {
                Some((dw, dh)) => if old(image).width == 0 || old(image).height == 0 || (dw == old(
                    image,
                ).width && dh == old(image).height) {
                    *final(image) == *old(image)
                } else {
                    final(image).width == dw && final(image).height == dh && final(image).pixel_format
                        == old(image).pixel_format && final(image).pts == old(image).pts
                        && final(image).data@ == subsampled(
                        old(image).data@,
                        old(image).width as int,
                        old(image).height as int,
                        old(image).pixel_format.bpp() as int,
                        dw as int,
                        dh as int,
                    )
                },
                None => *final(image) == *old(image),
            },
    {
        match self.resampled(image) {
            Some(out) => {
                *image = out;
            },
            None => {},
        }
    }
}

/// Gamma value `numerator / denominator`; a zero denominator means unused.
#[derive(Debug, Clone, Copy, PartialEq, Eq, Structural, Default)]
pub struct GammaValue {
    pub numerator: u16,
    pub denominator: u16,
}

impl GammaValue {
    /// The `(0, 0)` "not used" sentinel.
    pub fn unset() -> (r: Self)
        ensures
            r.numerator == 0 && r.denominator == 0,
    {
        GammaValue { numerator: 0, denominator: 0 }
    }

    /// Gamma 1.0, `(1, 1)`.
    pub fn one() -> (r: Self)
        ensures
            r.numerator == 1 && r.denominator == 1,
    {
        GammaValue { numerator: 1, denominator: 1 }
    }

    /// Wrap a `(numerator, denominator)` pair.
    pub fn new(numerator: u16, denominator: u16) -> (r: Self)
        ensures
            r.numerator == numerator && r.denominator == denominator,
    {
        GammaValue { numerator, denominator }
    }

    /// The `(numerator, denominator)` pair.
    pub fn as_tuple(self) -> (r: (u16, u16))
        ensures
            r == (self.numerator, self.denominator),
    {
        (self.numerator, self.denominator)
    }

    /// `true` when the denominator is zero (field not used).
    pub fn is_unset(self) -> (r: bool)
        ensures
            r == (self.denominator == 0),
    {
        self.denominator == 0
    }

    /// `true` for a set gamma of exactly 1.0 (`numerator == denominator`).
    pub fn is_identity(self) -> (r: bool)
        ensures
            r == (self.denominator != 0 && self.numerator == self.denominator),
    {
        !self.is_unset() && self.numerator == self.denominator
    }
}

/// Software version: `version × 100` and a release letter (`' '` if none).
#[derive(Debug, Clone, Copy, PartialEq, Eq, Structural)]
pub struct SoftwareVersion {
    pub number_times_100: u16,
    pub letter: char,
}

impl Default for SoftwareVersion {
    fn default() -> (r: Self)
        ensures
            r.number_times_100 == 0 && r.letter == ' ',
    {
        SoftwareVersion::unset()
    }
}

impl SoftwareVersion {
    /// The `(0, ' ')` "not used" sentinel.
    pub fn unset() -> (r: Self)
        ensures
            r.number_times_100 == 0 && r.letter == ' ',
    {
        SoftwareVersion { number_times_100: 0, letter: ' ' }
    }

    /// Wrap a `(version × 100, letter)` pair.
    pub fn new(number_times_100: u16, letter: char) -> (r: Self)
        ensures
            r.number_times_100 == number_times_100 && r.letter == letter,
    {
        SoftwareVersion { number_times_100, letter }
    }

    /// The `(version × 100, letter)` pair.
    pub fn as_tuple(self) -> (r: (u16, char))
        ensures
            r == (self.number_times_100, self.letter),
    {
        (self.number_times_100, self.letter)
    }

    /// `true` for the `(0, ' ')` sentinel.
    pub fn is_unset(self) -> (r: bool)
        ensures
            r == (self.number_times_100 == 0 && self.letter == ' '),
    {
        self.number_times_100 == 0 && self.letter == ' '
    }
}

// ---------------------------------------------------------------------------
// Postage stamp geometry
// ---------------------------------------------------------------------------

/// Recommended maximum postage-stamp edge length.
pub const TGA_POSTAGE_STAMP_RECOMMENDED_MAX: u8 = 64;

/// Hard on-disk maximum postage-stamp edge length (one byte per axis).
pub const TGA_POSTAGE_STAMP_MAX: u8 = 255;

/// Postage-stamp dimension header: the two size bytes before its pixels.
#[derive(Debug, Clone, Copy, PartialEq, Eq, Structural, Default)]
pub struct PostageStamp {
    pub width: u8,
    pub height: u8,
}

/// The stamp geometry [`PostageStamp::recommended_for`] picks for a
/// `w × h` frame: unchanged within 64×64, else the longer edge scaled to
/// 64 and the other by the same ratio (rounded down, at least 1); `(0, 0)`
/// for a degenerate frame.
pub open spec fn recommended_dims(w: u32, h: u32) -> (u8, u8) {
    if w == 0 || h == 0 {
        (0u8, 0u8)
    } else if w <= 64 && h <= 64 {
        (w as u8, h as u8)
    } else if w >= h {
        let m = (h as int) * 64 / (w as int);
        (64u8, if m < 1 { 1u8 } else { m as u8 })
    } else {
        let m = (w as int) * 64 / (h as int);
        (if m < 1 { 1u8 } else { m as u8 }, 64u8)
    }
}

/// The bytes of the point-sampled `sw × sh` thumbnail of a `w × h` image
/// with `bpp` bytes per pixel: stamp pixel `(x, y)` copies source pixel
/// `((x * w) / (sw as int), (y * h) / (sh as int))`.
pub open spec fn subsampled(d: Seq<u8>, w: int, h: int, bpp: int, sw: int, sh: int) -> Seq<u8> {
    Seq::new(
        (sw * sh * bpp) as nat,
        |i: int|
            {
                let p = i / bpp;
                let x = p % sw;
                let y = p / sw;
                d[(((y * h) / (sh as int)) * w + (x * w) / (sw as int)) * bpp + i % bpp]
            },
    )
}

impl PostageStamp {
    /// The `(0, 0)` "no stamp" sentinel.
    pub fn unset() -> (r: Self)
        ensures
            r.width == 0 && r.height == 0,
    {
        PostageStamp { width: 0, height: 0 }
    }

    /// Wrap a `(width, height)` pair.
    pub fn new(width: u8, height: u8) -> (r: Self)
        ensures
            r.width == width && r.height == height,
    {
        PostageStamp { width, height }
    }

    /// The `(width, height)` pair.
    pub fn as_tuple(self) -> (r: (u8, u8))
        ensures
            r == (self.width, self.height),
    {
        (self.width, self.height)
    }

    /// Build from a `(width, height)` pair; inverse of [`Self::as_tuple`].
    pub fn from_tuple(t: (u8, u8)) -> (r: Self)
        ensures
            r.width == t.0 && r.height == t.1,
    {
        PostageStamp { width: t.0, height: t.1 }
    }

    /// `true` when either dimension is zero.
    pub fn is_unset(self) -> (r: bool)
        ensures
            r == (self.width == 0 || self.height == 0),
    {
        self.width == 0 || self.height == 0
    }

    /// `width × height`.
    pub fn pixel_count(self) -> (r: u32)
        ensures
            r == self.width * self.height,
    {
        assert((self.width as u32) * (self.height as u32) <= 65025) by (nonlinear_arith)
            requires
                self.width < 256,
                self.height < 256,
        ;
        self.width as u32 * self.height as u32
    }

    /// `true` when both edges are within the recommended 64.
    pub fn within_recommended_size(self) -> (r: bool)
        ensures
            r == (self.width <= 64 && self.height <= 64),
    {
        self.width <= TGA_POSTAGE_STAMP_RECOMMENDED_MAX && self.height
            <= TGA_POSTAGE_STAMP_RECOMMENDED_MAX
    }

    /// Both edges clipped to the recommended 64.
    pub fn clipped_to_recommended(self) -> (r: Self)
        ensures
            r.width == (if self.width <= 64 { self.width } else { 64 }),
            r.height == (if self.height <= 64 { self.height } else { 64 }),
    {
        PostageStamp {
            width: if self.width <= 64 { self.width } else { 64 },
            height: if self.height <= 64 { self.height } else { 64 },
        }
    }

    /// Thumbnail geometry for a `width × height` frame: aspect-preserving,
    /// downscale-only, the longer edge at most 64 and each edge at least 1.
    pub fn recommended_for(width: u32, height: u32) -> (r: Self)
        ensures
            (r.width, r.height) == recommended_dims(width, height),
            r.width <= 64 && r.height <= 64,
            width > 0 && height > 0 ==> r.width >= 1 && r.height >= 1,
    {
        if width == 0 || height == 0 {
            return PostageStamp { width: 0, height: 0 };
        }
        if width <= 64 && height <= 64 {
            return PostageStamp { width: width as u8, height: height as u8 };
        }
        if width >= height {
            let m = (height as u64) * 64 / (width as u64);
            assert(m <= 64) by (nonlinear_arith)
                requires
                    m == (height as int) * 64 / (width as int),
                    height <= width,
                    width > 0,
            ;
            PostageStamp { width: 64, height: if m < 1 { 1 } else { m as u8 } }
        } else {
            let m = (width as u64) * 64 / (height as u64);
            assert(m <= 64) by (nonlinear_arith)
                requires
                    m == (width as int) * 64 / (height as int),
                    width < height,
                    height > 0,
            ;
            PostageStamp { width: if m < 1 { 1 } else { m as u8 }, height: 64 }
        }
    }

    /// Point-sampled thumbnail of `image` at [`Self::recommended_for`]'s
    /// geometry, in the same pixel format and with the same `pts`; `None`
    /// when the image is degenerate or already within 64×64.
    pub fn subsample(image: &TgaImage) -> (r: Option<TgaImage>)
        requires
            image.data@.len() >= image.width * image.height * image.pixel_format.bpp(),
        ensures
            ({
                let dims = recommended_dims(image.width, image.height);
                match r {
                    None => dims.0 == 0 || (dims.0 == image.width && dims.1 == image.height),
                    Some(t) => !(dims.0 == 0 || (dims.0 == image.width && dims.1 == image.height))
                        && t.width == dims.0 && t.height == dims.1 && t.pixel_format
                        == image.pixel_format && t.pts == image.pts && t.data@ == subsampled(
                        image.data@,
                        image.width as int,
                        image.height as int,
                        image.pixel_format.bpp() as int,
                        dims.0 as int,
                        dims.1 as int,
                    ),
                }
            }),
    {
        let dims = PostageStamp::recommended_for(image.width, image.height);
        if dims.width == 0 || (dims.width as u32 == image.width && dims.height as u32
            == image.height) {
            return None;
        }
        assert((dims.width as u32) * (dims.height as u32) * image.pixel_format.bpp() <= 64 * 64 * 4) by (nonlinear_arith)
            requires
                dims.width <= 64,
                dims.height <= 64,
                image.pixel_format.bpp() <= 4,
        ;
        let out = point_sample(image, dims.width as u32, dims.height as u32);
        Some(TgaImage { width: dims.width as u32, height: dims.height as u32, pixel_format: image.pixel_format, data: out, pts: image.pts })
    }
}

/// The bytes of `image` point-sampled to `dw × dh`: output pixel `(x, y)`
/// copies source pixel `(x * w / dw, y * h / dh)`.
#[verifier::rlimit(60)]
pub(crate) fn point_sample(image: &TgaImage, dw: u32, dh: u32) -> (out: Vec<u8>)
    requires
        image.width >= 1,
        image.height >= 1,
        dw >= 1,
        dh >= 1,
        image.data@.len() >= image.width * image.height * image.pixel_format.bpp(),
        dw * dh * image.pixel_format.bpp() <= usize::MAX,
    ensures
        out@ == subsampled(
            image.data@,
            image.width as int,
            image.height as int,
            image.pixel_format.bpp() as int,
            dw as int,
            dh as int,
        ),
{
    let w = image.width as u128;
    let h = image.height as u128;
    let sw = dw as u128;
    let sh = dh as u128;
    let bpp: u128 = match image.pixel_format {
        TgaPixelFormat::Rgba => 4,
        TgaPixelFormat::Rgb24 => 3,
        TgaPixelFormat::Gray8 => 1,
    };
    let ghost d = image.data@;
    let ghost target = subsampled(d, w as int, h as int, bpp as int, sw as int, sh as int);
    let mut out: Vec<u8> = Vec::new();
    let mut y: u128 = 0;
    while y < sh
        invariant
            1 <= sw <= 0xffff_ffff,
            1 <= sh <= 0xffff_ffff,
            1 <= bpp <= 4,
            w == image.width,
            h == image.height,
            1 <= w <= 0xffff_ffff,
            1 <= h <= 0xffff_ffff,
            bpp == image.pixel_format.bpp(),
            sw * sh * bpp <= usize::MAX,
            d == image.data@,
            d.len() == image.data.len(),
            d.len() >= w * h * bpp,
            target == subsampled(d, w as int, h as int, bpp as int, sw as int, sh as int),
            y <= sh,
            out@.len() == y * sw * bpp,
            forall|i: int| 0 <= i < out@.len() ==> #[trigger] out@[i] == target[i],
        decreases sh - y,
    {
        assert(y * h <= 0xffff_ffff * 0xffff_ffff) by (nonlinear_arith)
            requires
                y < 0xffff_ffff,
                h <= 0xffff_ffff,
        ;
        let sy = y * h / sh;
        assert(sy < h) by (nonlinear_arith)
            requires
                sy == (y * h) / (sh as int),
                y < sh,
                sh >= 1,
                h >= 1,
        ;
        let mut x: u128 = 0;
        while x < sw
            invariant
                1 <= sw <= 0xffff_ffff,
                1 <= sh <= 0xffff_ffff,
                1 <= bpp <= 4,
                w == image.width,
                h == image.height,
                1 <= w <= 0xffff_ffff,
                1 <= h <= 0xffff_ffff,
                sw * sh * bpp <= usize::MAX,
                d == image.data@,
                d.len() == image.data.len(),
                d.len() >= w * h * bpp,
                target == subsampled(d, w as int, h as int, bpp as int, sw as int, sh as int),
                y < sh,
                sy == (y * h) / (sh as int),
                sy < h,
                x <= sw,
                out@.len() == (y * sw + x) * bpp,
                forall|i: int| 0 <= i < out@.len() ==> #[trigger] out@[i] == target[i],
            decreases sw - x,
        {
            assert(x * w <= 0xffff_ffff * 0xffff_ffff) by (nonlinear_arith)
                requires
                    x < 0xffff_ffff,
                    w <= 0xffff_ffff,
            ;
            let sx = x * w / sw;
            assert(sx < w) by (nonlinear_arith)
                requires
                    sx == (x * w) / (sw as int),
                    x < sw,
                    sw >= 1,
                    w >= 1,
            ;
            assert(w * h <= w * h * bpp && sy * w <= w * h) by (nonlinear_arith)
                requires
                    sy < h,
                    bpp >= 1,
            ;
            assert(w * h * bpp <= usize::MAX);
            assert(sy * w + sx < w * h && (sy * w + sx) * bpp < w * h * bpp) by (nonlinear_arith)
                requires
                    sy < h,
                    sx < w,
                    bpp >= 1,
            ;
            assert((sy * w + sx) * bpp + bpp <= w * h * bpp) by (nonlinear_arith)
                requires
                    sy < h,
                    sx < w,
                    bpp >= 1,
            ;
            let base = (sy * w + sx) * bpp;
            let mut k: u128 = 0;
            while k < bpp
                invariant
                    1 <= sw <= 0xffff_ffff,
                    1 <= sh <= 0xffff_ffff,
                    1 <= bpp <= 4,
                    d == image.data@,
                    d.len() == image.data.len(),
                    1 <= w <= 0xffff_ffff,
                    1 <= h <= 0xffff_ffff,
                    sw * sh * bpp <= usize::MAX,
                    d.len() >= w * h * bpp,
                    base + bpp <= w * h * bpp,
                    base == (sy * w + sx) * bpp,
                    target == subsampled(d, w as int, h as int, bpp as int, sw as int, sh as int),
                    y < sh,
                    x < sw,
                    sy == (y * h) / (sh as int),
                    sx == (x * w) / (sw as int),
                    k <= bpp,
                    out@.len() == (y * sw + x) * bpp + k,
                    forall|i: int| 0 <= i < out@.len() ==> #[trigger] out@[i] == target[i],
                decreases bpp - k,
            {
                let ghost i = out@.len() as int;
                proof {
                    let p = y * sw + x;
                    assert(i / (bpp as int) == p && i % (bpp as int) == k) by (nonlinear_arith)
                        requires
                            i == p * bpp + k,
                            k < bpp,
                            p >= 0,
                    ;
                    assert(p % (sw as int) == x && p / (sw as int) == y) by (nonlinear_arith)
                        requires
                            p == y * sw + x,
                            x < sw,
                            y >= 0,
                    ;
                    assert(i < sw * sh * bpp) by (nonlinear_arith)
                        requires
                            i == (y * sw + x) * bpp + k,
                            k < bpp,
                            x < sw,
                            y < sh,
                    ;
                }
                assert(target[i] == d[(base + k) as int]);
                out.push(image.data[(base + k) as usize]);
                k = k + 1;
            }
            x = x + 1;
            assert(out@.len() == (y * sw + x) * bpp) by (nonlinear_arith)
                requires
                    out@.len() == (y * sw + (x - 1)) * bpp + bpp,
            ;
        }
        y = y + 1;
        assert(out@.len() == y * sw * bpp) by (nonlinear_arith)
            requires
                out@.len() == ((y - 1) * sw + sw) * bpp,
        ;
    }
    assert(out@.len() == sw * sh * bpp) by (nonlinear_arith)
        requires
            out@.len() == y * sw * bpp,
            y == sh,
    ;
    assert(out@ =~= target);
    out
}

} // verus!
