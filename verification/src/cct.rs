//! The extension area's 256 × 4 × u16 colour-correction table: planar in
//! memory, interleaved `(A, R, G, B)` little-endian entries on disk.
use vstd::prelude::*;
use crate::types::{read_u16_le, u16_at, lemma_u16_roundtrip, u16_le_bytes};
use crate::image::{TgaImage, TgaPixelFormat};

verus! {

/// Entries per channel curve.
pub const TGA_COLOUR_CORRECTION_TABLE_ENTRIES: usize = 256;

/// On-disk size of the table (`256 × 4 × 2`).
pub const TGA_COLOUR_CORRECTION_TABLE_SIZE: usize = 2048;

/// Colour-correction table: one 256-entry 16-bit curve per channel.
#[derive(Debug, Clone, PartialEq, Eq)]
pub struct TgaColourCorrectionTable {
    pub alpha: [u16; 256],
    pub red: [u16; 256],
    pub green: [u16; 256],
    pub blue: [u16; 256],
}

impl TgaColourCorrectionTable {
    /// Curve `c` in on-disk order: 0 alpha, 1 red, 2 green, 3 blue.
    pub open spec fn disk_curve(self, c: int) -> [u16; 256] {
        if c == 0 {
            self.alpha
        } else if c == 1 {
            self.red
        } else if c == 2 {
            self.green
        } else {
            self.blue
        }
    }

    /// Curve applied to byte `k` of an `[R, G, B, A]` pixel.
    pub open spec fn rgba_curve(self, k: int) -> [u16; 256] {
        if k == 0 {
            self.red
        } else if k == 1 {
            self.green
        } else if k == 2 {
            self.blue
        } else {
            self.alpha
        }
    }

    /// The 2048 on-disk bytes: entry `e` at `8 e`, its four curves'
    /// values little-endian in `(A, R, G, B)` order.
    pub open spec fn spec_bytes(self) -> Seq<u8> {
        Seq::new(
            2048,
            |j: int|
                {
                    let v = self.disk_curve((j % 8) / 2)[j / 8];
                    if j % 2 == 0 {
                        (v % 256) as u8
                    } else {
                        (v / 256) as u8
                    }
                },
        )
    }

    /// `true` when the table's curves are the ones stored at `off` in `s`.
    pub open spec fn stored_at(self, s: Seq<u8>, off: int) -> bool {
        forall|i: int|
            0 <= i < 256 ==> #[trigger] self.alpha[i] == u16_at(s, off + 8 * i) && self.red[i]
                == u16_at(s, off + 8 * i + 2) && self.green[i] == u16_at(s, off + 8 * i + 4)
                && self.blue[i] == u16_at(s, off + 8 * i + 6)
    }

    /// Parse the table at byte `offset`; `None` when `offset` is 0 (no
    /// table) or fewer than 2048 bytes follow it.
    pub fn parse(input: &[u8], offset: u32) -> (r: Option<Self>)
        ensures
            match r {
                Some(t) => offset != 0 && offset + 2048 <= input@.len() && t.stored_at(
                    input@,
                    offset as int,
                ),
                None => offset == 0 || offset + 2048 > input@.len(),
            },
    {
        if offset == 0 {
            return None;
        }
        let off = offset as usize;
        if input.len() < off || input.len() - off < TGA_COLOUR_CORRECTION_TABLE_SIZE {
            return None;
        }
        let mut alpha = [0u16; 256];
        let mut red = [0u16; 256];
        let mut green = [0u16; 256];
        let mut blue = [0u16; 256];
        let mut i: usize = 0;
        while i < 256
            invariant
                i <= 256,
                off == offset,
                off + 2048 <= input.len(),
                forall|k: int| 0 <= k < i ==> #[trigger] alpha[k] == u16_at(input@, off + 8 * k),
                forall|k: int| 0 <= k < i ==> #[trigger] red[k] == u16_at(input@, off + 8 * k + 2),
                forall|k: int|
                    0 <= k < i ==> #[trigger] green[k] == u16_at(input@, off + 8 * k + 4),
                forall|k: int| 0 <= k < i ==> #[trigger] blue[k] == u16_at(input@, off + 8 * k + 6),
            decreases 256 - i,
        {
            let base = off + i * 8;
            alpha[i] = read_u16_le(input, base);
            red[i] = read_u16_le(input, base + 2);
            green[i] = read_u16_le(input, base + 4);
            blue[i] = read_u16_le(input, base + 6);
            i = i + 1;
        }
        Some(TgaColourCorrectionTable { alpha, red, green, blue })
    }

    /// Serialise to the 2048-byte interleaved on-disk form.
    pub fn to_bytes(&self) -> (out: [u8; 2048])
        ensures
            out@ == self.spec_bytes(),
    {
        let mut out = [0u8; 2048];
        let mut i: usize = 0;
        while i < 256
            invariant
                i <= 256,
                forall|j: int| 0 <= j < 8 * i ==> #[trigger] out@[j] == self.spec_bytes()[j],
            decreases 256 - i,
        {
            let base = i * 8;
            let a = self.alpha[i];
            let r = self.red[i];
            let g = self.green[i];
            let b = self.blue[i];
            out[base] = (a % 256) as u8;
            out[base + 1] = (a / 256) as u8;
            out[base + 2] = (r % 256) as u8;
            out[base + 3] = (r / 256) as u8;
            out[base + 4] = (g % 256) as u8;
            out[base + 5] = (g / 256) as u8;
            out[base + 6] = (b % 256) as u8;
            out[base + 7] = (b / 256) as u8;
            assert forall|j: int| 0 <= j < 8 * (i + 1) implies #[trigger] out@[j]
                == self.spec_bytes()[j] by {
                if j >= 8 * i {
                    assert(j / 8 == i);
                }
            }
            i = i + 1;
        }
        assert(out@ =~= self.spec_bytes());
        out
    }

    /// Look up each byte of an `[R, G, B, A]` pixel through its curve,
    /// giving the 16-bit corrected `[R, G, B, A]`.
    pub fn correct_rgba16(&self, rgba: [u8; 4]) -> (r: [u16; 4])
        ensures
            r == [
                self.red[rgba[0] as int],
                self.green[rgba[1] as int],
                self.blue[rgba[2] as int],
                self.alpha[rgba[3] as int],
            ],
    {
        [
            self.red[rgba[0] as usize],
            self.green[rgba[1] as usize],
            self.blue[rgba[2] as usize],
            self.alpha[rgba[3] as usize],
        ]
    }

    /// [`Self::correct_rgba16`] narrowed to 8 bits (the high byte).
    pub fn correct_rgba8(&self, rgba: [u8; 4]) -> (r: [u8; 4])
        ensures
            r == [
                (self.red[rgba[0] as int] / 256) as u8,
                (self.green[rgba[1] as int] / 256) as u8,
                (self.blue[rgba[2] as int] / 256) as u8,
                (self.alpha[rgba[3] as int] / 256) as u8,
            ],
    {
        let c = self.correct_rgba16(rgba);
        [(c[0] / 256) as u8, (c[1] / 256) as u8, (c[2] / 256) as u8, (c[3] / 256) as u8]
    }

    /// A grayscale sample through the green curve, narrowed to 8 bits.
    pub fn correct_gray8(&self, luma: u8) -> (r: u8)
        ensures
            r == (self.green[luma as int] / 256) as u8,
    {
        (self.green[luma as usize] / 256) as u8
    }

    /// Bytes of an image of format `fmt` after [`Self::apply_to_image`].
    pub open spec fn applied(self, fmt: TgaPixelFormat, d: Seq<u8>) -> Seq<u8> {
        Seq::new(
            d.len(),
            |i: int|
                match fmt {
                    TgaPixelFormat::Rgba => if i < d.len() - d.len() % 4 {
                        (self.rgba_curve(i % 4)[d[i] as int] / 256) as u8
                    } else {
                        d[i]
                    },
                    TgaPixelFormat::Rgb24 => if i < d.len() - d.len() % 3 {
                        (self.rgba_curve(i % 3)[d[i] as int] / 256) as u8
                    } else {
                        d[i]
                    },
                    TgaPixelFormat::Gray8 => (self.green[d[i] as int] / 256) as u8,
                },
        )
    }

    /// Apply the curves in place: RGBA through all four, RGB through the
    /// colour curves, grayscale through the green curve.
    pub fn apply_to_image(&self, image: &mut TgaImage)
        ensures
            final(image).width == old(image).width,
            final(image).height == old(image).height,
            final(image).pixel_format == old(image).pixel_format,
            final(image).pts == old(image).pts,
            final(image).data@ == self.applied(old(image).pixel_format, old(image).data@),
    {
        let ghost d0 = image.data@;
        let ghost fmt = image.pixel_format;
        let cw: usize = match image.pixel_format {
            TgaPixelFormat::Rgba => 4,
            TgaPixelFormat::Rgb24 => 3,
            TgaPixelFormat::Gray8 => 1,
        };
        let full = image.data.len() - image.data.len() % cw;
        let mut i: usize = 0;
        while i < full
            invariant
                cw == fmt.bpp(),
                full == d0.len() - d0.len() % (cw as nat),
                full <= d0.len(),
                d0.len() == image.data.len(),
                i <= full,
                fmt == image.pixel_format,
                image.width == old(image).width,
                image.height == old(image).height,
                image.pixel_format == old(image).pixel_format,
                image.pts == old(image).pts,
                d0 == old(image).data@,
                forall|j: int|
                    0 <= j < d0.len() ==> #[trigger] image.data@[j] == (if j < i {
                        self.applied(fmt, d0)[j]
                    } else {
                        d0[j]
                    }),
            decreases full - i,
        {
            let v = image.data[i];
            let k = i % cw;
            let curve = if cw == 1 {
                self.green[v as usize]
            } else if k == 0 {
                self.red[v as usize]
            } else if k == 1 {
                self.green[v as usize]
            } else if k == 2 {
                self.blue[v as usize]
            } else {
                self.alpha[v as usize]
            };
            image.data.set(i, (curve / 256) as u8);
            i = i + 1;
        }
        assert(image.data@ =~= self.applied(fmt, d0));
    }
}

impl Default for TgaColourCorrectionTable {
    /// The identity table: entry `i` of every curve is `i * 257`
    /// (`0x00 → 0x0000`, `0xFF → 0xFFFF`).
    fn default() -> (t: Self)
        ensures
            forall|i: int|
                0 <= i < 256 ==> #[trigger] t.alpha[i] == i * 257 && t.red[i] == i * 257
                    && t.green[i] == i * 257 && t.blue[i] == i * 257,
    {
        let mut chan = [0u16; 256];
        let mut i: usize = 0;
        while i < 256
            invariant
                i <= 256,
                forall|k: int| 0 <= k < i ==> #[trigger] chan[k] == k * 257,
            decreases 256 - i,
        {
            chan[i] = (i * 257) as u16;
            i = i + 1;
        }
        TgaColourCorrectionTable { alpha: chan, red: chan, green: chan, blue: chan }
    }
}

/// One stored 16-bit word of a serialised table reads back as the
/// curve value it came from.
proof fn lemma_cct_word(t: TgaColourCorrectionTable, s: Seq<u8>, off: int, i: int, c: int)
    requires
        0 <= i < 256,
        0 <= c < 4,
        off >= 0,
        s.len() >= off + 2048,
        forall|j: int| 0 <= j < 2048 ==> #[trigger] s[off + j] == t.spec_bytes()[j],
    ensures
        u16_at(s, off + 8 * i + 2 * c) == t.disk_curve(c)[i],
{
    let j = 8 * i + 2 * c;
    assert(j / 8 == i && (j % 8) / 2 == c && j % 2 == 0 && (j + 1) / 8 == i && ((j + 1) % 8) / 2
        == c && (j + 1) % 2 == 1) by (nonlinear_arith)
        requires
            j == 8 * i + 2 * c,
            0 <= c < 4,
            i >= 0,
    ;
    let v = t.disk_curve(c)[i];
    assert(s[off + j] == t.spec_bytes()[j]);
    assert(s[off + (j + 1)] == t.spec_bytes()[j + 1]);
    assert(s[off + j] == (v % 256) as u8);
    assert(s[off + j + 1] == (v / 256) as u8);
    lemma_u16_roundtrip(v);
}

/// Two tables whose curves are stored at the same place apply alike.
pub proof fn lemma_same_curves(a: TgaColourCorrectionTable, b: TgaColourCorrectionTable, s: Seq<u8>, off: int)
    requires
        a.stored_at(s, off),
        b.stored_at(s, off),
    ensures
        forall|fmt: TgaPixelFormat, d: Seq<u8>| #[trigger] a.applied(fmt, d) == b.applied(fmt, d),
{
    assert forall|i: int| 0 <= i < 256 implies a.alpha[i] == b.alpha[i] && a.red[i] == b.red[i]
        && a.green[i] == b.green[i] && a.blue[i] == b.blue[i] by {
        assert(a.alpha[i] == u16_at(s, off + 8 * i));
        assert(b.alpha[i] == u16_at(s, off + 8 * i));
    }
    assert forall|fmt: TgaPixelFormat, d: Seq<u8>| #[trigger] a.applied(fmt, d) == b.applied(fmt, d) by {
        assert forall|k: int, v: int| 0 <= v < 256 implies #[trigger] a.rgba_curve(k)[v] == b.rgba_curve(k)[v] by {}
        assert(a.applied(fmt, d) =~= b.applied(fmt, d));
    }
}

/// Law: a table written with `to_bytes` at a non-zero offset parses back
/// to the same table, whatever precedes and follows it.
pub proof fn law_cct_roundtrip(t: TgaColourCorrectionTable, prefix: Seq<u8>, rest: Seq<u8>)
    requires
        prefix.len() > 0,
    ensures
        t.stored_at(prefix + t.spec_bytes() + rest, prefix.len() as int),
{
    let s = prefix + t.spec_bytes() + rest;
    let off = prefix.len() as int;
    assert forall|j: int| 0 <= j < 2048 implies #[trigger] s[off + j] == t.spec_bytes()[j] by {
    }
    assert forall|i: int| 0 <= i < 256 implies #[trigger] t.alpha[i] == u16_at(s, off + 8 * i)
        && t.red[i] == u16_at(s, off + 8 * i + 2) && t.green[i] == u16_at(s, off + 8 * i + 4)
        && t.blue[i] == u16_at(s, off + 8 * i + 6) by {
        lemma_cct_word(t, s, off, i, 0);
        lemma_cct_word(t, s, off, i, 1);
        lemma_cct_word(t, s, off, i, 2);
        lemma_cct_word(t, s, off, i, 3);
    }
}

/// Law: the identity table leaves every 8-bit sample unchanged.
pub proof fn law_cct_identity(t: TgaColourCorrectionTable, v: u8)
    requires
        forall|i: int|
            0 <= i < 256 ==> #[trigger] t.alpha[i] == i * 257 && t.red[i] == i * 257
                && t.green[i] == i * 257 && t.blue[i] == i * 257,
    ensures
        (t.red[v as int] / 256) as u8 == v,
        (t.green[v as int] / 256) as u8 == v,
        (t.blue[v as int] / 256) as u8 == v,
        (t.alpha[v as int] / 256) as u8 == v,
{
    assert(t.alpha[v as int] == v * 257);
    assert(t.red[v as int] == v * 257);
    assert((v * 257) / 256 == v) by (nonlinear_arith)
        requires
            0 <= v < 256,
    ;
}

} // verus!
