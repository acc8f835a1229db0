//! The image container returned by the decoder and accepted by the encoders.
use vstd::prelude::*;

verus! {

/// Pixel layout used by [`TgaImage`].
#[derive(Debug, Clone, Copy, PartialEq, Eq, Structural)]
pub enum TgaPixelFormat {
    /// 8-bit packed RGBA, 4 bytes per pixel.
    Rgba,
    /// 8-bit packed RGB, 3 bytes per pixel (encode input only).
    Rgb24,
    /// 8-bit single-channel grayscale, 1 byte per pixel.
    Gray8,
}

impl TgaPixelFormat {
    /// Bytes per pixel of this layout.
    pub open spec fn bpp(self) -> nat {
        match self {
            TgaPixelFormat::Rgba => 4,
            TgaPixelFormat::Rgb24 => 3,
            TgaPixelFormat::Gray8 => 1,
        }
    }
}

/// One decoded TGA frame.
#[derive(Debug, Clone)]
pub struct TgaImage {
    /// Picture width in pixels.
    pub width: u32,
    /// Picture height in pixels.
    pub height: u32,
    /// Pixel layout the `data` carries.
    pub pixel_format: TgaPixelFormat,
    /// Row-major pixel bytes, top-left origin.
    pub data: Vec<u8>,
    /// Optional presentation timestamp; `None` from the standalone decoder.
    pub pts: Option<i64>,
}

/// Mathematical model of a [`TgaImage`]: its geometry, layout and bytes.
pub struct ImageModel {
    pub width: u32,
    pub height: u32,
    pub pixel_format: TgaPixelFormat,
    pub data: Seq<u8>,
}

impl TgaImage {
    /// The model of this image (the presentation timestamp aside).
    pub open spec fn model(self) -> ImageModel {
        ImageModel {
            width: self.width,
            height: self.height,
            pixel_format: self.pixel_format,
            data: self.data@,
        }
    }
}

/// `d` with byte 3 of every complete 4-byte pixel set to `0xFF`.
pub open spec fn opaque_rgba(d: Seq<u8>) -> Seq<u8> {
    Seq::new(d.len(), |i: int| if i % 4 == 3 && i < d.len() - d.len() % 4 { 255u8 } else { d[i] })
}

/// `true` when every complete 4-byte pixel of `d` has a zero alpha byte.
pub open spec fn all_alpha_zero_seq(d: Seq<u8>) -> bool {
    forall|p: int| 0 <= p < d.len() / 4 ==> #[trigger] d[4 * p + 3] == 0
}

impl TgaImage {
    /// Bytes-per-pixel implied by `pixel_format`.
    pub fn bytes_per_pixel(&self) -> (r: usize)
        ensures
            r == self.pixel_format.bpp(),
    {
        match self.pixel_format {
            TgaPixelFormat::Rgba => 4,
            TgaPixelFormat::Rgb24 => 3,
            TgaPixelFormat::Gray8 => 1,
        }
    }

    /// Bytes per row.
    pub fn stride(&self) -> (r: usize)
        requires
            self.width * self.pixel_format.bpp() <= usize::MAX,
        ensures
            r == self.width * self.pixel_format.bpp(),
    {
        self.width as usize * self.bytes_per_pixel()
    }

    /// `true` when the image is RGBA, non-empty, and every alpha byte is
    /// exactly `0` (the TARGA-32 vs ARGB-32 diagnostic).
    pub fn all_alpha_zero(&self) -> (r: bool)
        ensures
            r == (self.pixel_format == TgaPixelFormat::Rgba && self.data@.len() > 0
                && all_alpha_zero_seq(self.data@)),
    {
        if self.pixel_format != TgaPixelFormat::Rgba {
            return false;
        }
        if self.data.len() == 0 {
            return false;
        }
        let n = self.data.len() / 4;
        let mut p: usize = 0;
        while p < n
            invariant
                n == self.data@.len() / 4,
                4 * n <= self.data.len(),
                p <= n,
                forall|q: int| 0 <= q < p ==> #[trigger] self.data@[4 * q + 3] == 0,
            decreases n - p,
        {
            if self.data[4 * p + 3] != 0 {
                return false;
            }
            p = p + 1;
        }
        true
    }

    /// Force every alpha byte of an RGBA image to `0xFF`; a no-op for
    /// the alpha-less formats.
    pub fn force_opaque(&mut self)
        ensures
            final(self).width == old(self).width,
            final(self).height == old(self).height,
            final(self).pixel_format == old(self).pixel_format,
            final(self).pts == old(self).pts,
            final(self).data@ == (if old(self).pixel_format == TgaPixelFormat::Rgba {
                opaque_rgba(old(self).data@)
            } else {
                old(self).data@
            }),
    {
        if self.pixel_format != TgaPixelFormat::Rgba {
            return;
        }
        let ghost d0 = self.data@;
        let n = self.data.len() / 4;
        let mut p: usize = 0;
        while p < n
            invariant
                n == d0.len() / 4,
                4 * n <= d0.len(),
                d0.len() == self.data.len(),
                p <= n,
                self.data@.len() == d0.len(),
                self.width == old(self).width,
                self.height == old(self).height,
                self.pixel_format == old(self).pixel_format,
                self.pts == old(self).pts,
                d0 == old(self).data@,
                forall|i: int|
                    0 <= i < d0.len() ==> #[trigger] self.data@[i] == (if i % 4 == 3 && i < 4 * p {
                        255u8
                    } else {
                        d0[i]
                    }),
            decreases n - p,
        {
            self.data.set(4 * p + 3, 0xFF);
            p = p + 1;
        }
        assert(self.data@ =~= opaque_rgba(d0));
    }
}

/// `rows` rows of `row_bytes` bytes cut from a plane whose rows start
/// every `stride` bytes, back to back.
pub open spec fn packed_rows(data: Seq<u8>, stride: int, row_bytes: int, rows: int) -> Seq<u8> {
    Seq::new((rows * row_bytes) as nat, |i: int| data[(i / row_bytes) * stride + i % row_bytes])
}

/// One more row of a packed plane is the packed rows before it, then that
/// row's bytes.
proof fn lemma_packed_rows_step(data: Seq<u8>, stride: int, row_bytes: int, y: int)
    requires
        0 <= y,
        0 <= stride,
        0 <= row_bytes,
        y * stride + row_bytes <= data.len(),
    ensures
        packed_rows(data, stride, row_bytes, y + 1) =~= packed_rows(data, stride, row_bytes, y)
            + data.subrange(y * stride, y * stride + row_bytes),
{
    let a = packed_rows(data, stride, row_bytes, y);
    let b = packed_rows(data, stride, row_bytes, y + 1);
    assert((y + 1) * row_bytes == y * row_bytes + row_bytes) by (nonlinear_arith);
    assert(y * row_bytes >= 0) by (nonlinear_arith)
        requires
            0 <= y,
            0 <= row_bytes,
    ;
    assert forall|i: int| 0 <= i < b.len() implies b[i] == (a + data.subrange(
        y * stride,
        y * stride + row_bytes,
    ))[i] by {
        if i < y * row_bytes {
            assert(i < a.len());
        } else {
            let j = i - y * row_bytes;
            assert(i / row_bytes == y && i % row_bytes == j) by (nonlinear_arith)
                requires
                    i == y * row_bytes + j,
                    0 <= j < row_bytes,
            ;
        }
    }
}

/// Copy the first `row_bytes` bytes of each of `rows` rows of a plane
/// whose rows start every `stride` bytes into one tight buffer.
pub fn pack_rows(data: &[u8], stride: usize, row_bytes: usize, rows: usize) -> (out: Vec<u8>)
    requires
        rows == 0 || (rows - 1) * stride + row_bytes <= data.len(),
    ensures
        out@ == packed_rows(data@, stride as int, row_bytes as int, rows as int),
{
    let mut out: Vec<u8> = Vec::new();
    let mut y: usize = 0;
    while y < rows
        invariant
            y <= rows,
            rows == 0 || (rows - 1) * stride + row_bytes <= data.len(),
            out@ == packed_rows(data@, stride as int, row_bytes as int, y as int),
        decreases rows - y,
    {
        assert(y * stride <= (rows - 1) * stride) by (nonlinear_arith)
            requires
                y <= rows - 1,
        ;
        let off = y * stride;
        let ghost before = out@;
        let mut x: usize = 0;
        while x < row_bytes
            invariant
                x <= row_bytes,
                off + row_bytes <= data.len(),
                out@ == before + data@.subrange(off as int, off + x),
            decreases row_bytes - x,
        {
            out.push(data[off + x]);
            x = x + 1;
            assert(out@ =~= before + data@.subrange(off as int, off + x));
        }
        proof {
            lemma_packed_rows_step(data@, stride as int, row_bytes as int, y as int);
        }
        y = y + 1;
    }
    out
}

} // verus!
