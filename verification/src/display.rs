//! Options and reports of the display pipeline (alpha resolution, tone
//! reproduction, key colour, pixel aspect), and the decisions it takes
//! from a file's own metadata.
use vstd::prelude::*;
use crate::image::{TgaImage, TgaPixelFormat, opaque_rgba, all_alpha_zero_seq};
use crate::types::spec_parse_header;
use crate::descriptor::{AttributeBits, ImageOrigin};
use crate::ext_fields::{AttributesType, GammaValue, KeyColor, PixelAspectRatio, count_key_matches, subsampled};
use crate::cct::{TgaColourCorrectionTable, lemma_same_curves};
use crate::decode_spec::{spec_parse_tga, spec_parse_tga_msg, lemma_parse_tga_len};
use crate::decoder::parse_tga;
use crate::error::TgaError;
use crate::developer::TgaDeveloperArea;
use crate::metadata::{
    file_ext_offset, file_attributes, parse_tga_extension_area, parse_tga_attribute_bits,
    resolve_alpha_with_targa32_fallback, resolve_alpha_from_descriptor, parse_tga_gamma,
    parse_tga_colour_correction_table, parse_tga_key_color, parse_tga_pixel_aspect_ratio,
};
use crate::types::{u16_at, u32_at};

verus! {

/// Which metadata passes the display pipeline runs.
#[derive(Debug, Clone, Copy, PartialEq, Eq, Structural)]
pub struct TgaDisplayOptions {
    /// Pass 1: resolve what the alpha channel means.
    pub resolve_alpha: bool,
    /// Pass 2: apply the colour-correction table, else the gamma value.
    pub apply_tone: bool,
    /// Pass 3: chroma-key the key colour.
    pub apply_key_color: bool,
    /// Pass 4: resample to square display pixels.
    pub apply_pixel_aspect: bool,
}

impl Default for TgaDisplayOptions {
    fn default() -> (o: Self)
        ensures
            o.resolve_alpha && o.apply_tone && o.apply_key_color && o.apply_pixel_aspect,
    {
        TgaDisplayOptions::all()
    }
}

impl TgaDisplayOptions {
    /// Every pass enabled (the default).
    pub fn all() -> (o: Self)
        ensures
            o.resolve_alpha && o.apply_tone && o.apply_key_color && o.apply_pixel_aspect,
    {
        TgaDisplayOptions {
            resolve_alpha: true,
            apply_tone: true,
            apply_key_color: true,
            apply_pixel_aspect: true,
        }
    }

    /// Every pass disabled.
    pub fn none() -> (o: Self)
        ensures
            !o.resolve_alpha && !o.apply_tone && !o.apply_key_color && !o.apply_pixel_aspect,
    {
        TgaDisplayOptions {
            resolve_alpha: false,
            apply_tone: false,
            apply_key_color: false,
            apply_pixel_aspect: false,
        }
    }

    /// Set [`Self::resolve_alpha`].
    pub fn with_resolve_alpha(self, on: bool) -> (o: Self)
        ensures
            o == (TgaDisplayOptions { resolve_alpha: on, ..self }),
    {
        TgaDisplayOptions { resolve_alpha: on, ..self }
    }

    /// Set [`Self::apply_tone`].
    pub fn with_apply_tone(self, on: bool) -> (o: Self)
        ensures
            o == (TgaDisplayOptions { apply_tone: on, ..self }),
    {
        TgaDisplayOptions { apply_tone: on, ..self }
    }

    /// Set [`Self::apply_key_color`].
    pub fn with_apply_key_color(self, on: bool) -> (o: Self)
        ensures
            o == (TgaDisplayOptions { apply_key_color: on, ..self }),
    {
        TgaDisplayOptions { apply_key_color: on, ..self }
    }

    /// Set [`Self::apply_pixel_aspect`].
    pub fn with_apply_pixel_aspect(self, on: bool) -> (o: Self)
        ensures
            o == (TgaDisplayOptions { apply_pixel_aspect: on, ..self }),
    {
        TgaDisplayOptions { apply_pixel_aspect: on, ..self }
    }

    /// `true` when no pass is enabled.
    pub fn is_passthrough(self) -> (r: bool)
        ensures
            r == (!self.resolve_alpha && !self.apply_tone && !self.apply_key_color
                && !self.apply_pixel_aspect),
    {
        !self.resolve_alpha && !self.apply_tone && !self.apply_key_color && !self.apply_pixel_aspect
    }
}

/// Which tone-reproduction curve the pipeline applied.
#[derive(Debug, Clone, Copy, PartialEq, Eq, Structural)]
pub enum ToneApplied {
    /// No tone pass ran.
    NotApplied,
    /// The colour-correction table was applied (gamma skipped).
    ColourCorrection,
    /// The gamma value was applied (no colour-correction table present).
    Gamma(GammaValue),
}

/// How pass 1 settled the alpha channel's meaning.
#[derive(Debug, Clone, Copy, PartialEq, Eq, Structural)]
pub enum AlphaResolution {
    /// The pass was gated off.
    Skipped,
    /// The extension area's attributes type drove the resolution.
    AttributesType(AttributesType),
    /// The header's attribute-bit count drove the resolution.
    HeaderBits(AttributeBits),
}

/// What each display pass did.
#[derive(Debug, Clone, Copy, PartialEq, Eq, Structural)]
pub struct TgaDisplayReport {
    /// Outcome of pass 1.
    pub alpha: AlphaResolution,
    /// Outcome of pass 2.
    pub tone: ToneApplied,
    /// Pixels pass 3 keyed out.
    pub keyed_pixels: u32,
    /// `true` when pass 4 resampled the frame.
    pub resampled: bool,
}

impl TgaDisplayReport {
    /// `true` when a tone curve ran.
    pub fn applied_tone(&self) -> (r: bool)
        ensures
            r == !(self.tone is NotApplied),
    {
        !matches!(self.tone, ToneApplied::NotApplied)
    }

    /// `true` when the key colour removed at least one pixel.
    pub fn applied_key_color(&self) -> (r: bool)
        ensures
            r == (self.keyed_pixels > 0),
    {
        self.keyed_pixels > 0
    }

    /// `true` when no pass beyond alpha resolution changed the frame.
    pub fn is_colour_geometry_noop(&self) -> (r: bool)
        ensures
            r == (self.tone is NotApplied && self.keyed_pixels == 0 && !self.resampled),
    {
        !self.applied_tone() && !self.applied_key_color() && !self.resampled
    }
}

/// A display-ready frame with the placement and preview metadata the
/// pipeline does not fold into the raster.
#[derive(Debug, Clone)]
pub struct TgaDecodedFrame {
    /// The display-ready frame.
    pub image: TgaImage,
    /// What each pass did.
    pub report: TgaDisplayReport,
    /// On-screen placement of the lower-left corner.
    pub screen_origin: ImageOrigin,
    /// The embedded thumbnail, if any.
    pub postage_stamp: Option<TgaImage>,
    /// The developer directory, if any.
    pub developer_area: Option<TgaDeveloperArea>,
}

impl TgaDecodedFrame {
    /// `true` when the file declares a placement other than `(0, 0)`.
    pub fn has_screen_offset(&self) -> (r: bool)
        ensures
            r == !(self.screen_origin.x == 0 && self.screen_origin.y == 0),
    {
        self.screen_origin.is_offset()
    }

    /// `true` when the file ships a postage stamp.
    pub fn has_postage_stamp(&self) -> (r: bool)
        ensures
            r == self.postage_stamp is Some,
    {
        self.postage_stamp.is_some()
    }
}

/// How pass 1 settles the alpha channel of the file `s`: by the
/// extension area's attributes type when the file has one, else by the
/// header's attribute-bit count.
pub open spec fn alpha_resolution_of(s: Seq<u8>) -> AlphaResolution {
    match file_attributes(s) {
        Some(a) => AlphaResolution::AttributesType(a),
        None => match spec_parse_header(s) {
            Some(h) => AlphaResolution::HeaderBits(AttributeBits { count: h.descriptor & 0x0F }),
            None => AlphaResolution::Skipped,
        },
    }
}

/// The pixel bytes pass 1 makes of a frame of format `fmt` and bytes `d`
/// decoded from the file `s`.
pub open spec fn alpha_resolved(s: Seq<u8>, fmt: TgaPixelFormat, d: Seq<u8>) -> Seq<u8> {
    match file_attributes(s) {
        Some(a) => if fmt == TgaPixelFormat::Rgba {
            a.applied(d)
        } else {
            d
        },
        None => match spec_parse_header(s) {
            Some(h) => if fmt == TgaPixelFormat::Rgba && h.descriptor & 0x0F == 0 {
                opaque_rgba(d)
            } else {
                d
            },
            None => d,
        },
    }
}

/// Pass 1: settle the alpha channel's meaning. With an extension area,
/// its attributes type wins (all-zero alpha is treated as opaque when it
/// declares none); without one, zero header attribute bits force an RGBA
/// image opaque.
pub fn resolve_alpha(input: &[u8], image: &mut TgaImage) -> (r: AlphaResolution)
    ensures
        final(image).width == old(image).width,
        final(image).height == old(image).height,
        final(image).pixel_format == old(image).pixel_format,
        final(image).pts == old(image).pts,
        r == alpha_resolution_of(input@),
        final(image).data@ == alpha_resolved(input@, old(image).pixel_format, old(image).data@),
{
    if parse_tga_extension_area(input).is_some() {
        match resolve_alpha_with_targa32_fallback(input, image) {
            Some(attrs) => AlphaResolution::AttributesType(attrs),
            None => match parse_tga_attribute_bits(input) {
                Some(bits) => AlphaResolution::HeaderBits(bits),
                None => AlphaResolution::Skipped,
            },
        }
    } else {
        match resolve_alpha_from_descriptor(input, image) {
            Some(bits) => AlphaResolution::HeaderBits(bits),
            None => AlphaResolution::Skipped,
        }
    }
}

/// The tone curve pass 2 picks for the file `s`: the colour-correction
/// table when the file has one, otherwise its gamma value when that is set
/// and not 1.0, otherwise none.
pub open spec fn tone_of(s: Seq<u8>) -> ToneApplied {
    match file_ext_offset(s) {
        None => ToneApplied::NotApplied,
        Some(off) => {
            let t_off = u32_at(s, off + 482);
            let g = GammaValue { numerator: u16_at(s, off + 478), denominator: u16_at(s, off + 480) };
            if t_off != 0 && t_off + 2048 <= s.len() {
                ToneApplied::ColourCorrection
            } else if g.denominator != 0 && g.numerator != g.denominator {
                ToneApplied::Gamma(g)
            } else {
                ToneApplied::NotApplied
            }
        },
    }
}

/// Pass 2's decision: the colour-correction table when the file has one,
/// otherwise its gamma value when that is set and not 1.0, otherwise
/// nothing.
pub fn choose_tone(input: &[u8]) -> (r: ToneApplied)
    ensures
        r == tone_of(input@),
{
    if parse_tga_colour_correction_table(input).is_some() {
        return ToneApplied::ColourCorrection;
    }
    match parse_tga_gamma(input) {
        Some(gamma) => {
            if !gamma.is_unset() && !gamma.is_identity() {
                ToneApplied::Gamma(gamma)
            } else {
                ToneApplied::NotApplied
            }
        },
        None => ToneApplied::NotApplied,
    }
}

/// The key colour a file's extension area declares, if it has one.
pub open spec fn file_key_color(s: Seq<u8>) -> Option<KeyColor> {
    match file_ext_offset(s) {
        Some(off) => Some(KeyColor { a: s[off + 470], r: s[off + 471], g: s[off + 472], b: s[off + 473] }),
        None => None,
    }
}

/// The pixel aspect ratio a file declares (unset without an extension
/// area).
pub open spec fn file_aspect(s: Seq<u8>) -> PixelAspectRatio {
    match file_ext_offset(s) {
        Some(off) => PixelAspectRatio { numerator: u16_at(s, off + 474), denominator: u16_at(s, off + 476) },
        None => PixelAspectRatio { numerator: 0, denominator: 0 },
    }
}

/// `true` when pass 3 keys out the file's key colour: the pass is on and
/// the file declares a key colour that is not all zero.
pub open spec fn keys_out(s: Seq<u8>, options: TgaDisplayOptions) -> bool {
    options.apply_key_color && (file_key_color(s) matches Some(k) && !(k.a == 0 && k.r == 0 && k.g
        == 0 && k.b == 0))
}

/// Passes 1 and 2 of the display pipeline: decode the file, then (as the
/// options enable) settle the alpha channel and apply the colour-correction
/// table. When pass 2 picks the gamma curve the report says so and the
/// curve is left for the caller, as it is floating-point work; the caller
/// then runs [`display_finish`]. A file the decoder rejects fails with the
/// decoder's own error, kind and message alike.
#[verifier::rlimit(40)]
pub fn display_begin(input: &[u8], options: &TgaDisplayOptions) -> (r: Result<(TgaImage, TgaDisplayReport), TgaError>)
    ensures
        match spec_parse_tga(input@) {
            Err(k) => r matches Err(e) && e.kind() == k && e.msg() == spec_parse_tga_msg(input@),
            Ok(m) => r matches Ok((img, rep)) && {
                let d1 = if options.resolve_alpha {
                    alpha_resolved(input@, m.pixel_format, m.data)
                } else {
                    m.data
                };
                &&& img.width == m.width
                &&& img.height == m.height
                &&& img.pixel_format == m.pixel_format
                &&& img.pts is None
                &&& rep.alpha == (if options.resolve_alpha {
                    alpha_resolution_of(input@)
                } else {
                    AlphaResolution::Skipped
                })
                &&& rep.tone == (if options.apply_tone {
                    tone_of(input@)
                } else {
                    ToneApplied::NotApplied
                })
                &&& rep.keyed_pixels == 0
                &&& !rep.resampled
                &&& if options.apply_tone && tone_of(input@) is ColourCorrection {
                    forall|t: TgaColourCorrectionTable|
                        #[trigger] t.stored_at(
                            input@,
                            u32_at(input@, file_ext_offset(input@)->0 + 482) as int,
                        ) ==> img.data@ == t.applied(m.pixel_format, d1)
                } else {
                    img.data@ == d1
                }
                &&& img.data@.len() == m.data.len()
                &&& img.data@.len() == img.width * img.height * img.pixel_format.bpp()
            },
        },
{
    let mut image = match parse_tga(input) {
        Ok(img) => img,
        Err(e) => return Err(e),
    };
    let ghost m = image.model();
    proof {
        lemma_parse_tga_len(input@);
    }
    let mut report = TgaDisplayReport {
        alpha: AlphaResolution::Skipped,
        tone: ToneApplied::NotApplied,
        keyed_pixels: 0,
        resampled: false,
    };
    if options.resolve_alpha {
        report.alpha = resolve_alpha(input, &mut image);
    }
    proof {
        if options.resolve_alpha {
            if file_attributes(input@) is Some && m.pixel_format == TgaPixelFormat::Rgba {
                assert(image.data@.len() == m.data.len());
            }
        }
    }
    let ghost d1 = image.data@;
    if options.apply_tone {
        let tone = choose_tone(input);
        match tone {
            ToneApplied::ColourCorrection => {
                match parse_tga_colour_correction_table(input) {
                    Some(table) => {
                        table.apply_to_image(&mut image);
                        proof {
                            let off = file_ext_offset(input@)->0;
                            let t_off = u32_at(input@, off + 482) as int;
                            assert forall|t: TgaColourCorrectionTable| #[trigger] t.stored_at(
                                input@,
                                t_off,
                            ) implies image.data@ == t.applied(m.pixel_format, d1) by {
                                lemma_same_curves(table, t, input@, t_off);
                            }
                        }
                    },
                    None => {},
                }
            },
            _ => {},
        }
        report.tone = tone;
    }
    Ok((image, report))
}

/// Passes 3 and 4 of the display pipeline, on a frame whose earlier
/// passes are done: (as the options enable) key out the file's key colour
/// when it declares one that is not all zero, then resample to square
/// display pixels by the file's pixel aspect ratio. The report records
/// the keyed pixels and whether the frame was resampled.
#[verifier::rlimit(40)]
pub fn display_finish(input: &[u8], options: &TgaDisplayOptions, image: &mut TgaImage, report: &mut TgaDisplayReport)
    requires
        old(image).data@.len() == old(image).width * old(image).height * old(
            image,
        ).pixel_format.bpp(),
        old(image).data@.len() / 4 <= u32::MAX,
        options.apply_pixel_aspect ==> match file_aspect(input@).display_dims(
            old(image).width,
            old(image).height,
        ) {
            Some((dw, dh)) => dw * dh * old(image).pixel_format.bpp() <= usize::MAX,
            None => true,
        },
    ensures
        ({
            let w = old(image).width;
            let h = old(image).height;
            let fmt = old(image).pixel_format;
            let d = old(image).data@;
            let k = file_key_color(input@)->0;
            let keyed = keys_out(input@, *options) && fmt == TgaPixelFormat::Rgba;
            let d2 = if keyed {
                k.keyed(d)
            } else {
                d
            };
            let resample = options.apply_pixel_aspect && match file_aspect(input@).display_dims(w, h) {
                Some((dw, dh)) => w != 0 && h != 0 && !(dw == w && dh == h),
                None => false,
            };
            let dims = file_aspect(input@).display_dims(w, h)->0;
            &&& final(report).alpha == old(report).alpha
            &&& final(report).tone == old(report).tone
            &&& final(report).keyed_pixels == (if keyed {
                count_key_matches(d, (d.len() / 4) as int, k.r, k.g, k.b) as u32
            } else if keys_out(input@, *options) {
                0
            } else {
                old(report).keyed_pixels
            })
            &&& final(report).resampled == (resample || old(report).resampled)
            &&& final(image).pixel_format == fmt
            &&& final(image).pts == old(image).pts
            &&& if resample {
                &&& final(image).width == dims.0
                &&& final(image).height == dims.1
                &&& final(image).data@ == subsampled(
                    d2,
                    w as int,
                    h as int,
                    fmt.bpp() as int,
                    dims.0 as int,
                    dims.1 as int,
                )
            } else {
                &&& final(image).width == w
                &&& final(image).height == h
                &&& final(image).data@ == d2
            }
        }),
{
    if options.apply_key_color {
        match parse_tga_key_color(input) {
            Some(key) => {
                if !key.is_unset() {
                    report.keyed_pixels = key.key_out_image(image);
                }
            },
            None => {},
        }
    }
    if options.apply_pixel_aspect {
        let par = match parse_tga_pixel_aspect_ratio(input) {
            Some(p) => p,
            None => PixelAspectRatio::unset(),
        };
        match par.resampled(image) {
            Some(resampled) => {
                *image = resampled;
                report.resampled = true;
            },
            None => {},
        }
    }
}

} // verus!
