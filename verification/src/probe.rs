//! Recognising a TGA file from its bytes, for format probing.
use vstd::prelude::*;
use crate::types::{parse_footer, parse_header, spec_parse_footer, spec_parse_header, TgaHeader};

verus! {

/// What the bytes of a buffer say about it being a TGA file.
#[derive(Debug, Clone, Copy, PartialEq, Eq, Structural)]
pub enum TgaProbe {
    /// It ends in the TGA 2.0 footer: certainly TGA.
    Footer,
    /// Its header names a known image type and pixel depth and a
    /// non-empty size: probably TGA.
    PlausibleHeader,
    /// Nothing in the bytes identifies it.
    Unrecognised,
}

/// `true` when a header names one of the seven known image types, a depth
/// of 8, 15, 16, 24 or 32 bits and a non-empty size.
pub open spec fn plausible_header(h: TgaHeader) -> bool {
    let t = h.image_type_raw;
    let d = h.depth;
    &&& (t == 0 || t == 1 || t == 2 || t == 3 || t == 9 || t == 10 || t == 11)
    &&& (d == 8 || d == 15 || d == 16 || d == 24 || d == 32)
    &&& h.width != 0
    &&& h.height != 0
}

/// Classify a buffer: the footer wins, then a plausible header.
pub fn probe_tga(buf: &[u8]) -> (r: TgaProbe)
    ensures
        spec_parse_footer(buf@) is Some ==> r == TgaProbe::Footer,
        spec_parse_footer(buf@) is None ==> r == (match spec_parse_header(buf@) {
            Some(h) => if plausible_header(h) {
                TgaProbe::PlausibleHeader
            } else {
                TgaProbe::Unrecognised
            },
            None => TgaProbe::Unrecognised,
        }),
{
    if parse_footer(buf).is_some() {
        return TgaProbe::Footer;
    }
    match parse_header(buf) {
        Some(h) => {
            let t = h.image_type_raw;
            let d = h.depth;
            let known_type = t == 0 || t == 1 || t == 2 || t == 3 || t == 9 || t == 10 || t == 11;
            let known_depth = d == 8 || d == 15 || d == 16 || d == 24 || d == 32;
            if known_type && known_depth && h.width != 0 && h.height != 0 {
                TgaProbe::PlausibleHeader
            } else {
                TgaProbe::Unrecognised
            }
        },
        None => TgaProbe::Unrecognised,
    }
}

} // verus!
