//! Laws about whole files: bytes appended after a decodable file leave its
//! raster unchanged, the metadata writer keeps the raster and its fields
//! read back, and the header edits (Image ID, screen origin) read back
//! without moving the raster.
use vstd::prelude::*;
use crate::decode_spec::{
    decode_body, depth_bytes, pixel_out, prepend, raw_from, rle_from, spec_parse_tga,
    spec_read_palette,
};
use crate::types::{ImageType, TgaHeader, spec_parse_header, u16_at, image_type_of};
use crate::error::TgaErrorKind;
use crate::image::ImageModel;
use crate::ext_encoder::{spec_encode_with_extension, assemble, spliced};
use crate::descriptor::ImageOrigin;

verus! {

/// Decoding raw pixels only reads the pixels it needs.
pub proof fn lemma_raw_from_extend(
    t: ImageType,
    depth: u8,
    cmap_first: u16,
    s: Seq<u8>,
    e: Seq<u8>,
    pal: Option<Seq<Seq<u8>>>,
    bpp: nat,
    n: nat,
)
    requires
        raw_from(t, depth, cmap_first, s, pal, bpp, n) is Some,
    ensures
        raw_from(t, depth, cmap_first, s + e, pal, bpp, n) == raw_from(
            t,
            depth,
            cmap_first,
            s,
            pal,
            bpp,
            n,
        ),
    decreases n,
{
    if n > 0 {
        assert((s + e).take(bpp as int) =~= s.take(bpp as int));
        assert((s + e).skip(bpp as int) =~= s.skip(bpp as int) + e);
        lemma_raw_from_extend(t, depth, cmap_first, s.skip(bpp as int), e, pal, bpp, (n - 1) as nat);
    }
}

/// Decoding a run-length stream only reads the packets it needs.
pub proof fn lemma_rle_from_extend(
    t: ImageType,
    depth: u8,
    cmap_first: u16,
    s: Seq<u8>,
    e: Seq<u8>,
    pal: Option<Seq<Seq<u8>>>,
    bpp: nat,
    remaining: nat,
)
    requires
        rle_from(t, depth, cmap_first, s, pal, bpp, remaining) is Some,
    ensures
        rle_from(t, depth, cmap_first, s + e, pal, bpp, remaining) == rle_from(
            t,
            depth,
            cmap_first,
            s,
            pal,
            bpp,
            remaining,
        ),
    decreases remaining,
{
    if remaining > 0 {
        let packet = s[0];
        let count = (packet % 128) as nat + 1;
        assert((s + e)[0] == packet);
        if packet >= 128 {
            assert((s + e).subrange(1, 1 + bpp as int) =~= s.subrange(1, 1 + bpp as int));
            assert((s + e).skip(1 + bpp as int) =~= s.skip(1 + bpp as int) + e);
            lemma_rle_from_extend(
                t,
                depth,
                cmap_first,
                s.skip(1 + bpp as int),
                e,
                pal,
                bpp,
                (remaining - count) as nat,
            );
        } else {
            let k = 1 + (count * bpp) as int;
            assert((s + e).subrange(1, k) =~= s.subrange(1, k));
            assert((s + e).skip(k) =~= s.skip(k) + e);
            lemma_rle_from_extend(
                t,
                depth,
                cmap_first,
                s.skip(k),
                e,
                pal,
                bpp,
                (remaining - count) as nat,
            );
        }
    }
}

/// Bytes appended after a file whose header and colour map read leave the
/// header and colour map unchanged.
pub proof fn lemma_prefix_header_palette(s: Seq<u8>, e: Seq<u8>, t: ImageType)
    requires
        spec_parse_header(s) is Some,
        spec_read_palette(s, spec_parse_header(s)->0, t) is Ok,
    ensures
        spec_parse_header(s + e) == spec_parse_header(s),
        spec_read_palette(s + e, spec_parse_header(s)->0, t) == spec_read_palette(
            s,
            spec_parse_header(s)->0,
            t,
        ),
{
    let se = s + e;
    let h = spec_parse_header(s)->0;
    assert(se.subrange(0, 18) =~= s.subrange(0, 18));
    assert(u16_at(se, 3) == u16_at(s, 3));
    assert(u16_at(se, 5) == u16_at(s, 5));
    assert(u16_at(se, 8) == u16_at(s, 8));
    assert(u16_at(se, 10) == u16_at(s, 10));
    assert(u16_at(se, 12) == u16_at(s, 12));
    assert(u16_at(se, 14) == u16_at(s, 14));
    assert(spec_parse_header(se) == spec_parse_header(s));
    if h.cmap_type == 1 {
        let c = 18 + h.id_length;
        let cb = depth_bytes(h.cmap_entry_size) * (h.cmap_length as nat);
        assert(se.subrange(c as int, (c + cb) as int) =~= s.subrange(c as int, (c + cb) as int));
    }
}

/// Law: bytes appended after a file that decodes do not change what it
/// decodes to.
pub proof fn law_trailing_bytes_keep_raster(s: Seq<u8>, e: Seq<u8>)
    requires
        spec_parse_tga(s) is Ok,
    ensures
        spec_parse_tga(s + e) == spec_parse_tga(s),
{
    let se = s + e;
    let h = spec_parse_header(s)->0;
    let t = image_type_of(h.image_type_raw)->0;
    lemma_prefix_header_palette(s, e, t);
    let (pal, cursor) = spec_read_palette(s, h, t)->Ok_0;
    let body = s.skip(cursor as int);
    assert(se.skip(cursor as int) =~= body + e);
    let n = (h.width * h.height) as nat;
    let bpp = depth_bytes(h.depth);
    if t.is_rle() {
        lemma_rle_from_extend(t, h.depth, h.cmap_first, body, e, pal, bpp, n);
    } else {
        lemma_raw_from_extend(t, h.depth, h.cmap_first, body, e, pal, bpp, n);
    }
    assert(decode_body(t, h.depth, h.cmap_first, body + e, pal, n) == decode_body(
        t,
        h.depth,
        h.cmap_first,
        body,
        pal,
        n,
    ));
}

/// Law: the file the metadata writer produces starts with the base file,
/// so it decodes to the same raster as the base.
pub proof fn law_extension_keeps_raster(base: Seq<u8>, ext: crate::ext_encoder::ExtensionAreaInput)
    requires
        spec_parse_tga(base) is Ok,
        spec_encode_with_extension(base, ext) is Ok,
    ensures
        spec_parse_tga(spec_encode_with_extension(base, ext)->Ok_0) == spec_parse_tga(base),
{
    let stamp = match ext.postage_stamp {
        None => None,
        Some(st) => Some(crate::ext_encoder::spec_stamp_bytes(st, base[16])->Ok_0),
    };
    let rest = crate::ext_encoder::appended(base.len() as int, ext, stamp);
    assert(spec_encode_with_extension(base, ext)->Ok_0 == base + rest);
    law_trailing_bytes_keep_raster(base, rest);
}

/// Law: after splicing an Image ID, the Image ID reader returns it, and the
/// file decodes to the same raster as before.
pub proof fn law_splice_image_id(base: Seq<u8>, id: Seq<u8>)
    requires
        base.len() >= 18,
        base[0] == 0,
        0 < id.len() <= 255,
    ensures
        spec_parse_header(spliced(base, id)) matches Some(h) && h.id_length == id.len()
            && spliced(base, id).subrange(18, 18 + id.len() as int) == id,
        spec_parse_tga(spliced(base, id)) == spec_parse_tga(base),
{
    let s = spliced(base, id);
    let n = id.len() as int;
    assert(s.subrange(18, 18 + n) =~= id);
    assert(s.skip(18 + n) =~= base.skip(18));
    let hb = spec_parse_header(base)->0;
    let hs = spec_parse_header(s)->0;
    assert(u16_at(s, 3) == u16_at(base, 3));
    assert(u16_at(s, 5) == u16_at(base, 5));
    assert(u16_at(s, 8) == u16_at(base, 8));
    assert(u16_at(s, 10) == u16_at(base, 10));
    assert(u16_at(s, 12) == u16_at(base, 12));
    assert(u16_at(s, 14) == u16_at(base, 14));
    assert(hs == TgaHeader { id_length: id.len() as u8, ..hb });
    match image_type_of(hb.image_type_raw) {
        None => {},
        Some(t) => {
            if hb.cmap_type == 1 && hb.cmap_entry_size != 0 && hb.cmap_length != 0 {
                let cb = depth_bytes(hb.cmap_entry_size) * (hb.cmap_length as nat);
                if base.len() >= 18 + cb {
                    assert(s.subrange(18 + n, 18 + n + cb) =~= base.subrange(18, 18 + cb as int));
                }
            }
            match spec_read_palette(base, hb, t) {
                Ok((pal, cursor)) => {
                    assert(spec_read_palette(s, hs, t) == Ok::<(Option<Seq<Seq<u8>>>, nat), TgaErrorKind>((pal, (cursor + n) as nat)));
                    assert(s.skip(cursor + n) =~= base.skip(cursor as int));
                },
                Err(k) => {
                    assert(spec_read_palette(s, hs, t) == Err::<(Option<Seq<Seq<u8>>>, nat), TgaErrorKind>(k));
                },
            }
        },
    }
}

/// Law: after writing a screen origin, the header reads it back and every
/// other byte of the file is unchanged, so the raster is unchanged.
pub proof fn law_set_image_origin(base: Seq<u8>, origin: ImageOrigin)
    requires
        base.len() >= 18,
    ensures
        ({
            let s = base.subrange(0, 8) + origin.spec_bytes() + base.skip(12);
            &&& spec_parse_header(s) matches Some(h) && h.x_origin == origin.x && h.y_origin
                == origin.y
            &&& spec_parse_tga(s) == spec_parse_tga(base)
        }),
{
    let s = base.subrange(0, 8) + origin.spec_bytes() + base.skip(12);
    crate::types::lemma_u16_roundtrip(origin.x);
    crate::types::lemma_u16_roundtrip(origin.y);
    assert(s.len() == base.len());
    assert(u16_at(s, 8) == origin.x);
    assert(u16_at(s, 10) == origin.y);
    assert(u16_at(s, 3) == u16_at(base, 3));
    assert(u16_at(s, 5) == u16_at(base, 5));
    assert(u16_at(s, 12) == u16_at(base, 12));
    assert(u16_at(s, 14) == u16_at(base, 14));
    assert(s.skip(18) =~= base.skip(18));
    let hb = spec_parse_header(base)->0;
    let hs = spec_parse_header(s)->0;
    assert(hs == TgaHeader { x_origin: origin.x, y_origin: origin.y, ..hb });
    match image_type_of(hb.image_type_raw) {
        None => {},
        Some(t) => {
            let c = 18 + hb.id_length;
            if hb.cmap_type == 1 && hb.cmap_entry_size != 0 && hb.cmap_length != 0 {
                let cb = depth_bytes(hb.cmap_entry_size) * (hb.cmap_length as nat);
                if base.len() >= c + cb {
                    assert(s.subrange(c as int, (c + cb) as int) =~= base.subrange(c as int, (c + cb) as int));
                }
            }
            assert(spec_read_palette(s, hs, t) == spec_read_palette(base, hb, t));
            match spec_read_palette(base, hb, t) {
                Ok((pal, cursor)) => {
                    assert(s.skip(cursor as int) =~= base.skip(cursor as int));
                },
                Err(_) => {},
            }
        },
    }
}

} // verus!
