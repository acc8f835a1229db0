//! Laws relating the metadata writer to the metadata readers: a file
//! written by `encode_tga_with_extension` is recognised as TGA 2.0, and
//! the readers give back what was written.
use vstd::prelude::*;
use vstd::utf8::{
    encode_utf8, encode_scalar, is_scalar, has_width_1_encoding, has_width_2_encoding,
    has_width_3_encoding, leading_byte_width_1, leading_byte_width_2, leading_byte_width_3,
    leading_byte_width_4, last_continuation_byte, second_last_continuation_byte,
    third_last_continuation_byte, char_is_scalar, char_u32_cast, encode_utf8_valid_utf8, encode_utf8_decode_utf8,
};
use crate::extension::{field_text, lemma_nul_end};
use crate::types::{
    u16_at, u32_at, u16_le_bytes, u32_le_bytes, lemma_u16_roundtrip, lemma_u32_roundtrip,
    lemma_footer_roundtrip, spec_parse_footer, TgaFooter, TGA_FOOTER_MAGIC,
};
use crate::ext_encoder::{
    str_field, zeros, ext_text_block, ext_mid_block, ext_tail_block, ext_area_bytes,
    ExtensionAreaInput, spec_encode_with_extension, spec_stamp_bytes, section_offsets, opt_len,
    appended, dev_region, dev_dir_offset, payload_concat, dev_entries, DeveloperTagInput,
};
use crate::developer::{
    TgaDeveloperTag, directory_ok, tags_at, payload_of, directory_bytes, law_directory_roundtrip,
};
use crate::extension::{TgaExtensionArea, ext_area_at, ext_area_fits};
use crate::metadata::file_ext_offset;
use crate::types::ImageType;
use crate::decode_spec::{raw_from, pixel_out};
use crate::ext_encoder::rgba_to_bgra;
use crate::cct::law_cct_roundtrip;
use crate::scanline::{u32s_at, u32s_bytes, law_scan_line_roundtrip};

verus! {

/// `true` when `s` survives a text field of `cap` bytes unchanged: no
/// character is NUL and its UTF-8 form leaves room for the terminator.
pub open spec fn fits_text_field(s: Seq<char>, cap: nat) -> bool {
    &&& encode_utf8(s).len() < cap
    &&& forall|i: int| 0 <= i < s.len() ==> s[i] != '\0'
}

/// No byte of the UTF-8 form of a non-zero scalar is zero.
proof fn lemma_scalar_bytes_nonzero(v: u32)
    requires
        is_scalar(v),
        v != 0,
    ensures
        forall|i: int| 0 <= i < encode_scalar(v).len() ==> encode_scalar(v)[i] != 0,
{
    if has_width_1_encoding(v) {
        assert(leading_byte_width_1(v) != 0) by (bit_vector)
            requires
                1 <= v <= 0x7f,
        ;
    } else if has_width_2_encoding(v) {
        assert(leading_byte_width_2(v) != 0) by (bit_vector);
        assert(last_continuation_byte(v) != 0) by (bit_vector);
    } else if has_width_3_encoding(v) {
        assert(leading_byte_width_3(v) != 0) by (bit_vector);
        assert(second_last_continuation_byte(v) != 0) by (bit_vector);
        assert(last_continuation_byte(v) != 0) by (bit_vector);
    } else {
        assert(leading_byte_width_4(v) != 0) by (bit_vector);
        assert(third_last_continuation_byte(v) != 0) by (bit_vector);
        assert(second_last_continuation_byte(v) != 0) by (bit_vector);
        assert(last_continuation_byte(v) != 0) by (bit_vector);
    }
}

/// The UTF-8 form of a NUL-free string holds no zero byte.
proof fn lemma_encode_no_nul(s: Seq<char>)
    requires
        forall|i: int| 0 <= i < s.len() ==> s[i] != '\0',
    ensures
        forall|j: int| 0 <= j < encode_utf8(s).len() ==> encode_utf8(s)[j] != 0,
    decreases s.len(),
{
    if s.len() > 0 {
        let rest = s.drop_first();
        assert forall|i: int| 0 <= i < rest.len() implies rest[i] != '\0' by {
            assert(rest[i] == s[i + 1]);
        }
        lemma_encode_no_nul(rest);
        char_is_scalar(s[0]);
        if s[0] as u32 == 0 {
            char_u32_cast(s[0], 0);
            assert((0u32 as char) == '\0');
        }
        lemma_scalar_bytes_nonzero(s[0] as u32);
        let h = encode_scalar(s[0] as u32);
        assert(encode_utf8(s) == h + encode_utf8(rest));
        assert forall|j: int| 0 <= j < encode_utf8(s).len() implies encode_utf8(s)[j] != 0 by {
            if j < h.len() {
                assert(encode_utf8(s)[j] == h[j]);
            } else {
                assert(encode_utf8(s)[j] == encode_utf8(rest)[j - h.len()]);
            }
        }
    }
}

/// A text field of `cap` bytes is `cap` bytes long.
pub proof fn lemma_str_field_len(s: Seq<char>, cap: nat)
    requires
        cap >= 1,
    ensures
        str_field(s, cap).len() == cap,
{
}

/// A string that fits a text field reads back unchanged from it.
pub proof fn lemma_str_field_text(s: Seq<char>, cap: nat)
    requires
        cap >= 1,
        fits_text_field(s, cap),
    ensures
        field_text(str_field(s, cap)) == s,
{
    let b = encode_utf8(s);
    let n = b.len() as int;
    let f = str_field(s, cap);
    assert(b.take(n) =~= b);
    assert(f == b + zeros((cap - n) as nat));
    lemma_encode_no_nul(s);
    assert forall|j: int| 0 <= j < n implies f[j] != 0 by {
        assert(f[j] == b[j]);
    }
    assert(f[n] == 0);
    lemma_nul_end(f, n);
    assert(f.take(n) =~= b);
    encode_utf8_valid_utf8(s);
    encode_utf8_decode_utf8(s);
}

/// A 16-bit value written between two byte strings reads back.
proof fn lemma_u16_in(pre: Seq<u8>, v: u16, post: Seq<u8>)
    ensures
        u16_at(pre + u16_le_bytes(v) + post, pre.len() as int) == v,
{
    let s = pre + u16_le_bytes(v) + post;
    let p = pre.len() as int;
    lemma_u16_roundtrip(v);
    assert(s[p] == u16_le_bytes(v)[0]);
    assert(s[p + 1] == u16_le_bytes(v)[1]);
}

/// Layout of extension-area bytes 0-366.
proof fn lemma_text_block(ext: ExtensionAreaInput)
    ensures
        ({
            let t = ext_text_block(ext);
            &&& t.len() == 367
            &&& u16_at(t, 0) == 495
            &&& t.subrange(2, 43) == str_field(ext.author_name@, 41)
            &&& t.subrange(43, 124) == str_field(ext.author_comment@[0]@, 81)
            &&& t.subrange(124, 205) == str_field(ext.author_comment@[1]@, 81)
            &&& t.subrange(205, 286) == str_field(ext.author_comment@[2]@, 81)
            &&& t.subrange(286, 367) == str_field(ext.author_comment@[3]@, 81)
        }),
{
    let t = ext_text_block(ext);
    let a = str_field(ext.author_name@, 41);
    let c0 = str_field(ext.author_comment@[0]@, 81);
    let c1 = str_field(ext.author_comment@[1]@, 81);
    let c2 = str_field(ext.author_comment@[2]@, 81);
    let c3 = str_field(ext.author_comment@[3]@, 81);
    lemma_str_field_len(ext.author_name@, 41);
    lemma_str_field_len(ext.author_comment@[0]@, 81);
    lemma_str_field_len(ext.author_comment@[1]@, 81);
    lemma_str_field_len(ext.author_comment@[2]@, 81);
    lemma_str_field_len(ext.author_comment@[3]@, 81);
    lemma_u16_in(Seq::empty(), 495, a + c0 + c1 + c2 + c3);
    assert(t =~= Seq::<u8>::empty() + u16_le_bytes(495) + (a + c0 + c1 + c2 + c3));
    assert(t.subrange(2, 43) =~= a);
    assert(t.subrange(43, 124) =~= c0);
    assert(t.subrange(124, 205) =~= c1);
    assert(t.subrange(205, 286) =~= c2);
    assert(t.subrange(286, 367) =~= c3);
}

/// A 16-bit field whose two bytes are those of `v` reads as `v`.
proof fn lemma_u16_sub(s: Seq<u8>, k: int, v: u16)
    requires
        0 <= k,
        k + 2 <= s.len(),
        s.subrange(k, k + 2) == u16_le_bytes(v),
    ensures
        u16_at(s, k) == v,
{
    lemma_u16_roundtrip(v);
    assert(s[k] == s.subrange(k, k + 2)[0]);
    assert(s[k + 1] == s.subrange(k, k + 2)[1]);
}

/// A 32-bit field whose four bytes are those of `v` reads as `v`.
proof fn lemma_u32_sub(s: Seq<u8>, k: int, v: u32)
    requires
        0 <= k,
        k + 4 <= s.len(),
        s.subrange(k, k + 4) == u32_le_bytes(v),
    ensures
        u32_at(s, k) == v,
{
    lemma_u32_roundtrip(v);
    assert(s[k] == s.subrange(k, k + 4)[0]);
    assert(s[k + 1] == s.subrange(k, k + 4)[1]);
    assert(s[k + 2] == s.subrange(k, k + 4)[2]);
    assert(s[k + 3] == s.subrange(k, k + 4)[3]);
}

/// Layout of extension-area bytes 367-481 (offsets relative to 367).
#[verifier::rlimit(40)]
proof fn lemma_mid_block(ext: ExtensionAreaInput)
    ensures
        ({
            let m = ext_mid_block(ext);
            &&& m.len() == 115
            &&& u16_at(m, 0) == ext.timestamp.month
            &&& u16_at(m, 2) == ext.timestamp.day
            &&& u16_at(m, 4) == ext.timestamp.year
            &&& u16_at(m, 6) == ext.timestamp.hour
            &&& u16_at(m, 8) == ext.timestamp.minute
            &&& u16_at(m, 10) == ext.timestamp.second
            &&& m.subrange(12, 53) == str_field(ext.job_name@, 41)
            &&& u16_at(m, 53) == ext.job_time.0
            &&& u16_at(m, 55) == ext.job_time.1
            &&& u16_at(m, 57) == ext.job_time.2
            &&& m.subrange(59, 100) == str_field(ext.software_id@, 41)
            &&& u16_at(m, 100) == ext.software_version.0
            &&& m[102] == ext.software_version.1 as u8
            &&& m[103] == ext.key_color[0]
            &&& m[104] == ext.key_color[1]
            &&& m[105] == ext.key_color[2]
            &&& m[106] == ext.key_color[3]
            &&& u16_at(m, 107) == ext.pixel_aspect_ratio.0
            &&& u16_at(m, 109) == ext.pixel_aspect_ratio.1
            &&& u16_at(m, 111) == ext.gamma.0
            &&& u16_at(m, 113) == ext.gamma.1
        }),
{
    let m = ext_mid_block(ext);
    let t = ext.timestamp;
    let j = str_field(ext.job_name@, 41);
    let w = str_field(ext.software_id@, 41);
    lemma_str_field_len(ext.job_name@, 41);
    lemma_str_field_len(ext.software_id@, 41);
    let p1 = u16_le_bytes(t.month) + u16_le_bytes(t.day) + u16_le_bytes(t.year) + u16_le_bytes(t.hour)
        + u16_le_bytes(t.minute) + u16_le_bytes(t.second);
    let p2 = j + u16_le_bytes(ext.job_time.0) + u16_le_bytes(ext.job_time.1) + u16_le_bytes(
        ext.job_time.2,
    );
    let p3 = w + u16_le_bytes(ext.software_version.0) + seq![ext.software_version.1 as u8]
        + ext.key_color@;
    let p4 = u16_le_bytes(ext.pixel_aspect_ratio.0) + u16_le_bytes(ext.pixel_aspect_ratio.1)
        + u16_le_bytes(ext.gamma.0) + u16_le_bytes(ext.gamma.1);
    assert(m =~= p1 + p2 + p3 + p4);
    assert(p1.len() == 12 && p2.len() == 47 && p3.len() == 48 && p4.len() == 8);
    assert(m.subrange(0, 12) =~= p1);
    assert(m.subrange(12, 59) =~= p2);
    assert(m.subrange(59, 107) =~= p3);
    assert(m.subrange(107, 115) =~= p4);
    assert(m.subrange(0, 2) =~= u16_le_bytes(t.month));
    assert(m.subrange(2, 4) =~= u16_le_bytes(t.day));
    assert(m.subrange(4, 6) =~= u16_le_bytes(t.year));
    assert(m.subrange(6, 8) =~= u16_le_bytes(t.hour));
    assert(m.subrange(8, 10) =~= u16_le_bytes(t.minute));
    assert(m.subrange(10, 12) =~= u16_le_bytes(t.second));
    lemma_u16_sub(m, 0, t.month);
    lemma_u16_sub(m, 2, t.day);
    lemma_u16_sub(m, 4, t.year);
    lemma_u16_sub(m, 6, t.hour);
    lemma_u16_sub(m, 8, t.minute);
    lemma_u16_sub(m, 10, t.second);
    assert(m.subrange(12, 53) =~= j);
    assert(m.subrange(53, 55) =~= u16_le_bytes(ext.job_time.0));
    assert(m.subrange(55, 57) =~= u16_le_bytes(ext.job_time.1));
    assert(m.subrange(57, 59) =~= u16_le_bytes(ext.job_time.2));
    lemma_u16_sub(m, 53, ext.job_time.0);
    lemma_u16_sub(m, 55, ext.job_time.1);
    lemma_u16_sub(m, 57, ext.job_time.2);
    assert(m.subrange(59, 100) =~= w);
    assert(m.subrange(100, 102) =~= u16_le_bytes(ext.software_version.0));
    lemma_u16_sub(m, 100, ext.software_version.0);
    assert(m[102] == p3[43]);
    assert(m[103] == p3[44]);
    assert(m[104] == p3[45]);
    assert(m[105] == p3[46]);
    assert(m[106] == p3[47]);
    assert(m.subrange(107, 109) =~= u16_le_bytes(ext.pixel_aspect_ratio.0));
    assert(m.subrange(109, 111) =~= u16_le_bytes(ext.pixel_aspect_ratio.1));
    assert(m.subrange(111, 113) =~= u16_le_bytes(ext.gamma.0));
    assert(m.subrange(113, 115) =~= u16_le_bytes(ext.gamma.1));
    lemma_u16_sub(m, 107, ext.pixel_aspect_ratio.0);
    lemma_u16_sub(m, 109, ext.pixel_aspect_ratio.1);
    lemma_u16_sub(m, 111, ext.gamma.0);
    lemma_u16_sub(m, 113, ext.gamma.1);
}

/// Layout of extension-area bytes 482-494 (offsets relative to 482).
proof fn lemma_tail_block(attributes_type: u8, c: u32, st: u32, sl: u32)
    ensures
        ({
            let t = ext_tail_block(attributes_type, c, st, sl);
            &&& t.len() == 13
            &&& u32_at(t, 0) == c
            &&& u32_at(t, 4) == st
            &&& u32_at(t, 8) == sl
            &&& t[12] == attributes_type
        }),
{
    let t = ext_tail_block(attributes_type, c, st, sl);
    lemma_u32_roundtrip(c);
    lemma_u32_roundtrip(st);
    lemma_u32_roundtrip(sl);
    assert(t.subrange(0, 4) =~= u32_le_bytes(c));
    assert(t.subrange(4, 8) =~= u32_le_bytes(st));
    assert(t.subrange(8, 12) =~= u32_le_bytes(sl));
    lemma_u32_sub(t, 0, c);
    lemma_u32_sub(t, 4, st);
    lemma_u32_sub(t, 8, sl);
}

/// A field of a block read at its place in a larger string.
proof fn lemma_u16_shift(s: Seq<u8>, a: int, n: int, k: int)
    requires
        0 <= a,
        a + n <= s.len(),
        0 <= k,
        k + 2 <= n,
    ensures
        u16_at(s.subrange(a, a + n), k) == u16_at(s, a + k),
{
    assert(s.subrange(a, a + n)[k] == s[a + k]);
    assert(s.subrange(a, a + n)[k + 1] == s[a + k + 1]);
}

/// A 32-bit field of a block read at its place in a larger string.
proof fn lemma_u32_shift(s: Seq<u8>, a: int, n: int, k: int)
    requires
        0 <= a,
        a + n <= s.len(),
        0 <= k,
        k + 4 <= n,
    ensures
        u32_at(s.subrange(a, a + n), k) == u32_at(s, a + k),
{
    assert(s.subrange(a, a + n)[k] == s[a + k]);
    assert(s.subrange(a, a + n)[k + 1] == s[a + k + 1]);
    assert(s.subrange(a, a + n)[k + 2] == s[a + k + 2]);
    assert(s.subrange(a, a + n)[k + 3] == s[a + k + 3]);
}

/// Layout of the 495 extension-area bytes, at the offsets the readers use.
#[verifier::rlimit(60)]
pub proof fn lemma_ext_area_layout(ext: ExtensionAreaInput, c: u32, st: u32, sl: u32)
    ensures
        ({
            let b = ext_area_bytes(ext, c, st, sl);
            &&& b.len() == 495
            &&& u16_at(b, 0) == 495
            &&& b.subrange(2, 43) == str_field(ext.author_name@, 41)
            &&& b.subrange(43, 124) == str_field(ext.author_comment@[0]@, 81)
            &&& b.subrange(124, 205) == str_field(ext.author_comment@[1]@, 81)
            &&& b.subrange(205, 286) == str_field(ext.author_comment@[2]@, 81)
            &&& b.subrange(286, 367) == str_field(ext.author_comment@[3]@, 81)
            &&& u16_at(b, 367) == ext.timestamp.month
            &&& u16_at(b, 369) == ext.timestamp.day
            &&& u16_at(b, 371) == ext.timestamp.year
            &&& u16_at(b, 373) == ext.timestamp.hour
            &&& u16_at(b, 375) == ext.timestamp.minute
            &&& u16_at(b, 377) == ext.timestamp.second
            &&& b.subrange(379, 420) == str_field(ext.job_name@, 41)
            &&& u16_at(b, 420) == ext.job_time.0
            &&& u16_at(b, 422) == ext.job_time.1
            &&& u16_at(b, 424) == ext.job_time.2
            &&& b.subrange(426, 467) == str_field(ext.software_id@, 41)
            &&& u16_at(b, 467) == ext.software_version.0
            &&& b[469] == ext.software_version.1 as u8
            &&& b[470] == ext.key_color[0]
            &&& b[471] == ext.key_color[1]
            &&& b[472] == ext.key_color[2]
            &&& b[473] == ext.key_color[3]
            &&& u16_at(b, 474) == ext.pixel_aspect_ratio.0
            &&& u16_at(b, 476) == ext.pixel_aspect_ratio.1
            &&& u16_at(b, 478) == ext.gamma.0
            &&& u16_at(b, 480) == ext.gamma.1
            &&& u32_at(b, 482) == c
            &&& u32_at(b, 486) == st
            &&& u32_at(b, 490) == sl
            &&& b[494] == ext.attributes_type
        }),
{
    reveal(ext_area_bytes);
    let b = ext_area_bytes(ext, c, st, sl);
    let t = ext_text_block(ext);
    let m = ext_mid_block(ext);
    let l = ext_tail_block(ext.attributes_type, c, st, sl);
    lemma_text_block(ext);
    lemma_mid_block(ext);
    lemma_tail_block(ext.attributes_type, c, st, sl);
    assert(b == t + m + l);
    assert(b.subrange(0, 367) =~= t);
    assert(b.subrange(367, 482) =~= m);
    assert(b.subrange(482, 495) =~= l);
    lemma_u16_shift(b, 0, 367, 0);
    assert(b.subrange(2, 43) =~= t.subrange(2, 43));
    assert(b.subrange(43, 124) =~= t.subrange(43, 124));
    assert(b.subrange(124, 205) =~= t.subrange(124, 205));
    assert(b.subrange(205, 286) =~= t.subrange(205, 286));
    assert(b.subrange(286, 367) =~= t.subrange(286, 367));
    lemma_u16_shift(b, 367, 115, 0);
    lemma_u16_shift(b, 367, 115, 2);
    lemma_u16_shift(b, 367, 115, 4);
    lemma_u16_shift(b, 367, 115, 6);
    lemma_u16_shift(b, 367, 115, 8);
    lemma_u16_shift(b, 367, 115, 10);
    assert(b.subrange(379, 420) =~= m.subrange(12, 53));
    lemma_u16_shift(b, 367, 115, 53);
    lemma_u16_shift(b, 367, 115, 55);
    lemma_u16_shift(b, 367, 115, 57);
    assert(b.subrange(426, 467) =~= m.subrange(59, 100));
    lemma_u16_shift(b, 367, 115, 100);
    assert(b[469] == m[102]);
    assert(b[470] == m[103]);
    assert(b[471] == m[104]);
    assert(b[472] == m[105]);
    assert(b[473] == m[106]);
    lemma_u16_shift(b, 367, 115, 107);
    lemma_u16_shift(b, 367, 115, 109);
    lemma_u16_shift(b, 367, 115, 111);
    lemma_u16_shift(b, 367, 115, 113);
    lemma_u32_shift(b, 482, 13, 0);
    lemma_u32_shift(b, 482, 13, 4);
    lemma_u32_shift(b, 482, 13, 8);
    assert(b[494] == l[12]);
}

/// The postage-stamp bytes the writer appends for `base` (if any).
pub open spec fn written_stamp(base: Seq<u8>, ext: ExtensionAreaInput) -> Option<Seq<u8>> {
    match ext.postage_stamp {
        Some(st) => match spec_stamp_bytes(st, base[16]) {
            Ok(b) => Some(b),
            Err(_) => None,
        },
        None => None,
    }
}

/// `true` when a parsed extension area `e` holds what `ext` asked for,
/// with the section offsets `c`, `st`, `sl`: every number exactly, the
/// version letter when it is a single byte, and each text that fits its
/// field.
pub open spec fn ext_area_matches(e: TgaExtensionArea, ext: ExtensionAreaInput, c: u32, st: u32, sl: u32) -> bool {
    &&& e.extension_size == 495
    &&& fits_text_field(ext.author_name@, 41) ==> e.author_name@ == ext.author_name@
    &&& fits_text_field(ext.author_comment@[0]@, 81) ==> e.author_comment@[0]@ == ext.author_comment@[0]@
    &&& fits_text_field(ext.author_comment@[1]@, 81) ==> e.author_comment@[1]@ == ext.author_comment@[1]@
    &&& fits_text_field(ext.author_comment@[2]@, 81) ==> e.author_comment@[2]@ == ext.author_comment@[2]@
    &&& fits_text_field(ext.author_comment@[3]@, 81) ==> e.author_comment@[3]@ == ext.author_comment@[3]@
    &&& e.timestamp == ext.timestamp
    &&& fits_text_field(ext.job_name@, 41) ==> e.job_name@ == ext.job_name@
    &&& e.job_time == ext.job_time
    &&& fits_text_field(ext.software_id@, 41) ==> e.software_id@ == ext.software_id@
    &&& e.software_version.0 == ext.software_version.0
    &&& (ext.software_version.1 as u32) < 256 ==> e.software_version.1 == ext.software_version.1
    &&& e.key_color == ext.key_color
    &&& e.pixel_aspect_ratio == ext.pixel_aspect_ratio
    &&& e.gamma == ext.gamma
    &&& e.colour_correction_offset == c
    &&& e.postage_stamp_offset == st
    &&& e.scan_line_offset == sl
    &&& e.attributes_type == ext.attributes_type
}

/// The fields of an extension area stored at `off` are those `ext` asked
/// for.
proof fn lemma_ext_area_read(e: TgaExtensionArea, s: Seq<u8>, off: int, ext: ExtensionAreaInput, c: u32, st: u32, sl: u32)
    requires
        0 <= off,
        off + 495 <= s.len(),
        s.subrange(off, off + 495) == ext_area_bytes(ext, c, st, sl),
        ext_area_at(e, s, off),
    ensures
        ext_area_matches(e, ext, c, st, sl),
{
    lemma_ext_area_layout(ext, c, st, sl);
    if fits_text_field(ext.author_name@, 41) {
        lemma_str_field_text(ext.author_name@, 41);
    }
    if fits_text_field(ext.author_comment@[0]@, 81) {
        lemma_str_field_text(ext.author_comment@[0]@, 81);
    }
    if fits_text_field(ext.author_comment@[1]@, 81) {
        lemma_str_field_text(ext.author_comment@[1]@, 81);
    }
    if fits_text_field(ext.author_comment@[2]@, 81) {
        lemma_str_field_text(ext.author_comment@[2]@, 81);
    }
    if fits_text_field(ext.author_comment@[3]@, 81) {
        lemma_str_field_text(ext.author_comment@[3]@, 81);
    }
    if fits_text_field(ext.job_name@, 41) {
        lemma_str_field_text(ext.job_name@, 41);
    }
    if fits_text_field(ext.software_id@, 41) {
        lemma_str_field_text(ext.software_id@, 41);
    }
    assert(e.key_color =~= ext.key_color);
    let ch = ext.software_version.1;
    if (ch as u32) < 256 {
        char_u32_cast(ch, ch as u32);
        assert((ch as u8) as u32 == ch as u32);
        assert(((ch as u8) as char) == ch);
    }
}

/// The sections [`encode_tga_with_extension`] writes for `base`, as
/// `(extension-area offset, postage-stamp offset, colour-correction
/// offset, scan-line offset)`.
pub open spec fn written_offsets(base: Seq<u8>, ext: ExtensionAreaInput) -> (int, int, int, int) {
    section_offsets(base.len() as int, ext, opt_len(written_stamp(base, ext)))
}

/// The extension-area bytes the writer lays out for `base`.
pub open spec fn written_area(base: Seq<u8>, ext: ExtensionAreaInput) -> Seq<u8> {
    let offs = written_offsets(base, ext);
    ext_area_bytes(ext, offs.2 as u32, offs.1 as u32, offs.3 as u32)
}

/// The bytes of an optional section (empty when it is absent).
pub open spec fn or_empty(o: Option<Seq<u8>>) -> Seq<u8> {
    match o {
        Some(b) => b,
        None => Seq::<u8>::empty(),
    }
}

/// The colour-correction bytes the writer lays out.
pub open spec fn written_cct(ext: ExtensionAreaInput) -> Seq<u8> {
    match ext.colour_correction_table {
        Some(t) => t.spec_bytes(),
        None => Seq::<u8>::empty(),
    }
}

/// The scan-line table bytes the writer lays out.
pub open spec fn written_slt(ext: ExtensionAreaInput) -> Seq<u8> {
    match ext.scan_line_table {
        Some(t) => u32s_bytes(t.offsets@),
        None => Seq::<u8>::empty(),
    }
}

/// The footer the writer lays out for `base`.
pub open spec fn written_footer(base: Seq<u8>, ext: ExtensionAreaInput) -> TgaFooter {
    TgaFooter {
        extension_area_offset: written_offsets(base, ext).0 as u32,
        developer_directory_offset: dev_dir_offset(base.len() as int, ext.developer_tags@),
    }
}

/// The layout of a file the metadata writer produced: base, developer
/// area, extension area, postage stamp, colour-correction table,
/// scan-line table, footer; the footer reads back and names the
/// extension area.
#[verifier::rlimit(40)]
proof fn lemma_written_layout(base: Seq<u8>, ext: ExtensionAreaInput)
    requires
        spec_encode_with_extension(base, ext) is Ok,
        spec_encode_with_extension(base, ext)->Ok_0.len() <= u32::MAX,
    ensures
        ({
            let out = spec_encode_with_extension(base, ext)->Ok_0;
            let off = written_offsets(base, ext).0;
            let dev = dev_region(base.len() as int, ext.developer_tags@);
            let ea = written_area(base, ext);
            &&& out == base + dev + ea + or_empty(written_stamp(base, ext)) + written_cct(ext)
                + written_slt(ext) + written_footer(base, ext).spec_bytes()
            &&& off == base.len() + dev.len()
            &&& ea.len() == 495
            &&& spec_parse_footer(out) == Some(written_footer(base, ext))
            &&& file_ext_offset(out) == Some(off)
            &&& out.subrange(off, off + 495) == ea
        }),
{
    let out = spec_encode_with_extension(base, ext)->Ok_0;
    let stamp = written_stamp(base, ext);
    assert(out == base + appended(base.len() as int, ext, stamp));
    reveal(appended);
    let offs = written_offsets(base, ext);
    let off = offs.0;
    let dev = dev_region(base.len() as int, ext.developer_tags@);
    let ea = written_area(base, ext);
    let f = written_footer(base, ext);
    lemma_ext_area_layout(ext, offs.2 as u32, offs.1 as u32, offs.3 as u32);
    let p = base + dev + ea + or_empty(stamp) + written_cct(ext) + written_slt(ext);
    assert(out =~= p + f.spec_bytes());
    lemma_footer_roundtrip(p, f);
    assert(off + 495 <= out.len());
    assert(ext_area_fits(out, off as u32));
    assert(out.subrange(off, off + 495) =~= ea);
}

/// Law: a file written by the metadata writer is recognised as TGA 2.0
/// and reads back. Its footer names the extension area the writer placed
/// after the developer area; the extension area holds every field that
/// was asked for (see [`ext_area_matches`]) and the offsets of the
/// sections that were written; the colour-correction table and the
/// scan-line table read back value for value; and the header's height,
/// by which the scan-line table is read, is the base file's.
#[verifier::rlimit(60)]
pub proof fn law_extension_roundtrip(base: Seq<u8>, ext: ExtensionAreaInput)
    requires
        spec_encode_with_extension(base, ext) is Ok,
        spec_encode_with_extension(base, ext)->Ok_0.len() <= u32::MAX,
    ensures
        ({
            let out = spec_encode_with_extension(base, ext)->Ok_0;
            let offs = section_offsets(base.len() as int, ext, opt_len(written_stamp(base, ext)));
            let off = offs.0;
            let c = offs.2;
            let sl = offs.3;
            &&& file_ext_offset(out) == Some(off)
            &&& forall|e: TgaExtensionArea| #[trigger]
                ext_area_at(e, out, off) ==> ext_area_matches(e, ext, c as u32, offs.1 as u32, sl as u32)
            &&& (ext.colour_correction_table matches Some(t) ==> {
                &&& u32_at(out, off + 482) == c
                &&& c != 0
                &&& c + 2048 <= out.len()
                &&& t.stored_at(out, c)
            })
            &&& (ext.scan_line_table matches Some(t) ==> {
                &&& u32_at(out, off + 490) == sl
                &&& sl != 0
                &&& sl + 4 * t.offsets@.len() <= out.len()
                &&& u32s_at(out, sl, t.offsets@.len()) == t.offsets@
            })
            &&& u16_at(out, 14) == u16_at(base, 14)
        }),
{
    lemma_written_layout(base, ext);
    let out = spec_encode_with_extension(base, ext)->Ok_0;
    let offs = written_offsets(base, ext);
    let off = offs.0;
    let st = offs.1;
    let c = offs.2;
    let sl = offs.3;
    let dev = dev_region(base.len() as int, ext.developer_tags@);
    let ea = written_area(base, ext);
    let sb = or_empty(written_stamp(base, ext));
    let cb = written_cct(ext);
    let lb = written_slt(ext);
    let fb = written_footer(base, ext).spec_bytes();
    lemma_ext_area_layout(ext, c as u32, st as u32, sl as u32);
    assert forall|e: TgaExtensionArea| #[trigger] ext_area_at(e, out, off) implies ext_area_matches(
        e,
        ext,
        c as u32,
        st as u32,
        sl as u32,
    ) by {
        lemma_ext_area_read(e, out, off, ext, c as u32, st as u32, sl as u32);
    }
    lemma_u32_shift(out, off, 495, 482);
    lemma_u32_shift(out, off, 495, 490);
    match ext.colour_correction_table {
        Some(t) => {
            let pre = base + dev + ea + sb;
            assert(out =~= pre + t.spec_bytes() + (lb + fb));
            law_cct_roundtrip(t, pre, lb + fb);
        },
        None => {},
    }
    match ext.scan_line_table {
        Some(t) => {
            let pre = base + dev + ea + sb + cb;
            assert(out =~= pre + u32s_bytes(t.offsets@) + fb);
            law_scan_line_roundtrip(t, pre, fb);
        },
        None => {},
    }
    assert(out[14] == base[14] && out[15] == base[15]);
}

/// The payloads of the first `k` developer tags are a prefix of all the
/// payloads.
proof fn lemma_payload_prefix(tags: Seq<DeveloperTagInput>, k: int)
    requires
        0 <= k <= tags.len(),
    ensures
        payload_concat(tags.take(k)).len() <= payload_concat(tags).len(),
        payload_concat(tags).subrange(0, payload_concat(tags.take(k)).len() as int) == payload_concat(
            tags.take(k),
        ),
    decreases tags.len(),
{
    if k == tags.len() {
        assert(tags.take(k) =~= tags);
    } else {
        let w = tags.drop_last();
        assert(w.take(k) =~= tags.take(k));
        lemma_payload_prefix(w, k);
        let m = payload_concat(tags.take(k)).len() as int;
        assert(payload_concat(tags).subrange(0, m) =~= payload_concat(w).subrange(0, m));
    }
}

/// The payloads of the first `i + 1` tags are those of the first `i`,
/// then tag `i`'s.
proof fn lemma_payload_step(tags: Seq<DeveloperTagInput>, i: int)
    requires
        0 <= i < tags.len(),
    ensures
        payload_concat(tags.take(i + 1)) == payload_concat(tags.take(i)) + tags[i].payload@,
{
    assert(tags.take(i + 1).drop_last() =~= tags.take(i));
}

/// Law: the developer area the metadata writer lays out reads back. The
/// footer names its directory, the directory is complete and lies in the
/// file, record `i` carries tag `i`'s id, and its payload is tag `i`'s
/// bytes (a marker record for an empty payload). The directory counts its
/// records in 16 bits, so at most 65535 tags are written faithfully.
#[verifier::spinoff_prover]
#[verifier::rlimit(100)]
pub proof fn law_developer_roundtrip(base: Seq<u8>, ext: ExtensionAreaInput)
    requires
        spec_encode_with_extension(base, ext) is Ok,
        spec_encode_with_extension(base, ext)->Ok_0.len() <= u32::MAX,
        0 < ext.developer_tags@.len() <= 65535,
    ensures
        ({
            let out = spec_encode_with_extension(base, ext)->Ok_0;
            let tags = ext.developer_tags@;
            let dir = base.len() + payload_concat(tags).len() as int;
            &&& spec_parse_footer(out) matches Some(f) && f.developer_directory_offset == dir
            &&& directory_ok(out, dir as u32)
            &&& tags_at(out, dir).len() == tags.len()
            &&& forall|i: int|
                0 <= i < tags.len() ==> {
                    let t = #[trigger] tags_at(out, dir)[i];
                    &&& t.tag_id == tags[i].tag_id
                    &&& tags[i].payload@.len() == 0 ==> t.offset == 0 && t.size == 0
                    &&& tags[i].payload@.len() > 0 ==> payload_of(out, t) == Some(tags[i].payload@)
                }
        }),
{
    let out = spec_encode_with_extension(base, ext)->Ok_0;
    let stamp = written_stamp(base, ext);
    let tags = ext.developer_tags@;
    let bl = base.len() as int;
    let rest = appended(bl, ext, stamp);
    reveal(appended);
    assert(out == base + rest);
    let pc = payload_concat(tags);
    let entries = dev_entries(bl, tags);
    let dir = bl + pc.len();
    reveal(dev_region);
    let dev = dev_region(bl, tags);
    assert(dev == pc + directory_bytes(entries));
    let after = rest.skip(dev.len() as int);
    assert(rest =~= dev + after);
    assert(out =~= (base + pc) + directory_bytes(entries) + after);
    assert(out.len() >= dir);
    assert forall|i: int| 0 <= i < entries.len() implies crate::developer::tag_fits(
        #[trigger] entries[i],
        out.len() as int,
    ) && (tags[i].payload@.len() > 0 ==> payload_of(out, entries[i]) == Some(tags[i].payload@)) by {
        lemma_payload_prefix(tags, i + 1);
        lemma_payload_step(tags, i);
        if tags[i].payload@.len() > 0 {
            let a = payload_concat(tags.take(i)).len() as int;
            let n = tags[i].payload@.len() as int;
            assert(entries[i].offset == bl + a);
            assert(entries[i].size == n);
            assert(out.subrange(bl + a, bl + a + n) =~= tags[i].payload@) by {
                assert forall|j: int| 0 <= j < n implies out[bl + a + j] == tags[i].payload@[j] by {
                    assert(out[bl + a + j] == pc[a + j]);
                    assert(pc[a + j] == pc.subrange(0, a + n)[a + j]);
                }
            }
        }
    }
    law_directory_roundtrip(entries, base + pc, after);
    let f = TgaFooter { extension_area_offset: section_offsets(bl, ext, opt_len(stamp)).0 as u32, developer_directory_offset: dev_dir_offset(bl, tags) };
    lemma_ext_area_layout(
        ext,
        section_offsets(bl, ext, opt_len(stamp)).2 as u32,
        section_offsets(bl, ext, opt_len(stamp)).1 as u32,
        section_offsets(bl, ext, opt_len(stamp)).3 as u32,
    );
    let q = out.subrange(0, out.len() - 26);
    assert(out =~= q + f.spec_bytes());
    lemma_footer_roundtrip(q, f);
}

/// Stored BGRA pixels decode, under a 32-bit true-colour header, to the
/// RGBA pixels they were made from.
pub proof fn lemma_bgra_stamp_decodes(
    t: ImageType,
    cmap_first: u16,
    d: Seq<u8>,
    rest: Seq<u8>,
    pal: Option<Seq<Seq<u8>>>,
    n: nat,
)
    requires
        t is UncompressedTrueColour,
        4 * n <= d.len(),
    ensures
        raw_from(t, 32, cmap_first, rgba_to_bgra(d) + rest, pal, 4, n) == Some(d.take(4 * n as int)),
    decreases n,
{
    if n == 0 {
        assert(d.take(0) =~= Seq::<u8>::empty());
    } else {
        let s = rgba_to_bgra(d) + rest;
        let e = d.skip(4);
        assert(s.take(4) =~= seq![d[2], d[1], d[0], d[3]]);
        assert(rgba_to_bgra(d).len() == d.len() / 4 * 4);
        assert(rgba_to_bgra(e).len() == e.len() / 4 * 4);
        assert(s.skip(4) =~= rgba_to_bgra(e) + rest) by {
            assert forall|i: int| 0 <= i < rgba_to_bgra(e).len() implies #[trigger] rgba_to_bgra(d)[i + 4]
                == rgba_to_bgra(e)[i] by {
                assert((i + 4) / 4 == i / 4 + 1);
                assert((i + 4) % 4 == i % 4);
            }
            assert forall|i: int| 0 <= i < s.skip(4).len() implies s.skip(4)[i] == (rgba_to_bgra(e) + rest)[i] by {
                if i < rgba_to_bgra(e).len() {
                    assert(s[i + 4] == rgba_to_bgra(d)[i + 4]);
                }
            }
        }
        lemma_bgra_stamp_decodes(t, cmap_first, e, rest, pal, (n - 1) as nat);
        assert(seq![d[2], d[1], d[0], d[3]].take(4) =~= seq![d[2], d[1], d[0], d[3]]);
        assert(pixel_out(t, 32, cmap_first, s.take(4), pal) == Some(seq![d[0], d[1], d[2], d[3]]));
        assert(seq![d[0], d[1], d[2], d[3]] + e.take(4 * (n - 1)) =~= d.take(4 * n as int));
    }
}

/// Where the writer puts a postage stamp: the file recognises its
/// extension area, whose stamp offset names the stamp's bytes (two size
/// bytes, then the pixels), and the file starts with the base.
#[verifier::rlimit(40)]
pub proof fn lemma_stamp_layout(base: Seq<u8>, ext: ExtensionAreaInput) -> (r: (int, int, Seq<u8>))
    requires
        spec_encode_with_extension(base, ext) is Ok,
        spec_encode_with_extension(base, ext)->Ok_0.len() <= u32::MAX,
        ext.postage_stamp is Some,
    ensures
        ({
            let out = spec_encode_with_extension(base, ext)->Ok_0;
            let st = ext.postage_stamp->0;
            let sb = spec_stamp_bytes(st, base[16])->Ok_0;
            let (off, p, after) = r;
            &&& spec_stamp_bytes(st, base[16]) is Ok
            &&& file_ext_offset(out) == Some(off)
            &&& u32_at(out, off + 486) as int == p
            &&& 0 < p
            &&& p + 2 <= out.len()
            &&& out[p] == st.width as u8
            &&& out[p + 1] == st.height as u8
            &&& out.skip(p + 2) == sb.skip(2) + after
            &&& out == base + out.skip(base.len() as int)
        }),
{
    lemma_written_layout(base, ext);
    let out = spec_encode_with_extension(base, ext)->Ok_0;
    let st = ext.postage_stamp->0;
    let sb = spec_stamp_bytes(st, base[16])->Ok_0;
    assert(written_stamp(base, ext) == Some(sb));
    let offs = written_offsets(base, ext);
    let off = offs.0;
    let p = offs.1;
    let dev = dev_region(base.len() as int, ext.developer_tags@);
    let ea = written_area(base, ext);
    let after = written_cct(ext) + written_slt(ext) + written_footer(base, ext).spec_bytes();
    assert(out =~= base + dev + ea + sb + after);
    lemma_ext_area_layout(ext, offs.2 as u32, offs.1 as u32, offs.3 as u32);
    lemma_u32_shift(out, off, 495, 486);
    assert(out[p] == sb[0]);
    assert(out[p + 1] == sb[1]);
    assert(out.skip(p + 2) =~= sb.skip(2) + after);
    assert(out =~= base + out.skip(base.len() as int));
    (off, p, after)
}

} // verus!
