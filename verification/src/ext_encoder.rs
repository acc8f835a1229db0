//! Writers for the TGA 2.0 metadata sections: the extension area (with
//! optional postage stamp, colour-correction and scan-line tables), the
//! developer area and the footer; plus the Image ID splice and the
//! screen-origin setter that edit an encoded file's header.
use vstd::prelude::*;
use vstd::utf8::encode_utf8;
use crate::error::{TgaError, TgaErrorKind};
use crate::image::{TgaImage, TgaPixelFormat};
use crate::types::{push_u16_le, push_u32_le, u16_le_bytes, u32_le_bytes, TGA_FOOTER_MAGIC, TGA_HEADER_SIZE};
use crate::descriptor::ImageOrigin;
use crate::ext_fields::TgaTimestamp;
use crate::cct::TgaColourCorrectionTable;
use crate::scanline::{TgaScanLineTable, u32s_bytes};
use crate::developer::{TgaDeveloperTag, directory_bytes, tag_bytes, tags_bytes};

verus! {

/// Largest Image ID (its length is one header byte).
pub const TGA_IMAGE_ID_MAX: usize = 255;

/// One developer-area payload to write.
#[derive(Debug, Clone)]
pub struct DeveloperTagInput {
    /// Tag identifier.
    pub tag_id: u16,
    /// Payload bytes; empty writes a marker record.
    pub payload: Vec<u8>,
}

/// Fields for the extension area written by [`encode_tga_with_extension`].
#[derive(Debug)]
pub struct ExtensionAreaInput {
    pub author_name: String,
    pub author_comment: [String; 4],
    pub timestamp: TgaTimestamp,
    pub job_name: String,
    pub job_time: (u16, u16, u16),
    pub software_id: String,
    pub software_version: (u16, char),
    pub key_color: [u8; 4],
    pub pixel_aspect_ratio: (u16, u16),
    pub gamma: (u16, u16),
    pub attributes_type: u8,
    /// Optional thumbnail, written in the parent's on-disk pixel format.
    pub postage_stamp: Option<TgaImage>,
    /// Optional colour-correction table.
    pub colour_correction_table: Option<TgaColourCorrectionTable>,
    /// Optional scan-line table.
    pub scan_line_table: Option<TgaScanLineTable>,
    /// Optional developer-area payloads.
    pub developer_tags: Vec<DeveloperTagInput>,
}

impl Clone for ExtensionAreaInput {
    fn clone(&self) -> (r: Self)
        ensures
            r.author_name@ == self.author_name@,
            forall|i: int| 0 <= i < 4 ==> (#[trigger] r.author_comment@[i])@ == self.author_comment@[i]@,
            r.timestamp == self.timestamp,
            r.job_name@ == self.job_name@,
            r.job_time == self.job_time,
            r.software_id@ == self.software_id@,
            r.software_version == self.software_version,
            r.key_color == self.key_color,
            r.pixel_aspect_ratio == self.pixel_aspect_ratio,
            r.gamma == self.gamma,
            r.attributes_type == self.attributes_type,
            r.postage_stamp is Some == self.postage_stamp is Some,
            r.colour_correction_table is Some == self.colour_correction_table is Some,
            r.scan_line_table is Some == self.scan_line_table is Some,
            r.developer_tags@.len() == self.developer_tags@.len(),
    {
        ExtensionAreaInput {
            author_name: self.author_name.clone(),
            author_comment: [
                self.author_comment[0].clone(),
                self.author_comment[1].clone(),
                self.author_comment[2].clone(),
                self.author_comment[3].clone(),
            ],
            timestamp: self.timestamp,
            job_name: self.job_name.clone(),
            job_time: self.job_time,
            software_id: self.software_id.clone(),
            software_version: self.software_version,
            key_color: self.key_color,
            pixel_aspect_ratio: self.pixel_aspect_ratio,
            gamma: self.gamma,
            attributes_type: self.attributes_type,
            postage_stamp: self.postage_stamp.clone(),
            colour_correction_table: self.colour_correction_table.clone(),
            scan_line_table: self.scan_line_table.clone(),
            developer_tags: self.developer_tags.clone(),
        }
    }
}

impl Default for ExtensionAreaInput {
    fn default() -> (e: Self)
        ensures
            e.author_name@.len() == 0,
            forall|i: int| 0 <= i < 4 ==> (#[trigger] e.author_comment@[i])@.len() == 0,
            e.timestamp.is_unset_spec(),
            e.job_name@.len() == 0,
            e.job_time == (0u16, 0u16, 0u16),
            e.software_id@.len() == 0,
            e.software_version == (0u16, '\0'),
            e.key_color == [0u8, 0u8, 0u8, 0u8],
            e.pixel_aspect_ratio == (0u16, 0u16),
            e.gamma == (0u16, 0u16),
            e.attributes_type == 0,
            e.postage_stamp is None,
            e.colour_correction_table is None,
            e.scan_line_table is None,
            e.developer_tags@.len() == 0,
    {
        ExtensionAreaInput {
            author_name: String::new(),
            author_comment: [String::new(), String::new(), String::new(), String::new()],
            timestamp: TgaTimestamp::unset(),
            job_name: String::new(),
            job_time: (0, 0, 0),
            software_id: String::new(),
            software_version: (0, '\0'),
            key_color: [0, 0, 0, 0],
            pixel_aspect_ratio: (0, 0),
            gamma: (0, 0),
            attributes_type: 0,
            postage_stamp: None,
            colour_correction_table: None,
            scan_line_table: None,
            developer_tags: Vec::new(),
        }
    }
}

// ---------------------------------------------------------------------------
// Byte model
// ---------------------------------------------------------------------------

/// `n` zero bytes.
pub open spec fn zeros(n: nat) -> Seq<u8> {
    Seq::new(n, |i: int| 0u8)
}

/// A text field of `cap` bytes: the string's UTF-8 bytes cut to `cap - 1`
/// (room for the NUL), then NUL padding.
pub open spec fn str_field(s: Seq<char>, cap: nat) -> Seq<u8> {
    let b = encode_utf8(s);
    let n = if b.len() <= cap - 1 {
        b.len()
    } else {
        (cap - 1) as nat
    };
    b.take(n as int) + zeros((cap - n) as nat)
}

/// Extension-area bytes 0-366: size, author name, author comments.
pub open spec fn ext_text_block(ext: ExtensionAreaInput) -> Seq<u8> {
    u16_le_bytes(495) + str_field(ext.author_name@, 41) + str_field(ext.author_comment@[0]@, 81)
        + str_field(ext.author_comment@[1]@, 81) + str_field(ext.author_comment@[2]@, 81)
        + str_field(ext.author_comment@[3]@, 81)
}

/// Extension-area bytes 367-481: timestamp, job name and time, software
/// ID and version, key colour, pixel aspect ratio, gamma.
pub open spec fn ext_mid_block(ext: ExtensionAreaInput) -> Seq<u8> {
    u16_le_bytes(ext.timestamp.month) + u16_le_bytes(ext.timestamp.day) + u16_le_bytes(
        ext.timestamp.year,
    ) + u16_le_bytes(ext.timestamp.hour) + u16_le_bytes(ext.timestamp.minute) + u16_le_bytes(
        ext.timestamp.second,
    ) + str_field(ext.job_name@, 41) + u16_le_bytes(ext.job_time.0) + u16_le_bytes(ext.job_time.1)
        + u16_le_bytes(ext.job_time.2) + str_field(ext.software_id@, 41) + u16_le_bytes(
        ext.software_version.0,
    ) + seq![ext.software_version.1 as u8] + ext.key_color@ + u16_le_bytes(
        ext.pixel_aspect_ratio.0,
    ) + u16_le_bytes(ext.pixel_aspect_ratio.1) + u16_le_bytes(ext.gamma.0) + u16_le_bytes(
        ext.gamma.1,
    )
}

/// Extension-area bytes 482-494: the three section offsets and the
/// attributes type.
pub open spec fn ext_tail_block(attributes_type: u8, cct_off: u32, stamp_off: u32, slt_off: u32) -> Seq<u8> {
    u32_le_bytes(cct_off) + u32_le_bytes(stamp_off) + u32_le_bytes(slt_off) + seq![attributes_type]
}

/// The 495 bytes of the extension area for `ext`, with the three section
/// offsets given.
#[verifier::opaque]
pub open spec fn ext_area_bytes(ext: ExtensionAreaInput, cct_off: u32, stamp_off: u32, slt_off: u32) -> Seq<u8> {
    ext_text_block(ext) + ext_mid_block(ext) + ext_tail_block(
        ext.attributes_type,
        cct_off,
        stamp_off,
        slt_off,
    )
}

/// RGBA pixels (complete ones) as BGRA.
pub open spec fn rgba_to_bgra(d: Seq<u8>) -> Seq<u8> {
    Seq::new(
        (d.len() / 4 * 4) as nat,
        |i: int|
            {
                let p = i / 4;
                let k = i % 4;
                if k == 3 {
                    d[4 * p + 3]
                } else {
                    d[4 * p + 2 - k]
                }
            },
    )
}

/// RGBA pixels (complete ones) as BGR.
pub open spec fn rgba_to_bgr(d: Seq<u8>) -> Seq<u8> {
    Seq::new((d.len() / 4 * 3) as nat, |i: int| d[4 * (i / 3) + 2 - i % 3])
}

/// RGB pixels (complete ones) as BGR.
pub open spec fn rgb_to_bgr(d: Seq<u8>) -> Seq<u8> {
    Seq::new((d.len() / 3 * 3) as nat, |i: int| d[3 * (i / 3) + 2 - i % 3])
}

/// RGB pixels (complete ones) as opaque BGRA.
pub open spec fn rgb_to_bgra(d: Seq<u8>) -> Seq<u8> {
    Seq::new(
        (d.len() / 3 * 4) as nat,
        |i: int|
            if i % 4 == 3 {
                255u8
            } else {
                d[3 * (i / 4) + 2 - i % 4]
            },
    )
}

/// The postage-stamp bytes (size bytes, then pixels in the parent's
/// on-disk format) for `st` under a parent of depth `depth`, or the error
/// kind.
pub open spec fn spec_stamp_bytes(st: TgaImage, depth: u8) -> Result<Seq<u8>, TgaErrorKind> {
    if st.width == 0 || st.height == 0 {
        Err(TgaErrorKind::InvalidData)
    } else if st.width > 255 || st.height > 255 {
        Err(TgaErrorKind::InvalidData)
    } else {
        let head = seq![st.width as u8, st.height as u8];
        let d = st.data@;
        match st.pixel_format {
            TgaPixelFormat::Rgba => if depth == 32 {
                Ok(head + rgba_to_bgra(d))
            } else if depth == 24 {
                Ok(head + rgba_to_bgr(d))
            } else {
                Err(TgaErrorKind::Unsupported)
            },
            TgaPixelFormat::Rgb24 => if depth == 24 {
                Ok(head + rgb_to_bgr(d))
            } else if depth == 32 {
                Ok(head + rgb_to_bgra(d))
            } else {
                Err(TgaErrorKind::Unsupported)
            },
            TgaPixelFormat::Gray8 => if depth == 8 {
                Ok(head + d)
            } else {
                Err(TgaErrorKind::Unsupported)
            },
        }
    }
}

/// The developer payloads back to back.
pub open spec fn payload_concat(tags: Seq<DeveloperTagInput>) -> Seq<u8>
    decreases tags.len(),
{
    if tags.len() == 0 {
        Seq::empty()
    } else {
        payload_concat(tags.drop_last()) + tags.last().payload@
    }
}

/// Directory record `i` for payloads written from file offset `base`.
pub open spec fn dev_entry(base: int, tags: Seq<DeveloperTagInput>, i: int) -> TgaDeveloperTag {
    if tags[i].payload@.len() == 0 {
        TgaDeveloperTag { tag_id: tags[i].tag_id, offset: 0, size: 0 }
    } else {
        TgaDeveloperTag {
            tag_id: tags[i].tag_id,
            offset: (base + payload_concat(tags.take(i)).len()) as u32,
            size: tags[i].payload@.len() as u32,
        }
    }
}

/// All directory records for payloads written from `base`.
pub open spec fn dev_entries(base: int, tags: Seq<DeveloperTagInput>) -> Seq<TgaDeveloperTag> {
    Seq::new(tags.len(), |i: int| dev_entry(base, tags, i))
}

/// The developer region: payloads then (if any tags) the directory.
#[verifier::opaque]
pub open spec fn dev_region(base: int, tags: Seq<DeveloperTagInput>) -> Seq<u8> {
    payload_concat(tags) + if tags.len() == 0 {
        Seq::<u8>::empty()
    } else {
        directory_bytes(dev_entries(base, tags))
    }
}

/// The footer's developer-directory offset for payloads written from `base`.
pub open spec fn dev_dir_offset(base: int, tags: Seq<DeveloperTagInput>) -> u32 {
    if tags.len() == 0 {
        0
    } else {
        (base + payload_concat(tags).len()) as u32
    }
}

/// Where [`encode_tga_with_extension`] puts each section, for a base file
/// of `base_len` bytes and a postage stamp of `stamp_len` bytes (if any):
/// `(extension area, postage stamp, colour-correction table, scan-line
/// table)`, with 0 for a section that is not written.
pub open spec fn section_offsets(base_len: int, ext: ExtensionAreaInput, stamp_len: Option<nat>) -> (int, int, int, int) {
    let ext_off = base_len + dev_region(base_len, ext.developer_tags@).len();
    let sl = match stamp_len {
        Some(n) => n as int,
        None => 0,
    };
    let stamp_off = if stamp_len is Some {
        ext_off + 495
    } else {
        0
    };
    let after_stamp = ext_off + 495 + sl;
    let cct_off = if ext.colour_correction_table is Some {
        after_stamp
    } else {
        0
    };
    let slt_off = if ext.scan_line_table is Some {
        after_stamp + if ext.colour_correction_table is Some {
            2048int
        } else {
            0int
        }
    } else {
        0
    };
    (ext_off, stamp_off, cct_off, slt_off)
}

/// The length of optional stamp bytes.
pub open spec fn opt_len(stamp: Option<Seq<u8>>) -> Option<nat> {
    match stamp {
        Some(b) => Some(b.len()),
        None => None,
    }
}

/// What [`encode_tga_with_extension`] appends to a base file of
/// `base_len` bytes, given the postage-stamp bytes (if any).
#[verifier::opaque]
pub open spec fn appended(base_len: int, ext: ExtensionAreaInput, stamp: Option<Seq<u8>>) -> Seq<u8> {
    let dev = dev_region(base_len, ext.developer_tags@);
    let (ext_off, stamp_off, cct_off, slt_off) = section_offsets(base_len, ext, opt_len(stamp));
    let sb = match stamp {
        Some(b) => b,
        None => Seq::<u8>::empty(),
    };
    let cb = match ext.colour_correction_table {
        Some(t) => t.spec_bytes(),
        None => Seq::<u8>::empty(),
    };
    let lb = match ext.scan_line_table {
        Some(t) => u32s_bytes(t.offsets@),
        None => Seq::<u8>::empty(),
    };
    dev + ext_area_bytes(ext, cct_off as u32, stamp_off as u32, slt_off as u32) + sb + cb + lb
        + u32_le_bytes(ext_off as u32) + u32_le_bytes(dev_dir_offset(base_len, ext.developer_tags@))
        + TGA_FOOTER_MAGIC@
}

/// The complete file [`encode_tga_with_extension`] writes, given the
/// postage-stamp bytes (if any): the base file, then what is appended.
pub open spec fn assemble(base: Seq<u8>, ext: ExtensionAreaInput, stamp: Option<Seq<u8>>) -> Seq<u8> {
    base + appended(base.len() as int, ext, stamp)
}

/// The file [`encode_tga_with_extension`] writes for `base`, or the error
/// kind.
pub open spec fn spec_encode_with_extension(base: Seq<u8>, ext: ExtensionAreaInput) -> Result<
    Seq<u8>,
    TgaErrorKind,
> {
    if base.len() < 18 {
        Err(TgaErrorKind::InvalidData)
    } else {
        match ext.postage_stamp {
            None => Ok(assemble(base, ext, None)),
            Some(st) => match spec_stamp_bytes(st, base[16]) {
                Err(k) => Err(k),
                Ok(b) => Ok(assemble(base, ext, Some(b))),
            },
        }
    }
}

// ---------------------------------------------------------------------------
// Writers
// ---------------------------------------------------------------------------

/// Append every byte of `b`.
fn append_bytes(out: &mut Vec<u8>, b: &[u8])
    ensures
        final(out)@ == old(out)@ + b@,
{
    let mut i: usize = 0;
    while i < b.len()
        invariant
            i <= b.len(),
            out@ == old(out)@ + b@.take(i as int),
        decreases b.len() - i,
    {
        out.push(b[i]);
        i = i + 1;
        assert(out@ =~= old(out)@ + b@.take(i as int));
    }
    assert(b@.take(b@.len() as int) =~= b@);
}

/// Append a `cap`-byte NUL-padded text field holding `s` (cut to `cap - 1`
/// bytes).
fn write_str_field(out: &mut Vec<u8>, s: &str, capacity: usize)
    requires
        1 <= capacity <= 81,
    ensures
        final(out)@ == old(out)@ + str_field(s@, capacity as nat),
{
    let max = capacity - 1;
    let bytes = s.as_bytes();
    let n = if bytes.len() <= max {
        bytes.len()
    } else {
        max
    };
    let mut i: usize = 0;
    while i < n
        invariant
            i <= n <= bytes@.len(),
            out@ == old(out)@ + bytes@.take(i as int),
        decreases n - i,
    {
        out.push(bytes[i]);
        i = i + 1;
        assert(out@ =~= old(out)@ + bytes@.take(i as int));
    }
    let ghost mid = out@;
    let mut k: usize = n;
    while k < capacity
        invariant
            n <= k <= capacity,
            out@ == mid + zeros((k - n) as nat),
        decreases capacity - k,
    {
        out.push(0);
        k = k + 1;
        assert(out@ =~= mid + zeros((k - n) as nat));
    }
    assert(out@ =~= old(out)@ + str_field(s@, capacity as nat));
}

fn write_ext_text_block(out: &mut Vec<u8>, ext: &ExtensionAreaInput)
    ensures
        final(out)@ == old(out)@ + ext_text_block(*ext),
{
    let ghost o = old(out)@;
    push_u16_le(out, 495);
    let ghost p1 = u16_le_bytes(495);
    write_str_field(out, ext.author_name.as_str(), 41);
    let ghost p2 = p1 + str_field(ext.author_name@, 41);
    assert(out@ =~= o + p2);
    write_str_field(out, ext.author_comment[0].as_str(), 81);
    let ghost p3 = p2 + str_field(ext.author_comment@[0]@, 81);
    assert(out@ =~= o + p3);
    write_str_field(out, ext.author_comment[1].as_str(), 81);
    let ghost p4 = p3 + str_field(ext.author_comment@[1]@, 81);
    assert(out@ =~= o + p4);
    write_str_field(out, ext.author_comment[2].as_str(), 81);
    let ghost p5 = p4 + str_field(ext.author_comment@[2]@, 81);
    assert(out@ =~= o + p5);
    write_str_field(out, ext.author_comment[3].as_str(), 81);
    let ghost p6 = p5 + str_field(ext.author_comment@[3]@, 81);
    assert(out@ =~= o + p6);
}

fn push_u16_pair(out: &mut Vec<u8>, a: u16, b: u16)
    ensures
        final(out)@ == old(out)@ + u16_le_bytes(a) + u16_le_bytes(b),
{
    push_u16_le(out, a);
    push_u16_le(out, b);
}

fn write_ext_mid_block(out: &mut Vec<u8>, ext: &ExtensionAreaInput)
    ensures
        final(out)@ == old(out)@ + ext_mid_block(*ext),
{
    let ghost o = old(out)@;
    let t = ext.timestamp;
    push_u16_pair(out, t.month, t.day);
    let ghost p = u16_le_bytes(t.month) + u16_le_bytes(t.day);
    assert(out@ =~= o + p);
    push_u16_pair(out, t.year, t.hour);
    let ghost p = p + u16_le_bytes(t.year) + u16_le_bytes(t.hour);
    assert(out@ =~= o + p);
    push_u16_pair(out, t.minute, t.second);
    let ghost p = p + u16_le_bytes(t.minute) + u16_le_bytes(t.second);
    assert(out@ =~= o + p);
    write_str_field(out, ext.job_name.as_str(), 41);
    let ghost p = p + str_field(ext.job_name@, 41);
    assert(out@ =~= o + p);
    push_u16_pair(out, ext.job_time.0, ext.job_time.1);
    let ghost p = p + u16_le_bytes(ext.job_time.0) + u16_le_bytes(ext.job_time.1);
    assert(out@ =~= o + p);
    push_u16_le(out, ext.job_time.2);
    let ghost p = p + u16_le_bytes(ext.job_time.2);
    assert(out@ =~= o + p);
    write_str_field(out, ext.software_id.as_str(), 41);
    let ghost p = p + str_field(ext.software_id@, 41);
    assert(out@ =~= o + p);
    push_u16_le(out, ext.software_version.0);
    out.push(ext.software_version.1 as u8);
    let ghost p = p + u16_le_bytes(ext.software_version.0) + seq![ext.software_version.1 as u8];
    assert(out@ =~= o + p);
    out.push(ext.key_color[0]);
    out.push(ext.key_color[1]);
    out.push(ext.key_color[2]);
    out.push(ext.key_color[3]);
    let ghost p = p + ext.key_color@;
    assert(out@ =~= o + p);
    push_u16_pair(out, ext.pixel_aspect_ratio.0, ext.pixel_aspect_ratio.1);
    let ghost p = p + u16_le_bytes(ext.pixel_aspect_ratio.0) + u16_le_bytes(ext.pixel_aspect_ratio.1);
    assert(out@ =~= o + p);
    push_u16_pair(out, ext.gamma.0, ext.gamma.1);
    let ghost p = p + u16_le_bytes(ext.gamma.0) + u16_le_bytes(ext.gamma.1);
    assert(out@ =~= o + p);
}

/// Append the 495-byte extension area for `ext` with the given offsets.
fn write_extension_area(out: &mut Vec<u8>, ext: &ExtensionAreaInput, cct_off: u32, stamp_off: u32, slt_off: u32)
    ensures
        final(out)@ == old(out)@ + ext_area_bytes(*ext, cct_off, stamp_off, slt_off),
{
    let ghost o = old(out)@;
    write_ext_text_block(out, ext);
    write_ext_mid_block(out, ext);
    let ghost p = ext_text_block(*ext) + ext_mid_block(*ext);
    assert(out@ =~= o + p);
    push_u32_le(out, cct_off);
    push_u32_le(out, stamp_off);
    push_u32_le(out, slt_off);
    out.push(ext.attributes_type);
    assert(out@ =~= o + p + ext_tail_block(ext.attributes_type, cct_off, stamp_off, slt_off));
    reveal(ext_area_bytes);
}

/// The on-disk bytes of a postage stamp under a parent of depth `depth`.
#[verifier::rlimit(40)]
fn postage_stamp_bytes(stamp: &TgaImage, parent_depth: u8) -> (r: Result<Vec<u8>, TgaError>)
    ensures
        match spec_stamp_bytes(*stamp, parent_depth) {
            Ok(b) => r matches Ok(v) && v@ == b,
            Err(k) => r matches Err(e) && e.kind() == k,
        },
{
    if stamp.width == 0 || stamp.height == 0 {
        return Err(TgaError::invalid("TGA encoder: postage stamp zero dimension"));
    }
    if stamp.width > 255 || stamp.height > 255 {
        return Err(TgaError::invalid("TGA encoder: postage stamp dimensions exceed 255"));
    }
    let mut out: Vec<u8> = Vec::new();
    out.push(stamp.width as u8);
    out.push(stamp.height as u8);
    let ghost head = out@;
    let d = &stamp.data;
    match stamp.pixel_format {
        TgaPixelFormat::Rgba => {
            if parent_depth == 8 {
                return Err(
                    TgaError::unsupported(
                        "TGA encoder: postage_stamp with Rgba pixel format and a colour-mapped parent: map the thumbnail through the parent palette and pass it as a Gray8 pixel buffer of indices instead",
                    ),
                );
            }
            if parent_depth != 32 && parent_depth != 24 {
                return Err(TgaError::unsupported("TGA encoder: postage stamp with this parent depth not supported"));
            }
            let n = d.len() / 4;
            let with_alpha = parent_depth == 32;
            let w: usize = if with_alpha { 4 } else { 3 };
            let ghost target = if with_alpha { rgba_to_bgra(d@) } else { rgba_to_bgr(d@) };
            let mut p: usize = 0;
            while p < n
                invariant
                    n == d@.len() / 4,
                    4 * n <= d.len(),
                    p <= n,
                    w == (if with_alpha { 4usize } else { 3usize }),
                    target == (if with_alpha { rgba_to_bgra(d@) } else { rgba_to_bgr(d@) }),
                    target.len() == n * w,
                    out@.len() == 2 + p * w,
                    out@.subrange(0, 2) == head,
                    forall|i: int| 0 <= i < p * w ==> #[trigger] out@[2 + i] == target[i],
                decreases n - p,
            {
                let b = 4 * p;
                out.push(d[b + 2]);
                out.push(d[b + 1]);
                out.push(d[b]);
                if with_alpha {
                    out.push(d[b + 3]);
                }
                proof {
                    assert forall|i: int| 0 <= i < (p + 1) * w implies #[trigger] out@[2 + i]
                        == target[i] by {
                        if i >= p * w {
                            let k = i - p * w;
                            assert(0 <= k < w) by (nonlinear_arith)
                                requires
                                    p * w <= i < (p + 1) * w,
                                    k == i - p * w,
                            ;
                            assert(i / (w as int) == p && i % (w as int) == k) by (nonlinear_arith)
                                requires
                                    i == p * w + k,
                                    0 <= k < w,
                            ;
                        }
                    }
                    assert((p + 1) * w == p * w + w) by (nonlinear_arith);
                }
                p = p + 1;
            }
            proof {
                assert(out@.len() == 2 + target.len());
                assert forall|j: int| 0 <= j < out@.len() implies out@[j] == (head + target)[j] by {
                    if j >= 2 {
                        assert(out@[2 + (j - 2)] == target[j - 2]);
                    } else {
                        assert(out@[j] == out@.subrange(0, 2)[j]);
                    }
                }
                assert(out@ =~= head + target);
            }
        },
        TgaPixelFormat::Rgb24 => {
            if parent_depth != 24 && parent_depth != 32 {
                return Err(TgaError::unsupported("TGA encoder: postage stamp Rgb24 with this parent depth not supported"));
            }
            let n = d.len() / 3;
            let with_alpha = parent_depth == 32;
            let w: usize = if with_alpha { 4 } else { 3 };
            let ghost target = if with_alpha { rgb_to_bgra(d@) } else { rgb_to_bgr(d@) };
            let mut p: usize = 0;
            while p < n
                invariant
                    n == d@.len() / 3,
                    3 * n <= d.len(),
                    p <= n,
                    w == (if with_alpha { 4usize } else { 3usize }),
                    target == (if with_alpha { rgb_to_bgra(d@) } else { rgb_to_bgr(d@) }),
                    target.len() == n * w,
                    out@.len() == 2 + p * w,
                    out@.subrange(0, 2) == head,
                    forall|i: int| 0 <= i < p * w ==> #[trigger] out@[2 + i] == target[i],
                decreases n - p,
            {
                let b = 3 * p;
                out.push(d[b + 2]);
                out.push(d[b + 1]);
                out.push(d[b]);
                if with_alpha {
                    out.push(0xFF);
                }
                proof {
                    assert forall|i: int| 0 <= i < (p + 1) * w implies #[trigger] out@[2 + i]
                        == target[i] by {
                        if i >= p * w {
                            let k = i - p * w;
                            assert(0 <= k < w) by (nonlinear_arith)
                                requires
                                    p * w <= i < (p + 1) * w,
                                    k == i - p * w,
                            ;
                            assert(i / (w as int) == p && i % (w as int) == k) by (nonlinear_arith)
                                requires
                                    i == p * w + k,
                                    0 <= k < w,
                            ;
                        }
                    }
                    assert((p + 1) * w == p * w + w) by (nonlinear_arith);
                }
                p = p + 1;
            }
            proof {
                assert(out@.len() == 2 + target.len());
                assert forall|j: int| 0 <= j < out@.len() implies out@[j] == (head + target)[j] by {
                    if j >= 2 {
                        assert(out@[2 + (j - 2)] == target[j - 2]);
                    } else {
                        assert(out@[j] == out@.subrange(0, 2)[j]);
                    }
                }
                assert(out@ =~= head + target);
            }
        },
        TgaPixelFormat::Gray8 => {
            if parent_depth != 8 {
                return Err(TgaError::unsupported("TGA encoder: postage stamp Gray8 only valid with parent depth 8"));
            }
            append_bytes(&mut out, d.as_slice());
        },
    }
    Ok(out)
}

/// Append the developer payloads and directory; returns the directory
/// offset for the footer.
#[verifier::rlimit(40)]
fn write_developer_area(out: &mut Vec<u8>, tags: &Vec<DeveloperTagInput>) -> (dir_off: u32)
    ensures
        final(out)@ == old(out)@ + dev_region(old(out)@.len() as int, tags@),
        dir_off == dev_dir_offset(old(out)@.len() as int, tags@),
{
    let ghost base = old(out)@.len() as int;
    let mut entries: Vec<TgaDeveloperTag> = Vec::new();
    let mut i: usize = 0;
    while i < tags.len()
        invariant
            i <= tags@.len(),
            base == old(out)@.len(),
            out@ == old(out)@ + payload_concat(tags@.take(i as int)),
            entries@ == dev_entries(base, tags@.take(i as int)),
        decreases tags@.len() - i,
    {
        let ghost before = out@;
        let t = &tags[i];
        proof {
            assert(tags@.take(i + 1).drop_last() =~= tags@.take(i as int));
            assert(tags@.take(i + 1).last() == tags@[i as int]);
        }
        if t.payload.len() == 0 {
            entries.push(TgaDeveloperTag { tag_id: t.tag_id, offset: 0, size: 0 });
            assert(payload_concat(tags@.take(i + 1)) =~= payload_concat(tags@.take(i as int)));
        } else {
            let off = out.len() as u32;
            append_bytes(out, t.payload.as_slice());
            entries.push(TgaDeveloperTag { tag_id: t.tag_id, offset: off, size: t.payload.len() as u32 });
        }
        proof {
            let tk = tags@.take(i + 1);
            assert forall|j: int| 0 <= j <= i implies #[trigger] dev_entry(base, tk, j) == entries@[j] by {
                if j < i {
                    assert(tk.take(j) =~= tags@.take(i as int).take(j));
                    assert(tk[j] == tags@.take(i as int)[j]);
                    assert(entries@[j] == dev_entries(base, tags@.take(i as int))[j]);
                } else {
                    assert(tk.take(j) =~= tags@.take(i as int));
                }
            }
            assert(entries@ =~= dev_entries(base, tk));
        }
        i = i + 1;
    }
    assert(tags@.take(tags@.len() as int) =~= tags@);
    reveal(dev_region);
    if entries.len() == 0 {
        assert(dev_region(base, tags@) =~= payload_concat(tags@));
        assert(out@ =~= old(out)@ + dev_region(base, tags@));
        return 0;
    }
    let off = out.len() as u32;
    let dir = crate::developer::TgaDeveloperArea::new(entries);
    let bytes = dir.to_bytes();
    append_bytes(out, bytes.as_slice());
    assert(out@ =~= old(out)@ + dev_region(base, tags@));
    off
}

/// The spec view of optional stamp bytes.
pub open spec fn opt_bytes(o: Option<Vec<u8>>) -> Option<Seq<u8>> {
    match o {
        Some(b) => Some(b@),
        None => None,
    }
}

/// Lay out the complete file from its parts.
fn assemble_file(base_tga: &[u8], ext: &ExtensionAreaInput, stamp: &Option<Vec<u8>>) -> (out: Vec<u8>)
    ensures
        out@ == assemble(base_tga@, *ext, opt_bytes(*stamp)),
{
    let ghost base = base_tga@;
    let ghost dev = dev_region(base.len() as int, ext.developer_tags@);
    let mut out: Vec<u8> = Vec::new();
    append_bytes(&mut out, base_tga);
    assert(out@ =~= base);
    let dir_off = write_developer_area(&mut out, &ext.developer_tags);
    assert(out@ == base + dev);
    let ghost t = dev;
    let ext_off = out.len() as u128;
    let stamp_len: u128 = match stamp {
        Some(b) => b.len() as u128,
        None => 0,
    };
    let stamp_off: u128 = if stamp.is_some() {
        ext_off + 495
    } else {
        0
    };
    let after_stamp = ext_off + 495 + stamp_len;
    let cct_len: u128 = if ext.colour_correction_table.is_some() {
        2048
    } else {
        0
    };
    let cct_off: u128 = if ext.colour_correction_table.is_some() {
        after_stamp
    } else {
        0
    };
    let slt_off: u128 = if ext.scan_line_table.is_some() {
        after_stamp + cct_len
    } else {
        0
    };
    #[verifier::truncate]
    let cct32 = cct_off as u32;
    #[verifier::truncate]
    let stamp32 = stamp_off as u32;
    #[verifier::truncate]
    let slt32 = slt_off as u32;
    write_extension_area(&mut out, ext, cct32, stamp32, slt32);
    let ghost ea = ext_area_bytes(*ext, cct_off as u32, stamp_off as u32, slt_off as u32);
    assert(out@ =~= base + (t + ea));
    let ghost t = t + ea;
    let ghost sb = match opt_bytes(*stamp) {
        Some(b) => b,
        None => Seq::<u8>::empty(),
    };
    match stamp {
        Some(b) => append_bytes(&mut out, b.as_slice()),
        None => {},
    }
    assert(out@ =~= base + (t + sb));
    let ghost t = t + sb;
    let ghost cb = match &ext.colour_correction_table {
        Some(t) => t.spec_bytes(),
        None => Seq::<u8>::empty(),
    };
    match &ext.colour_correction_table {
        Some(t) => {
            let b = t.to_bytes();
            append_bytes(&mut out, b.as_slice());
        },
        None => {},
    }
    assert(out@ =~= base + (t + cb));
    let ghost t = t + cb;
    let ghost lb = match &ext.scan_line_table {
        Some(t) => u32s_bytes(t.offsets@),
        None => Seq::<u8>::empty(),
    };
    match &ext.scan_line_table {
        Some(t) => {
            let b = t.to_bytes();
            append_bytes(&mut out, b.as_slice());
        },
        None => {},
    }
    assert(out@ =~= base + (t + lb));
    let ghost t = t + lb;
    #[verifier::truncate]
    let ext32 = ext_off as u32;
    push_u32_le(&mut out, ext32);
    assert(out@ =~= base + (t + u32_le_bytes(ext32)));
    let ghost t = t + u32_le_bytes(ext32);
    push_u32_le(&mut out, dir_off);
    assert(out@ =~= base + (t + u32_le_bytes(dir_off)));
    let ghost t = t + u32_le_bytes(dir_off);
    append_bytes(&mut out, TGA_FOOTER_MAGIC.as_slice());
    assert(out@ =~= base + (t + TGA_FOOTER_MAGIC@));
    let ghost t = t + TGA_FOOTER_MAGIC@;
    assert(t == appended(base.len() as int, *ext, opt_bytes(*stamp))) by {
        reveal(appended);
    }
    out
}

/// Append a TGA 2.0 footer, extension area, and any supplied postage
/// stamp, colour-correction table, scan-line table and developer area to
/// an encoded TGA. Layout: base file, developer payloads and directory,
/// extension area, postage stamp, colour-correction table, scan-line
/// table, footer.
pub fn encode_tga_with_extension(base_tga: &[u8], ext: &ExtensionAreaInput) -> (r: Result<Vec<u8>, TgaError>)
    ensures
        match spec_encode_with_extension(base_tga@, *ext) {
            Ok(b) => r matches Ok(v) && v@ == b,
            Err(k) => r matches Err(e) && e.kind() == k,
        },
{
    if base_tga.len() < TGA_HEADER_SIZE {
        return Err(TgaError::invalid("TGA encoder: base_tga too short to contain a header"));
    }
    let parent_depth = base_tga[16];
    let stamp = match &ext.postage_stamp {
        Some(st) => match postage_stamp_bytes(st, parent_depth) {
            Ok(b) => Some(b),
            Err(e) => return Err(e),
        },
        None => None,
    };
    let out = assemble_file(base_tga, ext, &stamp);
    Ok(out)
}

// ---------------------------------------------------------------------------
// Header edits
// ---------------------------------------------------------------------------

/// The file after splicing a non-empty Image ID into a base whose
/// `id_length` is 0.
pub open spec fn spliced(base: Seq<u8>, id: Seq<u8>) -> Seq<u8> {
    seq![id.len() as u8] + base.subrange(1, 18) + id + base.skip(18)
}

/// Insert an Image ID after the header of an encoded TGA whose
/// `id_length` is 0, setting `id_length`. Fails (leaving the file
/// untouched) when the file is shorter than a header, already has an
/// Image ID, or the ID is longer than 255 bytes; an empty ID is a no-op.
pub fn splice_image_id(base_tga: &mut Vec<u8>, image_id: &[u8]) -> (r: Result<(), TgaError>)
    ensures
        old(base_tga)@.len() < 18 ==> (r matches Err(e) && e.kind() == TgaErrorKind::InvalidData
            && final(base_tga)@ == old(base_tga)@),
        old(base_tga)@.len() >= 18 && old(base_tga)@[0] != 0 ==> (r matches Err(e) && e.kind()
            == TgaErrorKind::InvalidData && final(base_tga)@ == old(base_tga)@),
        old(base_tga)@.len() >= 18 && old(base_tga)@[0] == 0 && image_id@.len() > 255 ==> (r matches Err(e)
            && e.kind() == TgaErrorKind::InvalidData && final(base_tga)@ == old(base_tga)@),
        old(base_tga)@.len() >= 18 && old(base_tga)@[0] == 0 && image_id@.len() == 0 ==> r is Ok
            && final(base_tga)@ == old(base_tga)@,
        old(base_tga)@.len() >= 18 && old(base_tga)@[0] == 0 && 0 < image_id@.len() <= 255 ==> r is Ok
            && final(base_tga)@ == spliced(old(base_tga)@, image_id@),
{
    if base_tga.len() < TGA_HEADER_SIZE {
        return Err(TgaError::invalid("TGA encoder: base_tga too short to contain a header"));
    }
    if base_tga[0] != 0 {
        return Err(TgaError::invalid("TGA encoder: base_tga already carries an Image ID (id_length != 0)"));
    }
    if image_id.len() > TGA_IMAGE_ID_MAX {
        return Err(TgaError::invalid("TGA encoder: image_id length exceeds spec maximum 255"));
    }
    if image_id.len() == 0 {
        return Ok(());
    }
    let mut out: Vec<u8> = Vec::new();
    out.push(image_id.len() as u8);
    let head = vstd::slice::slice_subrange(base_tga.as_slice(), 1, TGA_HEADER_SIZE);
    append_bytes(&mut out, head);
    append_bytes(&mut out, image_id);
    let tail = vstd::slice::slice_subrange(base_tga.as_slice(), TGA_HEADER_SIZE, base_tga.len());
    append_bytes(&mut out, tail);
    assert(out@ =~= spliced(old(base_tga)@, image_id@));
    *base_tga = out;
    Ok(())
}

/// Write the screen-placement origin into header bytes 8-11 of an encoded
/// TGA (length unchanged). Fails when the file is shorter than a header.
pub fn set_image_origin(base_tga: &mut [u8], origin: ImageOrigin) -> (r: Result<(), TgaError>)
    ensures
        old(base_tga)@.len() < 18 ==> (r matches Err(e) && e.kind() == TgaErrorKind::InvalidData
            && final(base_tga)@ == old(base_tga)@),
        old(base_tga)@.len() >= 18 ==> r is Ok && final(base_tga)@ == old(base_tga)@.subrange(0, 8)
            + origin.spec_bytes() + old(base_tga)@.skip(12),
{
    if base_tga.len() < TGA_HEADER_SIZE {
        return Err(TgaError::invalid("TGA encoder: base_tga too short to contain a header"));
    }
    let b = origin.to_bytes();
    base_tga[8] = b[0];
    base_tga[9] = b[1];
    base_tga[10] = b[2];
    base_tga[11] = b[3];
    assert(base_tga@ =~= old(base_tga)@.subrange(0, 8) + origin.spec_bytes() + old(base_tga)@.skip(12));
    Ok(())
}

} // verus!
