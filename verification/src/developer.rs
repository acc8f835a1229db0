//! The TGA 2.0 developer area: a directory of `(tag, offset, size)`
//! records pointing at application-defined payloads.
use vstd::prelude::*;
use crate::types::{
    read_u16_le, read_u32_le, push_u16_le, push_u32_le, u16_at, u32_at, u16_le_bytes,
    u32_le_bytes, lemma_u16_roundtrip, lemma_u32_roundtrip,
};

verus! {

/// On-disk size of one directory record.
pub const TGA_DEVELOPER_TAG_BYTES: usize = 10;

/// On-disk size of the directory's leading record count.
pub const TGA_DEVELOPER_DIRECTORY_HEADER_BYTES: usize = 2;

/// One developer-directory record.
#[derive(Debug, Clone, Copy, PartialEq, Eq, Structural)]
pub struct TgaDeveloperTag {
    /// Tag identifier (0..=32767 developer use, 32768..=65535 reserved).
    pub tag_id: u16,
    /// File offset of the payload (0 = marker record without payload).
    pub offset: u32,
    /// Payload length in bytes.
    pub size: u32,
}

/// The ten on-disk bytes of a record.
pub open spec fn tag_bytes(t: TgaDeveloperTag) -> Seq<u8> {
    u16_le_bytes(t.tag_id) + u32_le_bytes(t.offset) + u32_le_bytes(t.size)
}

/// `true` when a record is a marker or its payload lies within `len` bytes.
pub open spec fn tag_fits(t: TgaDeveloperTag, len: int) -> bool {
    t.offset == 0 || t.offset + t.size <= len
}

impl TgaDeveloperTag {
    /// Build a record.
    pub fn new(tag_id: u16, offset: u32, size: u32) -> (r: Self)
        ensures
            r == (TgaDeveloperTag { tag_id, offset, size }),
    {
        TgaDeveloperTag { tag_id, offset, size }
    }

    /// The `(tag_id, offset, size)` triple.
    pub fn as_tuple(&self) -> (r: (u16, u32, u32))
        ensures
            r == (self.tag_id, self.offset, self.size),
    {
        (self.tag_id, self.offset, self.size)
    }

    /// Build from a `(tag_id, offset, size)` triple.
    pub fn from_tuple(t: (u16, u32, u32)) -> (r: Self)
        ensures
            r == (TgaDeveloperTag { tag_id: t.0, offset: t.1, size: t.2 }),
    {
        TgaDeveloperTag { tag_id: t.0, offset: t.1, size: t.2 }
    }

    /// `true` for ids 0..=32767.
    pub fn is_developer_use(&self) -> (r: bool)
        ensures
            r == (self.tag_id <= 32767),
    {
        self.tag_id <= 32767
    }

    /// `true` for ids 32768..=65535.
    pub fn is_truevision_reserved(&self) -> (r: bool)
        ensures
            r == (self.tag_id >= 32768),
    {
        self.tag_id >= 32768
    }

    /// `true` for a record without payload (`offset == 0`).
    pub fn is_marker(&self) -> (r: bool)
        ensures
            r == (self.offset == 0),
    {
        self.offset == 0
    }

    /// `true` when the record is a marker or its payload fits in
    /// `input_len` bytes.
    pub fn is_well_formed_within(&self, input_len: usize) -> (r: bool)
        ensures
            r == tag_fits(*self, input_len as int),
    {
        if self.offset == 0 {
            return true;
        }
        (self.offset as u64) + (self.size as u64) <= input_len as u64
    }

    /// Serialise to the ten on-disk bytes.
    pub fn to_bytes(&self) -> (out: [u8; 10])
        ensures
            out@ == tag_bytes(*self),
    {
        let mut v: Vec<u8> = Vec::new();
        push_u16_le(&mut v, self.tag_id);
        push_u32_le(&mut v, self.offset);
        push_u32_le(&mut v, self.size);
        let out = [v[0], v[1], v[2], v[3], v[4], v[5], v[6], v[7], v[8], v[9]];
        assert(out@ =~= tag_bytes(*self));
        out
    }
}

/// The records' bytes, back to back.
pub open spec fn tags_bytes(tags: Seq<TgaDeveloperTag>) -> Seq<u8>
    decreases tags.len(),
{
    if tags.len() == 0 {
        Seq::empty()
    } else {
        tags_bytes(tags.drop_last()) + tag_bytes(tags.last())
    }
}

/// The on-disk directory: the record count, then the records.
pub open spec fn directory_bytes(tags: Seq<TgaDeveloperTag>) -> Seq<u8> {
    u16_le_bytes(tags.len() as u16) + tags_bytes(tags)
}

/// Record `i` of the directory at `off` in `s`.
pub open spec fn tag_at(s: Seq<u8>, off: int, i: int) -> TgaDeveloperTag {
    TgaDeveloperTag {
        tag_id: u16_at(s, off + 2 + 10 * i),
        offset: u32_at(s, off + 4 + 10 * i),
        size: u32_at(s, off + 8 + 10 * i),
    }
}

/// The records of the directory at `off` in `s`.
pub open spec fn tags_at(s: Seq<u8>, off: int) -> Seq<TgaDeveloperTag> {
    Seq::new(u16_at(s, off) as nat, |i: int| tag_at(s, off, i))
}

/// `true` when a complete directory whose records all fit in `s` starts
/// at `off` (`off` 0 means "no developer area").
pub open spec fn directory_ok(s: Seq<u8>, off: u32) -> bool {
    &&& off != 0
    &&& off + 2 <= s.len()
    &&& off + 2 + 10 * u16_at(s, off as int) <= s.len()
    &&& forall|i: int|
        0 <= i < u16_at(s, off as int) ==> tag_fits(#[trigger] tag_at(s, off as int, i), s.len() as int)
}

/// Index of the first record with `id` among `tags`, or `tags.len()`.
pub open spec fn first_with_id(tags: Seq<TgaDeveloperTag>, id: u16) -> int
    decreases tags.len(),
{
    if tags.len() == 0 {
        0
    } else if tags[0].tag_id == id {
        0
    } else {
        1 + first_with_id(tags.drop_first(), id)
    }
}

proof fn lemma_first_with_id(tags: Seq<TgaDeveloperTag>, id: u16, k: int)
    requires
        0 <= k <= tags.len(),
        forall|j: int| 0 <= j < k ==> #[trigger] tags[j].tag_id != id,
        k == tags.len() || tags[k].tag_id == id,
    ensures
        first_with_id(tags, id) == k,
    decreases tags.len(),
{
    if tags.len() > 0 && k > 0 {
        lemma_first_with_id(tags.drop_first(), id, k - 1);
    }
}

/// The payload range of a record in `s`, if it has one that fits.
pub open spec fn payload_of(s: Seq<u8>, t: TgaDeveloperTag) -> Option<Seq<u8>> {
    if t.offset == 0 || t.offset + t.size > s.len() {
        None
    } else {
        Some(s.subrange(t.offset as int, t.offset + t.size))
    }
}

/// Parsed developer-area directory.
#[derive(Debug, Clone, PartialEq, Eq)]
pub struct TgaDeveloperArea {
    /// Records in on-disk order.
    pub tags: Vec<TgaDeveloperTag>,
}

impl Default for TgaDeveloperArea {
    fn default() -> (d: Self)
        ensures
            d.tags@.len() == 0,
    {
        TgaDeveloperArea::empty()
    }
}

impl FromIterator<TgaDeveloperTag> for TgaDeveloperArea {
    /// `Iterator::collect` of the records into the directory's vector.
    #[verifier::external_body]
    fn from_iter<I: IntoIterator<Item = TgaDeveloperTag>>(iter: I) -> Self {
        TgaDeveloperArea { tags: iter.into_iter().collect() }
    }
}

impl TgaDeveloperArea {
    /// The empty directory.
    pub fn empty() -> (d: Self)
        ensures
            d.tags@.len() == 0,
    {
        TgaDeveloperArea { tags: Vec::new() }
    }

    /// Wrap prebuilt records.
    pub fn new(tags: Vec<TgaDeveloperTag>) -> (d: Self)
        ensures
            d.tags@ == tags@,
    {
        TgaDeveloperArea { tags }
    }

    /// Number of records.
    pub fn len(&self) -> (r: usize)
        ensures
            r == self.tags@.len(),
    {
        self.tags.len()
    }

    /// `true` when there are no records.
    pub fn is_empty(&self) -> (r: bool)
        ensures
            r == (self.tags@.len() == 0),
    {
        self.tags.len() == 0
    }

    /// Same as [`Self::is_empty`].
    pub fn is_unset(&self) -> (r: bool)
        ensures
            r == (self.tags@.len() == 0),
    {
        self.tags.len() == 0
    }

    /// Serialised directory size, `2 + 10 × len`.
    pub fn directory_byte_size(&self) -> (r: usize)
        requires
            2 + 10 * self.tags@.len() <= usize::MAX,
        ensures
            r == 2 + 10 * self.tags@.len(),
    {
        TGA_DEVELOPER_DIRECTORY_HEADER_BYTES + self.tags.len() * TGA_DEVELOPER_TAG_BYTES
    }

    /// Record `i`, if there is one.
    pub fn get(&self, i: usize) -> (r: Option<&TgaDeveloperTag>)
        ensures
            match r {
                Some(t) => i < self.tags@.len() && *t == self.tags@[i as int],
                None => i >= self.tags@.len(),
            },
    {
        if i < self.tags.len() {
            Some(&self.tags[i])
        } else {
            None
        }
    }

    /// The first record (in directory order) carrying `tag_id`.
    pub fn find(&self, tag_id: u16) -> (r: Option<&TgaDeveloperTag>)
        ensures
            ({
                let k = first_with_id(self.tags@, tag_id);
                match r {
                    Some(t) => k < self.tags@.len() && *t == self.tags@[k],
                    None => k == self.tags@.len(),
                }
            }),
    {
        let mut i: usize = 0;
        while i < self.tags.len()
            invariant
                i <= self.tags@.len(),
                forall|j: int| 0 <= j < i ==> #[trigger] self.tags@[j].tag_id != tag_id,
            decreases self.tags@.len() - i,
        {
            if self.tags[i].tag_id == tag_id {
                proof {
                    lemma_first_with_id(self.tags@, tag_id, i as int);
                }
                return Some(&self.tags[i]);
            }
            i = i + 1;
        }
        proof {
            lemma_first_with_id(self.tags@, tag_id, i as int);
        }
        None
    }

    /// `true` when some record carries `tag_id`.
    pub fn contains(&self, tag_id: u16) -> (r: bool)
        ensures
            r == (exists|j: int| 0 <= j < self.tags@.len() && #[trigger] self.tags@[j].tag_id
                == tag_id),
    {
        let mut i: usize = 0;
        while i < self.tags.len()
            invariant
                i <= self.tags@.len(),
                forall|j: int| 0 <= j < i ==> #[trigger] self.tags@[j].tag_id != tag_id,
            decreases self.tags@.len() - i,
        {
            if self.tags[i].tag_id == tag_id {
                return true;
            }
            i = i + 1;
        }
        false
    }

    /// `true` when every record is a marker or fits in `input_len` bytes.
    pub fn is_well_formed_within(&self, input_len: usize) -> (r: bool)
        ensures
            r == (forall|j: int|
                0 <= j < self.tags@.len() ==> tag_fits(#[trigger] self.tags@[j], input_len as int)),
    {
        let mut i: usize = 0;
        while i < self.tags.len()
            invariant
                i <= self.tags@.len(),
                forall|j: int| 0 <= j < i ==> tag_fits(#[trigger] self.tags@[j], input_len as int),
            decreases self.tags@.len() - i,
        {
            if !self.tags[i].is_well_formed_within(input_len) {
                return false;
            }
            i = i + 1;
        }
        true
    }

    /// Serialise the directory: record count then the records.
    pub fn to_bytes(&self) -> (out: Vec<u8>)
        ensures
            out@ == directory_bytes(self.tags@),
    {
        let mut out: Vec<u8> = Vec::new();
        push_u16_le(&mut out, self.tags.len() as u16);
        let ghost head = out@;
        let mut i: usize = 0;
        while i < self.tags.len()
            invariant
                i <= self.tags@.len(),
                head == u16_le_bytes(self.tags@.len() as u16),
                out@ == head + tags_bytes(self.tags@.take(i as int)),
            decreases self.tags@.len() - i,
        {
            let b = self.tags[i].to_bytes();
            let mut k: usize = 0;
            let ghost before = out@;
            while k < 10
                invariant
                    k <= 10,
                    b@ == tag_bytes(self.tags@[i as int]),
                    out@ == before + b@.take(k as int),
                decreases 10 - k,
            {
                out.push(b[k]);
                k = k + 1;
                assert(out@ =~= before + b@.take(k as int));
            }
            proof {
                assert(self.tags@.take(i + 1).drop_last() =~= self.tags@.take(i as int));
                assert(b@.take(10) =~= b@);
            }
            i = i + 1;
            assert(out@ =~= head + tags_bytes(self.tags@.take(i as int)));
        }
        assert(self.tags@.take(self.tags@.len() as int) =~= self.tags@);
        out
    }

    /// Parse the directory at byte `offset`; `None` when `offset` is 0, the
    /// count or records are truncated, or a record's payload runs past the
    /// end of `input`.
    pub fn parse(input: &[u8], offset: u32) -> (r: Option<Self>)
        ensures
            match r {
                Some(d) => directory_ok(input@, offset) && d.tags@ == tags_at(
                    input@,
                    offset as int,
                ),
                None => !directory_ok(input@, offset),
            },
    {
        if offset == 0 {
            return None;
        }
        let off = offset as usize;
        if input.len() < off || input.len() - off < 2 {
            return None;
        }
        let n = read_u16_le(input, off) as usize;
        if input.len() - off - 2 < n * 10 {
            return None;
        }
        let ghost s = input@;
        let mut tags: Vec<TgaDeveloperTag> = Vec::with_capacity(n);
        let mut i: usize = 0;
        while i < n
            invariant
                i <= n,
                n == u16_at(s, off as int),
                s == input@,
                off == offset,
                off + 2 + 10 * n <= input.len(),
                tags@ == tags_at(s, off as int).take(i as int),
                forall|j: int| 0 <= j < i ==> tag_fits(#[trigger] tag_at(s, off as int, j), s.len() as int),
            decreases n - i,
        {
            let rec_off = off + 2 + i * 10;
            let tag_id = read_u16_le(input, rec_off);
            let tag_offset = read_u32_le(input, rec_off + 2);
            let tag_size = read_u32_le(input, rec_off + 6);
            let t = TgaDeveloperTag { tag_id, offset: tag_offset, size: tag_size };
            assert(t == tag_at(s, off as int, i as int));
            if tag_offset != 0 {
                if (tag_offset as u64) + (tag_size as u64) > input.len() as u64 {
                    return None;
                }
            }
            tags.push(t);
            i = i + 1;
            assert(tags@ =~= tags_at(s, off as int).take(i as int));
        }
        assert(tags@ =~= tags_at(s, off as int));
        Some(TgaDeveloperArea { tags })
    }

    /// The payload bytes of `tag` in `input`; `None` for a marker record or
    /// a range past the end of `input`.
    pub fn payload<'a>(&self, input: &'a [u8], tag: &TgaDeveloperTag) -> (r: Option<&'a [u8]>)
        ensures
            match payload_of(input@, *tag) {
                Some(p) => r matches Some(b) && b@ == p,
                None => r is None,
            },
    {
        if tag.offset == 0 {
            return None;
        }
        if (tag.offset as u64) + (tag.size as u64) > input.len() as u64 {
            return None;
        }
        let off = tag.offset as usize;
        let sz = tag.size as usize;
        Some(vstd::slice::slice_subrange(input, off, off + sz))
    }

    /// The payload of the first record carrying `tag_id`, if it has one.
    pub fn payload_by_id<'a>(&self, input: &'a [u8], tag_id: u16) -> (r: Option<&'a [u8]>)
        ensures
            ({
                let k = first_with_id(self.tags@, tag_id);
                if k < self.tags@.len() {
                    match payload_of(input@, self.tags@[k]) {
                        Some(p) => r matches Some(b) && b@ == p,
                        None => r is None,
                    }
                } else {
                    r is None
                }
            }),
    {
        match self.find(tag_id) {
            Some(t) => self.payload(input, t),
            None => None,
        }
    }
}

/// Record `i` of a serialised record list reads back as `tags[i]`.
proof fn lemma_tags_bytes(tags: Seq<TgaDeveloperTag>, s: Seq<u8>, off: int)
    requires
        off >= 0,
        off + 2 + tags_bytes(tags).len() <= s.len(),
        s.subrange(off + 2, off + 2 + tags_bytes(tags).len()) == tags_bytes(tags),
    ensures
        tags_bytes(tags).len() == 10 * tags.len(),
        forall|i: int| 0 <= i < tags.len() ==> #[trigger] tag_at(s, off, i) == tags[i],
    decreases tags.len(),
{
    let base = off + 2;
    if tags.len() > 0 {
        let w = tags.drop_last();
        let last = tags.last();
        assert(tags_bytes(tags) == tags_bytes(w) + tag_bytes(last));
        let lw = tags_bytes(w).len();
        assert(s.subrange(base, base + lw) =~= tags_bytes(w)) by {
            assert(s.subrange(base, base + lw) =~= s.subrange(base, base + tags_bytes(tags).len()).subrange(0, lw as int));
        }
        lemma_tags_bytes(w, s, off);
        let k = tags.len() - 1;
        let p = base + 10 * k;
        assert(s.subrange(p, p + 10) =~= tag_bytes(last)) by {
            assert(s.subrange(p, p + 10) =~= s.subrange(base, base + tags_bytes(tags).len()).subrange(10 * k, 10 * k + 10));
        }
        lemma_u16_roundtrip(last.tag_id);
        lemma_u32_roundtrip(last.offset);
        lemma_u32_roundtrip(last.size);
        assert(s[p] == tag_bytes(last)[0]);
        assert(s[p + 1] == tag_bytes(last)[1]);
        assert(u16_at(s, p) == u16_at(tag_bytes(last), 0));
        assert(u32_at(s, p + 2) == u32_at(tag_bytes(last), 2));
        assert(u32_at(s, p + 6) == u32_at(tag_bytes(last), 6));
        assert(u32_at(tag_bytes(last), 2) == u32_at(u32_le_bytes(last.offset), 0));
        assert(u32_at(tag_bytes(last), 6) == u32_at(u32_le_bytes(last.size), 0));
        assert(tag_at(s, off, k) == last);
        assert forall|i: int| 0 <= i < tags.len() implies #[trigger] tag_at(s, off, i)
            == tags[i] by {
            if i < k {
                assert(tag_at(s, off, i) == w[i]);
            }
        }
    }
}

/// Law: a directory serialised with `to_bytes` and stored at a non-zero
/// offset parses back to the same records, provided it has at most 65535
/// records and every record's payload fits in the resulting stream.
pub proof fn law_directory_roundtrip(tags: Seq<TgaDeveloperTag>, prefix: Seq<u8>, rest: Seq<u8>)
    requires
        prefix.len() > 0,
        prefix.len() <= u32::MAX,
        tags.len() <= 65535,
        forall|i: int|
            0 <= i < tags.len() ==> tag_fits(
                #[trigger] tags[i],
                (prefix + directory_bytes(tags) + rest).len() as int,
            ),
    ensures
        directory_ok(prefix + directory_bytes(tags) + rest, prefix.len() as u32),
        tags_at(prefix + directory_bytes(tags) + rest, prefix.len() as int) == tags,
{
    let s = prefix + directory_bytes(tags) + rest;
    let off = prefix.len() as int;
    let n = tags.len();
    lemma_u16_roundtrip(n as u16);
    assert(u16_at(s, off) == u16_at(u16_le_bytes(n as u16), 0));
    assert(u16_at(s, off) == n);
    let tb = tags_bytes(tags);
    assert(s.subrange(off + 2, off + 2 + tb.len()) =~= tb);
    lemma_tags_bytes(tags, s, off);
    assert(tags_at(s, off) =~= tags);
    assert forall|i: int| 0 <= i < u16_at(s, off) implies tag_fits(
        #[trigger] tag_at(s, off, i),
        s.len() as int,
    ) by {
        assert(tag_at(s, off, i) == tags[i]);
    }
}

} // verus!
