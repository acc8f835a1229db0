//! The extension area's scan-line table: one little-endian `u32` file
//! offset per pixel row, in saved order.
use vstd::prelude::*;
use crate::types::{read_u32_le, push_u32_le, u32_at, u32_le_bytes, lemma_u32_roundtrip};

verus! {

/// On-disk size of one scan-line table entry.
pub const TGA_SCAN_LINE_OFFSET_BYTES: usize = 4;

/// The little-endian bytes of a sequence of `u32`s, back to back.
pub open spec fn u32s_bytes(v: Seq<u32>) -> Seq<u8>
    decreases v.len(),
{
    if v.len() == 0 {
        Seq::empty()
    } else {
        u32s_bytes(v.drop_last()) + u32_le_bytes(v.last())
    }
}

/// The `n` little-endian `u32`s stored back to back at `off` in `s`.
pub open spec fn u32s_at(s: Seq<u8>, off: int, n: nat) -> Seq<u32> {
    Seq::new(n, |i: int| u32_at(s, off + 4 * i))
}

/// Reading back `u32s_bytes(v)` gives `v`.
pub proof fn lemma_u32s_roundtrip(v: Seq<u32>, prefix: Seq<u8>, rest: Seq<u8>)
    ensures
        u32s_bytes(v).len() == 4 * v.len(),
        u32s_at(prefix + u32s_bytes(v) + rest, prefix.len() as int, v.len()) == v,
    decreases v.len(),
{
    let off = prefix.len() as int;
    if v.len() > 0 {
        let w = v.drop_last();
        lemma_u32s_roundtrip(w, prefix, u32_le_bytes(v.last()) + rest);
        lemma_u32_roundtrip(v.last());
        let s = prefix + u32s_bytes(v) + rest;
        assert(prefix + u32s_bytes(w) + (u32_le_bytes(v.last()) + rest) =~= s);
        let k = v.len() - 1;
        assert(u32_at(s, off + 4 * k) == u32_at(u32_le_bytes(v.last()), 0));
        assert(u32s_at(s, off, w.len()) == w);
        assert forall|i: int| 0 <= i < v.len() implies #[trigger] u32s_at(s, off, v.len())[i]
            == v[i] by {
            if i < k {
                assert(u32s_at(s, off, w.len())[i] == w[i]);
            }
        }
        assert(u32s_at(s, off, v.len()) =~= v);
    } else {
        assert(u32s_at(prefix + u32s_bytes(v) + rest, off, 0) =~= v);
    }
}

/// Per-row byte offsets (scan-line table).
#[derive(Debug, Clone, PartialEq, Eq)]
pub struct TgaScanLineTable {
    /// `offsets[y]` is the file offset of saved row `y`.
    pub offsets: Vec<u32>,
}

impl Default for TgaScanLineTable {
    fn default() -> (t: Self)
        ensures
            t.offsets@.len() == 0,
    {
        TgaScanLineTable::empty()
    }
}

impl FromIterator<u32> for TgaScanLineTable {
    /// `Iterator::collect` of the offsets into the table's vector.
    #[verifier::external_body]
    fn from_iter<I: IntoIterator<Item = u32>>(iter: I) -> Self {
        TgaScanLineTable { offsets: iter.into_iter().collect() }
    }
}

impl TgaScanLineTable {
    /// The empty table.
    pub fn empty() -> (t: Self)
        ensures
            t.offsets@.len() == 0,
    {
        TgaScanLineTable { offsets: Vec::new() }
    }

    /// Wrap a prebuilt offsets vector.
    pub fn new(offsets: Vec<u32>) -> (t: Self)
        ensures
            t.offsets@ == offsets@,
    {
        TgaScanLineTable { offsets }
    }

    /// An empty table with room reserved for `height` rows.
    pub fn with_capacity(height: u16) -> (t: Self)
        ensures
            t.offsets@.len() == 0,
    {
        TgaScanLineTable { offsets: Vec::with_capacity(height as usize) }
    }

    /// Number of offsets.
    pub fn len(&self) -> (r: usize)
        ensures
            r == self.offsets@.len(),
    {
        self.offsets.len()
    }

    /// `true` when the table holds no offsets.
    pub fn is_empty(&self) -> (r: bool)
        ensures
            r == (self.offsets@.len() == 0),
    {
        self.offsets.len() == 0
    }

    /// Same as [`Self::is_empty`].
    pub fn is_unset(&self) -> (r: bool)
        ensures
            r == (self.offsets@.len() == 0),
    {
        self.offsets.len() == 0
    }

    /// The offset of row `y`, if the table has one.
    pub fn get(&self, y: usize) -> (r: Option<u32>)
        ensures
            r == (if y < self.offsets@.len() {
                Some(self.offsets@[y as int])
            } else {
                None::<u32>
            }),
    {
        if y < self.offsets.len() {
            Some(self.offsets[y])
        } else {
            None
        }
    }

    /// Serialised size in bytes (`4 × len`).
    pub fn byte_size(&self) -> (r: usize)
        requires
            4 * self.offsets@.len() <= usize::MAX,
        ensures
            r == 4 * self.offsets@.len(),
    {
        self.offsets.len() * TGA_SCAN_LINE_OFFSET_BYTES
    }

    /// `true` when every offset is below `input_len`.
    pub fn is_well_formed_within(&self, input_len: usize) -> (r: bool)
        ensures
            r == (forall|i: int|
                0 <= i < self.offsets@.len() ==> #[trigger] self.offsets@[i] < input_len),
    {
        let mut i: usize = 0;
        while i < self.offsets.len()
            invariant
                i <= self.offsets@.len(),
                forall|j: int| 0 <= j < i ==> #[trigger] self.offsets@[j] < input_len,
            decreases self.offsets@.len() - i,
        {
            if self.offsets[i] as usize >= input_len {
                return false;
            }
            i = i + 1;
        }
        true
    }

    /// `true` when each offset is smaller than the next.
    pub fn is_strictly_increasing(&self) -> (r: bool)
        ensures
            r == (forall|i: int|
                0 <= i < self.offsets@.len() - 1 ==> #[trigger] self.offsets@[i] < self.offsets@[i
                    + 1]),
    {
        let n = self.offsets.len();
        let mut i: usize = 0;
        while n > 0 && i < n - 1
            invariant
                n == self.offsets@.len(),
                i <= n,
                forall|j: int| 0 <= j < i && j < n - 1 ==> #[trigger] self.offsets@[j]
                    < self.offsets@[j + 1],
            decreases n - i,
        {
            if self.offsets[i] >= self.offsets[i + 1] {
                return false;
            }
            i = i + 1;
        }
        true
    }

    /// `true` when each offset is larger than the next.
    pub fn is_strictly_decreasing(&self) -> (r: bool)
        ensures
            r == (forall|i: int|
                0 <= i < self.offsets@.len() - 1 ==> #[trigger] self.offsets@[i] > self.offsets@[i
                    + 1]),
    {
        let n = self.offsets.len();
        let mut i: usize = 0;
        while n > 0 && i < n - 1
            invariant
                n == self.offsets@.len(),
                i <= n,
                forall|j: int| 0 <= j < i && j < n - 1 ==> #[trigger] self.offsets@[j]
                    > self.offsets@[j + 1],
            decreases n - i,
        {
            if self.offsets[i] <= self.offsets[i + 1] {
                return false;
            }
            i = i + 1;
        }
        true
    }

    /// The `[start, end)` range of row `y`: from its offset to the next
    /// row's (or `terminal` for the last row); `None` when `y` is out of
    /// range, when the row's offset lies past `terminal`, or when the end
    /// would precede the start.
    pub open spec fn spec_row_range(self, y: int, terminal: u32) -> Option<(u32, u32)> {
        if y < 0 || y >= self.offsets@.len() {
            None
        } else {
            let start = self.offsets@[y];
            let end = if y + 1 < self.offsets@.len() {
                self.offsets@[y + 1]
            } else {
                terminal
            };
            if start > terminal || end < start {
                None
            } else {
                Some((start, end))
            }
        }
    }

    /// The `[start, end)` byte range of row `y`.
    pub fn row_range(&self, y: usize, terminal: u32) -> (r: Option<(u32, u32)>)
        ensures
            r == self.spec_row_range(y as int, terminal),
    {
        if y >= self.offsets.len() {
            return None;
        }
        let start = self.offsets[y];
        let end = if y + 1 < self.offsets.len() {
            self.offsets[y + 1]
        } else {
            terminal
        };
        if start > terminal || end < start {
            return None;
        }
        Some((start, end))
    }

    /// The bytes of row `y` in `input`; `None` when the range is undefined
    /// or runs past the end of `input`.
    pub fn row_bytes<'a>(&self, input: &'a [u8], y: usize, terminal: u32) -> (r: Option<&'a [u8]>)
        ensures
            match self.spec_row_range(y as int, terminal) {
                Some((s, e)) => if e <= input@.len() {
                    r matches Some(b) && b@ == input@.subrange(s as int, e as int)
                } else {
                    r is None
                },
                None => r is None,
            },
    {
        let (start, end) = match self.row_range(y, terminal) {
            Some(p) => p,
            None => return None,
        };
        let s = start as usize;
        let e = end as usize;
        if e > input.len() {
            return None;
        }
        Some(vstd::slice::slice_subrange(input, s, e))
    }

    /// Parse `height` offsets at byte `offset`; `None` when `offset` or
    /// `height` is 0 or the table is truncated.
    pub fn parse(input: &[u8], offset: u32, height: u16) -> (r: Option<Self>)
        ensures
            match r {
                Some(t) => offset != 0 && height != 0 && offset + 4 * height <= input@.len()
                    && t.offsets@ == u32s_at(input@, offset as int, height as nat),
                None => offset == 0 || height == 0 || offset + 4 * height > input@.len(),
            },
    {
        if offset == 0 || height == 0 {
            return None;
        }
        let off = offset as usize;
        let n = height as usize;
        if input.len() < off || input.len() - off < n * TGA_SCAN_LINE_OFFSET_BYTES {
            return None;
        }
        let mut offsets: Vec<u32> = Vec::with_capacity(n);
        let mut i: usize = 0;
        while i < n
            invariant
                i <= n,
                off + 4 * n <= input.len(),
                offsets@ == u32s_at(input@, off as int, i as nat),
            decreases n - i,
        {
            offsets.push(read_u32_le(input, off + i * 4));
            i = i + 1;
            assert(offsets@ =~= u32s_at(input@, off as int, i as nat));
        }
        Some(TgaScanLineTable { offsets })
    }

    /// Serialise to `4 × len` little-endian bytes.
    pub fn to_bytes(&self) -> (out: Vec<u8>)
        ensures
            out@ == u32s_bytes(self.offsets@),
    {
        let mut out: Vec<u8> = Vec::new();
        let mut i: usize = 0;
        while i < self.offsets.len()
            invariant
                i <= self.offsets@.len(),
                out@ == u32s_bytes(self.offsets@.take(i as int)),
            decreases self.offsets@.len() - i,
        {
            push_u32_le(&mut out, self.offsets[i]);
            proof {
                assert(self.offsets@.take(i + 1).drop_last() =~= self.offsets@.take(i as int));
            }
            i = i + 1;
        }
        assert(self.offsets@.take(self.offsets@.len() as int) =~= self.offsets@);
        out
    }
}

/// Law: a table's bytes, stored at a non-zero offset with its row count
/// as the height, parse back to the same table.
pub proof fn law_scan_line_roundtrip(t: TgaScanLineTable, prefix: Seq<u8>, rest: Seq<u8>)
    ensures
        u32s_at(prefix + u32s_bytes(t.offsets@) + rest, prefix.len() as int, t.offsets@.len())
            == t.offsets@,
        u32s_bytes(t.offsets@).len() == 4 * t.offsets@.len(),
{
    lemma_u32s_roundtrip(t.offsets@, prefix, rest);
}

} // verus!
