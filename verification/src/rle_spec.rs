//! Mathematical model of the run-length packetisation the encoders use
//! (TGA 2.0 §C.5): runs of two or more identical pixels become run
//! packets (at most 128 pixels each), everything else is gathered into
//! raw packets (at most 128 pixels each) that stop just before a pixel
//! that begins a run.
use vstd::prelude::*;

verus! {

/// Length of the run of pixels equal to `row[i]` starting at `i`, having
/// already seen `r` of them, capped at 128.
pub open spec fn run_len_from<T>(row: Seq<T>, i: int, r: int) -> int
    decreases 128 - r,
{
    if r >= 128 {
        r
    } else if i + r < row.len() && row[i + r] == row[i] {
        run_len_from(row, i, r + 1)
    } else {
        r
    }
}

/// End (exclusive) of the raw packet that starts at `start`, having
/// already gathered pixels up to `end`.
pub open spec fn raw_end_from<T>(row: Seq<T>, start: int, end: int) -> int
    decreases row.len() - end,
{
    if end < row.len() && end - start < 128 && !(end + 1 < row.len() && row[end + 1] == row[end]) {
        raw_end_from(row, start, end + 1)
    } else {
        end
    }
}

pub proof fn lemma_run_len_bounds<T>(row: Seq<T>, i: int, r: int)
    requires
        1 <= r <= 128,
        i + r <= row.len(),
    ensures
        r <= run_len_from(row, i, r) <= 128,
        i + run_len_from(row, i, r) <= row.len(),
    decreases 128 - r,
{
    if r < 128 && i + r < row.len() && row[i + r] == row[i] {
        lemma_run_len_bounds(row, i, r + 1);
    }
}

pub proof fn lemma_raw_end_bounds<T>(row: Seq<T>, start: int, end: int)
    requires
        start < end <= row.len(),
        end - start <= 128,
    ensures
        end <= raw_end_from(row, start, end) <= row.len(),
        raw_end_from(row, start, end) - start <= 128,
    decreases row.len() - end,
{
    if end < row.len() && end - start < 128 && !(end + 1 < row.len() && row[end + 1] == row[end]) {
        lemma_raw_end_bounds(row, start, end + 1);
    }
}

/// Concatenated serialisation of a sequence of pixels.
pub open spec fn ser_all<T>(s: Seq<T>, ser: spec_fn(T) -> Seq<u8>) -> Seq<u8>
    decreases s.len(),
{
    if s.len() == 0 {
        Seq::empty()
    } else {
        ser_all(s.drop_last(), ser) + ser(s.last())
    }
}

/// The run-length packets for `row[i..]`.
pub open spec fn rle_row_from<T>(row: Seq<T>, i: int, ser: spec_fn(T) -> Seq<u8>) -> Seq<u8>
    decreases row.len() - i,
{
    if i < 0 || i >= row.len() {
        Seq::empty()
    } else {
        let r = run_len_from(row, i, 1);
        proof {
            lemma_run_len_bounds(row, i, 1);
        }
        if r >= 2 {
            seq![(128 + r - 1) as u8] + ser(row[i]) + rle_row_from(row, i + r, ser)
        } else {
            let e = raw_end_from(row, i, i + 1);
            proof {
                lemma_raw_end_bounds(row, i, i + 1);
            }
            seq![(e - i - 1) as u8] + ser_all(row.subrange(i, e), ser) + rle_row_from(row, e, ser)
        }
    }
}

/// The run-length packets for a whole row.
pub open spec fn rle_row<T>(row: Seq<T>, ser: spec_fn(T) -> Seq<u8>) -> Seq<u8> {
    rle_row_from(row, 0, ser)
}

/// Concatenated run-length packets of a sequence of rows.
pub open spec fn rle_rows<T>(rows: Seq<Seq<T>>, ser: spec_fn(T) -> Seq<u8>) -> Seq<u8>
    decreases rows.len(),
{
    if rows.len() == 0 {
        Seq::empty()
    } else {
        rle_rows(rows.drop_last(), ser) + rle_row(rows.last(), ser)
    }
}

/// Serialisation of a single byte pixel.
pub open spec fn ser_byte() -> spec_fn(u8) -> Seq<u8> {
    |b: u8| seq![b]
}

/// On-wire BGR(A) serialisation of an RGBA pixel.
pub open spec fn ser_bgra(with_alpha: bool) -> spec_fn([u8; 4]) -> Seq<u8> {
    |p: [u8; 4]|
        if with_alpha {
            seq![p[2], p[1], p[0], p[3]]
        } else {
            seq![p[2], p[1], p[0]]
        }
}

/// On-wire BGR serialisation of an RGB pixel.
pub open spec fn ser_bgr() -> spec_fn([u8; 3]) -> Seq<u8> {
    |p: [u8; 3]| seq![p[2], p[1], p[0]]
}

} // verus!
