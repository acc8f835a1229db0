//! Run-length packetisation of one pixel row (TGA 2.0 §C.5), for byte,
//! RGB and RGBA pixels. Each function emits exactly [`rle_row`] of its row.
use vstd::prelude::*;
use crate::rle_spec::{
    lemma_raw_end_bounds, lemma_run_len_bounds, raw_end_from, rle_row, rle_row_from, run_len_from,
    ser_all, ser_bgr, ser_bgra, ser_byte,
};

verus! {

/// The byte serialisation of a byte row is the row itself.
pub proof fn lemma_ser_all_bytes(s: Seq<u8>)
    ensures
        ser_all(s, ser_byte()) =~= s,
    decreases s.len(),
{
    if s.len() > 0 {
        lemma_ser_all_bytes(s.drop_last());
        assert(s.drop_last().push(s.last()) =~= s);
    }
}

/// Extending a serialised prefix by one pixel.
pub proof fn lemma_ser_all_step<T>(row: Seq<T>, i: int, k: int, ser: spec_fn(T) -> Seq<u8>)
    requires
        0 <= i <= k < row.len(),
    ensures
        ser_all(row.subrange(i, k + 1), ser) == ser_all(row.subrange(i, k), ser) + ser(row[k]),
{
    assert(row.subrange(i, k + 1).drop_last() =~= row.subrange(i, k));
}

/// One unfolding of the packetisation at position `i`.
proof fn lemma_rle_unfold<T>(row: Seq<T>, i: int, ser: spec_fn(T) -> Seq<u8>)
    requires
        0 <= i < row.len(),
    ensures
        ({
            let r = run_len_from(row, i, 1);
            if r >= 2 {
                rle_row_from(row, i, ser) == seq![(128 + r - 1) as u8] + ser(row[i]) + rle_row_from(row, i + r, ser)
            } else {
                let e = raw_end_from(row, i, i + 1);
                rle_row_from(row, i, ser) == seq![(e - i - 1) as u8] + ser_all(row.subrange(i, e), ser)
                    + rle_row_from(row, e, ser)
            }
        }),
{
}

/// Run-length packetise a row of byte pixels (grayscale or palette index).
pub fn rle_one_row_u8(row: &[u8], out: &mut Vec<u8>)
    ensures
        final(out)@ == old(out)@ + rle_row(row@, ser_byte()),
{
    let ghost ser = ser_byte();
    let ghost whole = old(out)@ + rle_row_from(row@, 0, ser);
    let n = row.len();
    let mut i: usize = 0;
    while i < n
        invariant
            n == row@.len(),
            i <= n,
            ser == ser_byte(),
            whole == out@ + rle_row_from(row@, i as int, ser),
        decreases n - i,
    {
        let mut run: usize = 1;
        while i + run < n && row[i + run] == row[i] && run < 128
            invariant
                n == row@.len(),
                i < n,
                1 <= run <= 128,
                i + run <= n,
                run_len_from(row@, i as int, 1) == run_len_from(row@, i as int, run as int),
            decreases 128 - run,
        {
            run = run + 1;
        }
        proof {
            lemma_run_len_bounds(row@, i as int, 1);
            lemma_rle_unfold(row@, i as int, ser);
        }
        let ghost before = out@;
        if run >= 2 {
            out.push((128 + run - 1) as u8);
            out.push(row[i]);
            assert(out@ =~= before + (seq![(128 + run - 1) as u8] + ser(row@[i as int])));
            i = i + run;
        } else {
            let mut raw_end: usize = i + 1;
            while raw_end < n && raw_end - i < 128 && !(raw_end + 1 < n && row[raw_end + 1] == row[raw_end])
                invariant
                    n == row@.len(),
                    i < raw_end <= n,
                    raw_end - i <= 128,
                    raw_end_from(row@, i as int, i + 1) == raw_end_from(row@, i as int, raw_end as int),
                decreases n - raw_end,
            {
                raw_end = raw_end + 1;
            }
            proof {
                lemma_raw_end_bounds(row@, i as int, i + 1);
                lemma_ser_all_bytes(row@.subrange(i as int, raw_end as int));
            }
            let count = raw_end - i;
            out.push((count - 1) as u8);
            let mut k = i;
            while k < raw_end
                invariant
                    i <= k <= raw_end <= n,
                    n == row@.len(),
                    out@ == before + seq![(count - 1) as u8] + row@.subrange(i as int, k as int),
                decreases raw_end - k,
            {
                out.push(row[k]);
                assert(row@.subrange(i as int, k + 1) =~= row@.subrange(i as int, k as int).push(row@[k as int]));
                k = k + 1;
            }
            i = raw_end;
        }
    }
    assert(out@ + Seq::<u8>::empty() =~= out@);
}

/// `true` when two pixels are equal.
pub(crate) fn px4_eq(a: [u8; 4], b: [u8; 4]) -> (r: bool)
    ensures
        r == (a == b),
{
    let r = a[0] == b[0] && a[1] == b[1] && a[2] == b[2] && a[3] == b[3];
    if r {
        assert(a =~= b);
    } else {
        assert(a != b) by {
            if a == b {
                assert(a[0] == b[0] && a[1] == b[1] && a[2] == b[2] && a[3] == b[3]);
            }
        }
    }
    r
}

/// `true` when two pixels are equal.
fn px3_eq(a: [u8; 3], b: [u8; 3]) -> (r: bool)
    ensures
        r == (a == b),
{
    let r = a[0] == b[0] && a[1] == b[1] && a[2] == b[2];
    if r {
        assert(a =~= b);
    } else {
        assert(a != b) by {
            if a == b {
                assert(a[0] == b[0] && a[1] == b[1] && a[2] == b[2]);
            }
        }
    }
    r
}

/// Append the on-wire BGR(A) bytes of one RGBA pixel.
pub(crate) fn write_pixel(p: &[u8; 4], with_alpha: bool, out: &mut Vec<u8>)
    ensures
        final(out)@ == old(out)@ + (ser_bgra(with_alpha))(*p),
{
    out.push(p[2]);
    out.push(p[1]);
    out.push(p[0]);
    if with_alpha {
        out.push(p[3]);
    }
    assert(final(out)@ =~= old(out)@ + (ser_bgra(with_alpha))(*p));
}

/// Run-length packetise a row of RGBA pixels, writing BGR(A) on the wire.
pub fn rle_one_row(row: &[[u8; 4]], with_alpha: bool, out: &mut Vec<u8>)
    ensures
        final(out)@ == old(out)@ + rle_row(row@, ser_bgra(with_alpha)),
{
    let ghost ser = ser_bgra(with_alpha);
    let ghost whole = old(out)@ + rle_row_from(row@, 0, ser);
    let n = row.len();
    let mut i: usize = 0;
    while i < n
        invariant
            n == row@.len(),
            i <= n,
            ser == ser_bgra(with_alpha),
            whole == out@ + rle_row_from(row@, i as int, ser),
        decreases n - i,
    {
        let mut run: usize = 1;
        while i + run < n && px4_eq(row[i + run], row[i]) && run < 128
            invariant
                n == row@.len(),
                i < n,
                1 <= run <= 128,
                i + run <= n,
                run_len_from(row@, i as int, 1) == run_len_from(row@, i as int, run as int),
            decreases 128 - run,
        {
            run = run + 1;
        }
        proof {
            lemma_run_len_bounds(row@, i as int, 1);
            lemma_rle_unfold(row@, i as int, ser);
        }
        let ghost before = out@;
        if run >= 2 {
            out.push((128 + run - 1) as u8);
            write_pixel(&row[i], with_alpha, out);
            assert(out@ =~= before + (seq![(128 + run - 1) as u8] + ser(row@[i as int])));
            i = i + run;
        } else {
            let mut raw_end: usize = i + 1;
            while raw_end < n && raw_end - i < 128 && !(raw_end + 1 < n && px4_eq(row[raw_end + 1], row[raw_end]))
                invariant
                    n == row@.len(),
                    i < raw_end <= n,
                    raw_end - i <= 128,
                    raw_end_from(row@, i as int, i + 1) == raw_end_from(row@, i as int, raw_end as int),
                decreases n - raw_end,
            {
                raw_end = raw_end + 1;
            }
            proof {
                lemma_raw_end_bounds(row@, i as int, i + 1);
            }
            let count = raw_end - i;
            out.push((count - 1) as u8);
            let mut k = i;
            assert(row@.subrange(i as int, i as int) =~= Seq::<[u8; 4]>::empty());
            assert(out@ =~= before + seq![(count - 1) as u8] + ser_all(row@.subrange(i as int, i as int), ser));
            while k < raw_end
                invariant
                    i <= k <= raw_end <= n,
                    n == row@.len(),
                    ser == ser_bgra(with_alpha),
                    out@ == before + seq![(count - 1) as u8] + ser_all(row@.subrange(i as int, k as int), ser),
                decreases raw_end - k,
            {
                let ghost mid = out@;
                write_pixel(&row[k], with_alpha, out);
                proof {
                    lemma_ser_all_step(row@, i as int, k as int, ser);
                    assert(out@ =~= before + seq![(count - 1) as u8] + ser_all(row@.subrange(i as int, k + 1), ser));
                }
                k = k + 1;
            }
            i = raw_end;
        }
    }
    assert(out@ + Seq::<u8>::empty() =~= out@);
}

/// Append the on-wire BGR bytes of one RGB pixel.
pub(crate) fn write_pixel3(p: &[u8; 3], out: &mut Vec<u8>)
    ensures
        final(out)@ == old(out)@ + (ser_bgr())(*p),
{
    out.push(p[2]);
    out.push(p[1]);
    out.push(p[0]);
    assert(final(out)@ =~= old(out)@ + (ser_bgr())(*p));
}

/// Run-length packetise a row of RGB pixels, writing BGR on the wire.
pub fn rle_one_row_rgb24(row: &[[u8; 3]], out: &mut Vec<u8>)
    ensures
        final(out)@ == old(out)@ + rle_row(row@, ser_bgr()),
{
    let ghost ser = ser_bgr();
    let ghost whole = old(out)@ + rle_row_from(row@, 0, ser);
    let n = row.len();
    let mut i: usize = 0;
    while i < n
        invariant
            n == row@.len(),
            i <= n,
            ser == ser_bgr(),
            whole == out@ + rle_row_from(row@, i as int, ser),
        decreases n - i,
    {
        let mut run: usize = 1;
        while i + run < n && px3_eq(row[i + run], row[i]) && run < 128
            invariant
                n == row@.len(),
                i < n,
                1 <= run <= 128,
                i + run <= n,
                run_len_from(row@, i as int, 1) == run_len_from(row@, i as int, run as int),
            decreases 128 - run,
        {
            run = run + 1;
        }
        proof {
            lemma_run_len_bounds(row@, i as int, 1);
            lemma_rle_unfold(row@, i as int, ser);
        }
        let ghost before = out@;
        if run >= 2 {
            out.push((128 + run - 1) as u8);
            write_pixel3(&row[i], out);
            assert(out@ =~= before + (seq![(128 + run - 1) as u8] + ser(row@[i as int])));
            i = i + run;
        } else {
            let mut raw_end: usize = i + 1;
            while raw_end < n && raw_end - i < 128 && !(raw_end + 1 < n && px3_eq(row[raw_end + 1], row[raw_end]))
                invariant
                    n == row@.len(),
                    i < raw_end <= n,
                    raw_end - i <= 128,
                    raw_end_from(row@, i as int, i + 1) == raw_end_from(row@, i as int, raw_end as int),
                decreases n - raw_end,
            {
                raw_end = raw_end + 1;
            }
            proof {
                lemma_raw_end_bounds(row@, i as int, i + 1);
            }
            let count = raw_end - i;
            out.push((count - 1) as u8);
            let mut k = i;
            assert(row@.subrange(i as int, i as int) =~= Seq::<[u8; 3]>::empty());
            assert(out@ =~= before + seq![(count - 1) as u8] + ser_all(row@.subrange(i as int, i as int), ser));
            while k < raw_end
                invariant
                    i <= k <= raw_end <= n,
                    n == row@.len(),
                    ser == ser_bgr(),
                    out@ == before + seq![(count - 1) as u8] + ser_all(row@.subrange(i as int, k as int), ser),
                decreases raw_end - k,
            {
                let ghost mid = out@;
                write_pixel3(&row[k], out);
                proof {
                    lemma_ser_all_step(row@, i as int, k as int, ser);
                    assert(out@ =~= before + seq![(count - 1) as u8] + ser_all(row@.subrange(i as int, k + 1), ser));
                }
                k = k + 1;
            }
            i = raw_end;
        }
    }
    assert(out@ + Seq::<u8>::empty() =~= out@);
}

} // verus!
