//! Zero-padded decimal rendering used by the timestamp and job-time
//! formatters.
use vstd::prelude::*;

verus! {

/// The character of a decimal digit.
pub open spec fn digit_char(d: nat) -> char {
    if d == 0 {
        '0'
    } else if d == 1 {
        '1'
    } else if d == 2 {
        '2'
    } else if d == 3 {
        '3'
    } else if d == 4 {
        '4'
    } else if d == 5 {
        '5'
    } else if d == 6 {
        '6'
    } else if d == 7 {
        '7'
    } else if d == 8 {
        '8'
    } else {
        '9'
    }
}

/// The shortest decimal rendering of `v` (no leading zeros; `"0"` for 0).
pub open spec fn dec_chars(v: nat) -> Seq<char>
    decreases v,
{
    if v < 10 {
        seq![digit_char(v)]
    } else {
        dec_chars(v / 10) + seq![digit_char(v % 10)]
    }
}

/// `v` in decimal, left-padded with `'0'` to at least `width` characters.
pub open spec fn padded_dec(v: nat, width: nat) -> Seq<char> {
    let d = dec_chars(v);
    if d.len() >= width {
        d
    } else {
        Seq::new((width - d.len()) as nat, |i: int| '0') + d
    }
}

/// Number of decimal digits of `v`.
pub open spec fn dec_len(v: nat) -> nat
    decreases v,
{
    if v < 10 {
        1
    } else {
        dec_len(v / 10) + 1
    }
}

proof fn lemma_dec_len(v: nat)
    ensures
        dec_chars(v).len() == dec_len(v),
        dec_len(v) >= 1,
    decreases v,
{
    if v >= 10 {
        lemma_dec_len(v / 10);
    }
}

/// Append one decimal digit.
fn push_digit(s: &mut String, d: u32)
    requires
        d < 10,
    ensures
        final(s)@ == old(s)@ + seq![digit_char(d as nat)],
{
    proof {
        reveal_strlit("0");
        reveal_strlit("1");
        reveal_strlit("2");
        reveal_strlit("3");
        reveal_strlit("4");
        reveal_strlit("5");
        reveal_strlit("6");
        reveal_strlit("7");
        reveal_strlit("8");
        reveal_strlit("9");
    }
    if d == 0 {
        s.append("0");
    } else if d == 1 {
        s.append("1");
    } else if d == 2 {
        s.append("2");
    } else if d == 3 {
        s.append("3");
    } else if d == 4 {
        s.append("4");
    } else if d == 5 {
        s.append("5");
    } else if d == 6 {
        s.append("6");
    } else if d == 7 {
        s.append("7");
    } else if d == 8 {
        s.append("8");
    } else {
        s.append("9");
    }
}

/// Append the shortest decimal rendering of `v`.
fn push_dec(s: &mut String, v: u32)
    ensures
        final(s)@ == old(s)@ + dec_chars(v as nat),
    decreases v,
{
    if v >= 10 {
        push_dec(s, v / 10);
    }
    push_digit(s, v % 10);
    assert(final(s)@ =~= old(s)@ + dec_chars(v as nat));
}

/// Append the shortest decimal rendering of a 64-bit `v`.
fn push_dec_u64(s: &mut String, v: u64)
    ensures
        final(s)@ == old(s)@ + dec_chars(v as nat),
    decreases v,
{
    if v >= 10 {
        push_dec_u64(s, v / 10);
    }
    push_digit(s, (v % 10) as u32);
    assert(final(s)@ =~= old(s)@ + dec_chars(v as nat));
}

/// Append the text `lit` and then a 64-bit `v` in decimal.
pub fn push_str_dec_u64(s: &mut String, lit: &str, v: u64)
    ensures
        final(s)@ == old(s)@ + lit@ + dec_chars(v as nat),
{
    s.append(lit);
    push_dec_u64(s, v);
}

/// Number of decimal digits of `v`.
fn count_digits(v: u32) -> (n: u32)
    ensures
        n == dec_len(v as nat),
        n <= 10,
    decreases v,
{
    if v < 10 {
        1
    } else {
        let k = count_digits(v / 10);
        assert(k <= 9) by {
            assert(pow10(9) == 1000000000) by {
                reveal_with_fuel(pow10, 10);
            }
            lemma_dec_len_le((v / 10) as nat, 9);
        }
        k + 1
    }
}

/// Ten to the power `k`.
spec fn pow10(k: nat) -> nat
    decreases k,
{
    if k == 0 {
        1
    } else {
        10 * pow10((k - 1) as nat)
    }
}

proof fn lemma_dec_len_le(v: nat, k: nat)
    requires
        k >= 1,
        v < pow10(k),
    ensures
        dec_len(v) <= k,
    decreases k,
{
    if v >= 10 {
        if k == 1 {
            assert(pow10(1) == 10) by {
                reveal_with_fuel(pow10, 2);
            }
        } else {
            assert(v / 10 < pow10((k - 1) as nat));
            lemma_dec_len_le(v / 10, (k - 1) as nat);
        }
    }
}

/// Append `v` in decimal, zero-padded to at least `width` characters.
pub fn push_padded(s: &mut String, v: u32, width: u32)
    ensures
        final(s)@ == old(s)@ + padded_dec(v as nat, width as nat),
{
    let n = count_digits(v);
    proof {
        lemma_dec_len(v as nat);
    }
    let ghost s0 = s@;
    if n < width {
        let pad = width - n;
        let mut k: u32 = 0;
        while k < pad
            invariant
                k <= pad,
                s@ == s0 + Seq::new(k as nat, |i: int| '0'),
            decreases pad - k,
        {
            push_digit(s, 0);
            k = k + 1;
            assert(s@ =~= s0 + Seq::new(k as nat, |i: int| '0'));
        }
    }
    push_dec(s, v);
    assert(s@ =~= s0 + padded_dec(v as nat, width as nat));
}


/// Append the text `lit` and then `v` in decimal.
pub fn push_str_dec(s: &mut String, lit: &str, v: u32)
    ensures
        final(s)@ == old(s)@ + lit@ + dec_chars(v as nat),
{
    s.append(lit);
    push_dec(s, v);
}

/// `a`, then `v` in decimal, then `b`.
pub fn str_dec_str(a: &str, v: u32, b: &str) -> (s: String)
    ensures
        s@ == a@ + dec_chars(v as nat) + b@,
{
    let mut s = String::new();
    push_str_dec(&mut s, a, v);
    s.append(b);
    assert(Seq::<char>::empty() + a@ =~= a@);
    s
}

} // verus!
