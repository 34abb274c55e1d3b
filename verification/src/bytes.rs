//! Byte-level helpers shared by the frame codec and the payload parser:
//! ASCII classification, whitespace trimming, and decimal rendering and
//! parsing of the numbers that appear on the wire.

use vstd::prelude::*;

verus! {

/// ASCII decimal digit.
pub open spec fn is_digit(b: u8) -> bool {
    48 <= b && b <= 57
}

/// Numeric value of a decimal digit byte.
pub open spec fn digit_val(b: u8) -> nat
    recommends
        is_digit(b),
{
    (b - 48) as nat
}

/// The decimal rendering of `n`, most significant digit first.
pub open spec fn dec_seq(n: nat) -> Seq<u8>
    decreases n,
{
    if n < 10 {
        seq![(48 + n) as u8]
    } else {
        dec_seq(n / 10).push((48 + n % 10) as u8)
    }
}

/// Value of a digit sequence read as a decimal number.
pub open spec fn digits_val(s: Seq<u8>) -> nat
    decreases s.len(),
{
    if s.len() == 0 {
        0
    } else {
        digits_val(s.drop_last()) * 10 + digit_val(s.last())
    }
}

/// All bytes of `s` are decimal digits.
pub open spec fn all_digits(s: Seq<u8>) -> bool {
    forall|i: int| 0 <= i < s.len() ==> is_digit(#[trigger] s[i])
}

/// Rendering a number yields digits whose value is the number again.
pub proof fn lemma_dec_seq_val(n: nat)
    ensures
        dec_seq(n).len() >= 1,
        all_digits(dec_seq(n)),
        digits_val(dec_seq(n)) == n,
    decreases n,
{
    if n < 10 {
        assert(dec_seq(n) =~= seq![(48 + n) as u8]);
        assert(digits_val(dec_seq(n).drop_last()) == 0);
    } else {
        lemma_dec_seq_val(n / 10);
        assert(dec_seq(n).drop_last() =~= dec_seq(n / 10));
    }
}

/// Value of the digit window `[lo, hi)` of `s` read as a decimal number.
pub open spec fn win_val(s: Seq<u8>, lo: int, hi: int) -> nat
    decreases hi - lo,
{
    if hi <= lo {
        0
    } else {
        win_val(s, lo, hi - 1) * 10 + digit_val(s[hi - 1])
    }
}

/// A digit window carries the same value as the sequence it spells.
pub proof fn lemma_win_val_eq(s: Seq<u8>, lo: int, hi: int, t: Seq<u8>)
    requires
        0 <= lo <= hi <= s.len(),
        s.subrange(lo, hi) == t,
    ensures
        win_val(s, lo, hi) == digits_val(t),
    decreases hi - lo,
{
    if hi <= lo {
    } else {
        assert(s.subrange(lo, hi - 1) =~= t.drop_last());
        lemma_win_val_eq(s, lo, hi - 1, t.drop_last());
        assert(s[hi - 1] == t.last());
    }
}

/// Extending a digit window never shrinks its value.
pub proof fn lemma_win_val_mono(s: Seq<u8>, lo: int, mid: int, hi: int)
    requires
        lo <= mid <= hi,
    ensures
        win_val(s, lo, mid) <= win_val(s, lo, hi),
    decreases hi - mid,
{
    if mid < hi {
        lemma_win_val_mono(s, lo, mid, hi - 1);
    }
}

/// ASCII upper-case letters folded to lower case; other bytes unchanged.
pub open spec fn to_lower(b: u8) -> u8 {
    if 65 <= b && b <= 90 {  // 'A'..='Z'
        (b + 32) as u8
    } else {
        b
    }
}

/// Executable case fold matching `to_lower`.
pub fn lower_byte(b: u8) -> (r: u8)
    ensures
        r == to_lower(b),
{
    if 65 <= b && b <= 90 {
        b + 32
    } else {
        b
    }
}

/// Horizontal whitespace inside a header line: space, tab, carriage return.
pub open spec fn is_line_ws(b: u8) -> bool {
    b == 32 || b == 9 || b == 13
}

/// Appends `src` to `dst`.
pub fn push_bytes(dst: &mut Vec<u8>, src: &[u8])
    ensures
        final(dst)@ == old(dst)@ + src@,
{
    let mut i: usize = 0;
    while i < src.len()
        invariant
            i <= src.len(),
            dst@ == old(dst)@ + src@.take(i as int),
        decreases src.len() - i,
    {
        dst.push(src[i]);
        i = i + 1;
        assert(dst@ =~= old(dst)@ + src@.take(i as int));
    }
    assert(dst@ =~= old(dst)@ + src@);
}

/// Renders `n` in decimal.
pub fn u64_to_dec(n: u64) -> (r: Vec<u8>)
    ensures
        r@ == dec_seq(n as nat),
    decreases n,
{
    if n < 10 {
        let mut v: Vec<u8> = Vec::new();
        v.push(48 + (n as u8));
        proof {
            assert(v@ =~= dec_seq(n as nat));
        }
        v
    } else {
        let mut v = u64_to_dec(n / 10);
        v.push(48 + ((n % 10) as u8));
        proof {
            assert(v@ =~= dec_seq(n as nat));
        }
        v
    }
}

/// The decimal rendering of a signed number: a minus sign for negative
/// values, then the digits of the magnitude.
pub open spec fn int_dec_seq(i: int) -> Seq<u8> {
    if i < 0 {
        seq![45u8] + dec_seq((-i) as nat)  // '-'
    } else {
        dec_seq(i as nat)
    }
}

/// Renders `i` in decimal, with a leading minus sign when negative.
pub fn i64_to_dec(i: i64) -> (r: Vec<u8>)
    ensures
        r@ == int_dec_seq(i as int),
{
    if i >= 0 {
        let r = u64_to_dec(i as u64);
        r
    } else {
        let mut v: Vec<u8> = Vec::new();
        v.push(45);  // '-'
        let mag: u64 = if i == i64::MIN {
            9223372036854775808u64
        } else {
            (-i) as u64
        };
        assert(mag as nat == (-(i as int)) as nat);
        let d = u64_to_dec(mag);
        push_bytes(&mut v, d.as_slice());
        proof {
            assert(v@ =~= int_dec_seq(i as int));
        }
        v
    }
}

} // verus!
