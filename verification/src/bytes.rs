//! Byte-level helpers shared by the codec layer, the classifier and the
//! format decoders: little-endian reads, decimal and hexadecimal text,
//! prefix and suffix tests on byte strings.
use vstd::prelude::*;

verus! {

/// Value of the four little-endian bytes of `s` starting at `i`.
pub open spec fn le32_at(s: Seq<u8>, i: int) -> int
    recommends
        0 <= i,
        i + 4 <= s.len(),
{
    (s[i] as int) + 256 * (s[i + 1] as int) + 65536 * (s[i + 2] as int) + 16777216 * (s[i + 3]
        as int)
}

pub fn read_le32(s: &[u8], i: usize) -> (r: u32)
    requires
        i + 4 <= s@.len(),
    ensures
        r as int == le32_at(s@, i as int),
{
    let b0 = s[i] as u32;
    let b1 = s[i + 1] as u32;
    let b2 = s[i + 2] as u32;
    let b3 = s[i + 3] as u32;
    b0 + 256 * b1 + 65536 * b2 + 16777216 * b3
}

/// `s` begins with `p`.
pub open spec fn has_prefix(s: Seq<u8>, p: Seq<u8>) -> bool {
    p.len() <= s.len() && s.take(p.len() as int) == p
}

/// `s` ends with `suf`.
pub open spec fn has_suffix(s: Seq<u8>, suf: Seq<u8>) -> bool {
    suf.len() <= s.len() && s.skip(s.len() - suf.len()) == suf
}

pub fn starts_with_bytes(s: &[u8], p: &[u8]) -> (r: bool)
    ensures
        r == has_prefix(s@, p@),
{
    if p.len() > s.len() {
        assert(!has_prefix(s@, p@));
        return false;
    }
    let mut i: usize = 0;
    while i < p.len()
        invariant
            i <= p@.len() <= s@.len(),
            forall|k: int| 0 <= k < i ==> s@[k] == p@[k],
        decreases p@.len() - i,
    {
        if s[i] != p[i] {
            assert(s@.take(p@.len() as int)[i as int] != p@[i as int]);
            return false;
        }
        i = i + 1;
    }
    assert(s@.take(p@.len() as int) =~= p@);
    true
}

pub fn ends_with_bytes(s: &[u8], suf: &[u8]) -> (r: bool)
    ensures
        r == has_suffix(s@, suf@),
{
    if suf.len() > s.len() {
        assert(!has_suffix(s@, suf@));
        return false;
    }
    let slen: usize = s.len();
    let base = slen - suf.len();
    let mut i: usize = 0;
    while i < suf.len()
        invariant
            i <= suf@.len() <= s@.len(),
            slen == s@.len(),
            base == s@.len() - suf@.len(),
            forall|k: int| 0 <= k < i ==> s@[base + k] == suf@[k],
        decreases suf@.len() - i,
    {
        if s[base + i] != suf[i] {
            assert(s@.skip(s@.len() - suf@.len())[i as int] != suf@[i as int]);
            return false;
        }
        i = i + 1;
    }
    assert(s@.skip(s@.len() - suf@.len()) =~= suf@);
    true
}

/// Appends all of `s` to `out`.
pub fn push_bytes(out: &mut Vec<u8>, s: &[u8])
    ensures
        final(out)@ == old(out)@ + s@,
{
    let mut i: usize = 0;
    while i < s.len()
        invariant
            i <= s@.len(),
            out@ == old(out)@ + s@.take(i as int),
        decreases s@.len() - i,
    {
        out.push(s[i]);
        assert(old(out)@ + s@.take(i as int) + seq![s@[i as int]] =~= old(out)@ + s@.take(
            i as int + 1,
        ));
        i = i + 1;
    }
    assert(out@ =~= old(out)@ + s@);
}

// ---- decimal text ----

pub open spec fn dec_digit(d: int) -> u8
    recommends
        0 <= d < 10,
{
    (0x30 + d) as u8
}

/// Decimal text of a natural number, most significant digit first.
pub open spec fn dec_text(n: nat) -> Seq<u8>
    decreases n,
{
    if n < 10 {
        seq![dec_digit(n as int)]
    } else {
        dec_text(n / 10).push(dec_digit((n % 10) as int))
    }
}

pub fn u128_text(n: u128) -> (r: Vec<u8>)
    ensures
        r@ == dec_text(n as nat),
{
    let mut m: u128 = n;
    let mut out: Vec<u8> = Vec::new();
    while m >= 10
        invariant
            dec_text(n as nat) == dec_text(m as nat) + out@,
        decreases m,
    {
        let d: u8 = 0x30 + ((m % 10) as u8);
        let ghost o0 = out@;
        out.insert(0, d);
        proof {
            assert(d == dec_digit(((m as nat) % 10) as int));
            assert(dec_text(m as nat) == dec_text((m as nat) / 10).push(d));
            assert(out@ =~= seq![d] + o0);
            assert(dec_text((m as nat) / 10) + (seq![d] + o0) =~= dec_text((m as nat) / 10).push(d)
                + o0);
        }
        m = m / 10;
    }
    let d: u8 = 0x30 + (m as u8);
    let ghost o0 = out@;
    out.insert(0, d);
    proof {
        assert(d == dec_digit(m as int));
        assert(dec_text(m as nat) =~= seq![d]);
        assert(out@ =~= seq![d] + o0);
        assert(out@ =~= dec_text(m as nat) + o0);
    }
    out
}

/// Decimal text of a signed value, with a leading minus sign when negative.
pub open spec fn int_text(v: int) -> Seq<u8> {
    if v < 0 {
        seq![0x2du8] + dec_text((-v) as nat)
    } else {
        dec_text(v as nat)
    }
}

pub fn i64_text(v: i64) -> (r: Vec<u8>)
    ensures
        r@ == int_text(v as int),
{
    if v < 0 {
        let mag: u128 = (-(v as i128)) as u128;
        let mut out: Vec<u8> = Vec::new();
        out.push(0x2d);
        let digits = u128_text(mag);
        push_bytes(&mut out, digits.as_slice());
        assert(out@ =~= int_text(v as int));
        out
    } else {
        u128_text(v as u128)
    }
}

// ---- hexadecimal text ----

pub open spec fn pow16(k: nat) -> int
    decreases k,
{
    if k == 0 {
        1
    } else {
        16 * pow16((k - 1) as nat)
    }
}

pub open spec fn hex_digit(d: int) -> u8
    recommends
        0 <= d < 16,
{
    if d < 10 {
        (0x30 + d) as u8
    } else {
        (0x61 + (d - 10)) as u8
    }
}

/// Eight lowercase hex digits of a 32-bit value, most significant first.
pub open spec fn hex32(h: u32) -> Seq<u8> {
    Seq::new(8, |i: int| hex_digit((h as int / pow16((7 - i) as nat)) % 16))
}

pub fn hex32_text(h: u32) -> (r: Vec<u8>)
    ensures
        r@ == hex32(h),
{
    let mut out: Vec<u8> = Vec::new();
    let mut k: usize = 0;
    let mut scale: u32 = 0x10000000;
    proof {
        reveal_with_fuel(pow16, 9);
    }
    while k < 8
        invariant
            k <= 8,
            out@.len() == k,
            k < 8 ==> scale as int == pow16((7 - k) as nat),
            forall|i: int| 0 <= i < k ==> out@[i] == hex32(h)[i],
        decreases 8 - k,
    {
        proof {
            lemma_pow16_pos((7 - k) as nat);
        }
        let d: u32 = (h / scale) % 16;
        let ch: u8 = if d < 10 {
            0x30 + (d as u8)
        } else {
            0x61 + ((d - 10) as u8)
        };
        assert(ch == hex_digit(d as int));
        out.push(ch);
        if k < 7 {
            proof {
                assert(pow16((7 - k) as nat) == 16 * pow16((6 - k) as nat));
            }
            scale = scale / 16;
        }
        k = k + 1;
    }
    assert(out@ =~= hex32(h));
    out
}

pub proof fn lemma_pow16_pos(k: nat)
    ensures
        pow16(k) >= 1,
    decreases k,
{
    if k > 0 {
        lemma_pow16_pos((k - 1) as nat);
    }
}

} // verus!
