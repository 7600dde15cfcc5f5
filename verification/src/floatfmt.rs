//! Decimal text for datasheet float cells. A float cell stores the 32-bit
//! pattern of a single-precision value; this module renders it without any
//! floating-point arithmetic, as sign, exact integer part, and the first
//! six fraction digits (truncated). Non-finite patterns render as `NaN`,
//! `inf` and `-inf`.
use vstd::arithmetic::mul::lemma_mul_inequality;
use vstd::arithmetic::power2::{
    lemma2_to64,
    lemma2_to64_rest,
    lemma_pow2_adds,
    lemma_pow2_pos,
    lemma_pow2_strictly_increases,
    pow2,
};
use vstd::prelude::*;

use crate::bytes::{dec_digit, dec_text, u128_text};

verus! {

pub open spec fn pow10(k: nat) -> int
    decreases k,
{
    if k == 0 {
        1
    } else {
        10 * pow10((k - 1) as nat)
    }
}

/// Six decimal digits of `n`, zero-padded on the left.
pub open spec fn pad6(n: int) -> Seq<u8> {
    Seq::new(6, |i: int| dec_digit((n / pow10((5 - i) as nat)) % 10))
}

pub open spec fn nan_text() -> Seq<u8> {
    seq![0x4eu8, 0x61, 0x4e]
}

pub open spec fn inf_text() -> Seq<u8> {
    seq![0x69u8, 0x6e, 0x66]
}

/// The text a float cell renders to, as a function of its bit pattern:
/// sign and exponent and fraction fields are read off the pattern, the
/// value `m * 2^(sh-150)` is rendered as its exact integer part, a dot,
/// and its first six fraction digits, truncated.
pub open spec fn float_text(bits: u32) -> Seq<u8> {
    let sign = bits as int / 0x80000000;
    let expf = (bits as int / 0x800000) % 256;
    let frac = bits as int % 0x800000;
    if expf == 255 {
        if frac != 0 {
            nan_text()
        } else if sign == 1 {
            seq![0x2du8] + inf_text()
        } else {
            inf_text()
        }
    } else {
        let m = if expf == 0 {
            frac
        } else {
            0x800000 + frac
        };
        let sh = if expf == 0 {
            1
        } else {
            expf
        };
        let body = if sh >= 150 {
            dec_text((m * pow2((sh - 150) as nat)) as nat) + seq![0x2eu8] + pad6(0)
        } else {
            dec_text((m / pow2((150 - sh) as nat) as int) as nat) + seq![0x2eu8] + pad6(
                ((m % pow2((150 - sh) as nat) as int) * 1000000) / pow2((150 - sh) as nat) as int,
            )
        };
        if sign == 1 {
            seq![0x2du8] + body
        } else {
            body
        }
    }
}

fn pad6_text(n: u64) -> (r: Vec<u8>)
    requires
        n < 1000000,
    ensures
        r@ == pad6(n as int),
{
    let mut out: Vec<u8> = Vec::new();
    let mut k: usize = 0;
    let mut scale: u64 = 100000;
    proof {
        reveal_with_fuel(pow10, 8);
    }
    while k < 6
        invariant
            k <= 6,
            out@.len() == k,
            n < 1000000,
            k < 6 ==> scale as int == pow10((5 - k) as nat),
            forall|i: int| 0 <= i < k ==> out@[i] == pad6(n as int)[i],
        decreases 6 - k,
    {
        proof {
            lemma_pow10_pos((5 - k) as nat);
        }
        let d: u64 = (n / scale) % 10;
        let ch: u8 = 0x30 + (d as u8);
        assert(ch == dec_digit(d as int));
        out.push(ch);
        if k < 5 {
            proof {
                assert(pow10((5 - k) as nat) == 10 * pow10((4 - k) as nat));
            }
            scale = scale / 10;
        }
        k = k + 1;
    }
    assert(out@ =~= pad6(n as int));
    out
}

proof fn lemma_pow10_pos(k: nat)
    ensures
        pow10(k) >= 1,
    decreases k,
{
    if k > 0 {
        lemma_pow10_pos((k - 1) as nat);
    }
}

/// Doubles `m` `e` times: the exact integer value of a float whose
/// significand is `m` and whose binary exponent is `e`.
fn shift_up(m: u64, e: u32) -> (r: u128)
    requires
        m < 0x1000000,
        e <= 104,
    ensures
        r as int == m as int * pow2(e as nat),
{
    let mut ip: u128 = m as u128;
    let mut i: u32 = 0;
    proof {
        lemma2_to64();
        assert(ip as int == m as int * pow2(0));
    }
    while i < e
        invariant
            i <= e <= 104,
            m < 0x1000000,
            ip as int == m as int * pow2(i as nat),
        decreases e - i,
    {
        let ghost ipo = ip as int;
        proof {
            lemma_pow2_pos(i as nat);
            lemma_mul_inequality(m as int, 0xffffff, pow2(i as nat) as int);
            assert(pow2(i as nat) <= pow2(103)) by {
                if (i as nat) < 103 {
                    lemma_pow2_strictly_increases(i as nat, 103);
                }
            }
            assert(pow2(103) == 0x80000000000000000000000000) by {
                lemma_pow2_adds(64, 39);
                lemma2_to64();
                lemma2_to64_rest();
            }
            assert(ipo <= 0xffffff * 0x80000000000000000000000000);
        }
        ip = ip * 2;
        proof {
            assert(pow2((i + 1) as nat) == 2 * pow2(i as nat)) by {
                lemma_pow2_adds(i as nat, 1);
                lemma2_to64();
            }
            assert(m as int * pow2((i + 1) as nat) == 2 * (m as int * pow2(i as nat)))
                by (nonlinear_arith)
                requires
                    pow2((i + 1) as nat) == 2 * pow2(i as nat),
            ;
            assert(ip as int == m as int * pow2((i + 1) as nat));
        }
        i = i + 1;
    }
    ip
}

/// Computes two to the power `s` exactly.
fn pow2_u64(s: u32) -> (r: u64)
    requires
        s <= 43,
    ensures
        r as int == pow2(s as nat),
        r >= 1,
{
    let mut p: u64 = 1;
    let mut i: u32 = 0;
    proof {
        lemma2_to64();
    }
    while i < s
        invariant
            i <= s <= 43,
            p as int == pow2(i as nat),
        decreases s - i,
    {
        proof {
            assert(pow2(i as nat) < pow2(43)) by {
                lemma_pow2_strictly_increases(i as nat, 43);
            }
            lemma2_to64_rest();
            lemma_pow2_adds(i as nat, 1);
            lemma2_to64();
        }
        p = p * 2;
        i = i + 1;
    }
    proof {
        lemma_pow2_pos(s as nat);
    }
    p
}

/// Renders a float cell's 32-bit pattern as decimal text.
pub fn float_cell_text(bits: u32) -> (r: Vec<u8>)
    ensures
        r@ == float_text(bits),
{
    let sign: u32 = bits / 0x80000000;
    let expf: u32 = (bits / 0x800000) % 256;
    let frac: u32 = bits % 0x800000;
    if expf == 255 {
        if frac != 0 {
            let mut out: Vec<u8> = Vec::new();
            out.push(0x4e);
            out.push(0x61);
            out.push(0x4e);
            assert(out@ =~= nan_text());
            return out;
        }
        let mut out: Vec<u8> = Vec::new();
        if sign == 1 {
            out.push(0x2d);
        }
        out.push(0x69);
        out.push(0x6e);
        out.push(0x66);
        proof {
            if sign == 1 {
                assert(out@ =~= seq![0x2du8] + inf_text());
            } else {
                assert(out@ =~= inf_text());
            }
        }
        return out;
    }
    let m: u64 = if expf == 0 {
        frac as u64
    } else {
        0x800000 + (frac as u64)
    };
    let sh: u32 = if expf == 0 {
        1
    } else {
        expf
    };
    let mut out: Vec<u8> = Vec::new();
    if sign == 1 {
        out.push(0x2d);
    }
    let ghost out0 = out@;
    if sh >= 150 {
        let ip = shift_up(m, sh - 150);
        let digits = u128_text(ip);
        crate::bytes::push_bytes(&mut out, digits.as_slice());
        out.push(0x2e);
        let padded = pad6_text(0);
        crate::bytes::push_bytes(&mut out, padded.as_slice());
        proof {
            assert(out@ =~= out0 + (dec_text((m as int * pow2((sh - 150) as nat)) as nat)
                + seq![0x2eu8] + pad6(0)));
        }
    } else {
        let s: u32 = 150 - sh;
        if s >= 44 {
            proof {
                assert(pow2(24) <= pow2(s as nat)) by {
                    lemma_pow2_strictly_increases(24, s as nat);
                }
                lemma2_to64();
                assert(m < pow2(s as nat));
                assert(m as int / pow2(s as nat) as int == 0) by {
                    lemma_pow2_pos(s as nat);
                    vstd::arithmetic::div_mod::lemma_basic_div(m as int, pow2(s as nat) as int);
                }
                assert(m as int % pow2(s as nat) as int == m as int) by {
                    vstd::arithmetic::div_mod::lemma_small_mod(m as nat, pow2(s as nat));
                }
                assert(m as int * 1000000 < pow2(44)) by {
                    lemma2_to64_rest();
                }
                assert(pow2(44) <= pow2(s as nat)) by {
                    if 44 < s {
                        lemma_pow2_strictly_increases(44, s as nat);
                    }
                }
                assert((m as int * 1000000) / pow2(s as nat) as int == 0) by {
                    lemma_pow2_pos(s as nat);
                    vstd::arithmetic::div_mod::lemma_basic_div(
                        m as int * 1000000,
                        pow2(s as nat) as int,
                    );
                }
            }
            out.push(0x30);
            out.push(0x2e);
            let padded = pad6_text(0);
            crate::bytes::push_bytes(&mut out, padded.as_slice());
            proof {
                assert(dec_text(0) =~= seq![0x30u8]);
                assert(out@ =~= out0 + (dec_text(0) + seq![0x2eu8] + pad6(0)));
            }
        } else {
            let p = pow2_u64(s);
            let ip: u64 = m / p;
            let f: u64 = m % p;
            proof {
                assert(pow2(s as nat) < pow2(44)) by {
                    lemma_pow2_strictly_increases(s as nat, 44);
                }
                lemma2_to64_rest();
                assert(f < 0x100000000000);
            }
            let frac6: u64 = (f * 1000000) / p;
            proof {
                lemma_pow2_pos(s as nat);
                assert(f as int * 1000000 < p as int * 1000000);
                vstd::arithmetic::div_mod::lemma_multiply_divide_lt(
                    f as int * 1000000,
                    p as int,
                    1000000,
                );
                assert(frac6 < 1000000);
            }
            let digits = u128_text(ip as u128);
            crate::bytes::push_bytes(&mut out, digits.as_slice());
            out.push(0x2e);
            let padded = pad6_text(frac6);
            crate::bytes::push_bytes(&mut out, padded.as_slice());
            proof {
                assert(out@ =~= out0 + (dec_text((m as int / pow2(s as nat) as int) as nat)
                    + seq![0x2eu8] + pad6(((m as int % pow2(s as nat) as int) * 1000000) / pow2(
                    s as nat,
                ) as int)));
            }
        }
    }
    proof {
        if sign == 1 {
            assert(out0 =~= seq![0x2du8]);
        } else {
            assert(out0 =~= Seq::<u8>::empty());
        }
        assert(out@ =~= float_text(bits));
    }
    out
}

} // verus!
