//! Wire formats of the sandbox boundary: decimal rendering of monetary
//! values, the JSON shapes of candles, orders and signals, the
//! length-prefixed framing of the bytecode ABI, and base64 decoding of
//! uploaded strategy sources.
//!
//! Every format is pinned by a spec function over byte sequences; the
//! executable encoders meet their spec exactly, and the decoders accept a
//! byte sequence only when it is the exact rendering of the value they
//! return.

use vstd::prelude::*;
use vstd::string::StringSliceAdditionalSpecFns;
use crate::money::{Money, MONEY_SCALE, COST_MAX_RAW};
use crate::orders::{Order, OrderDirection, OrderStatus, OrderId, AccountId};
use crate::market::Candle;
use crate::signals::{Signal, SignalKind};
use vstd::utf8::encode_utf8;

verus! {

/// ASCII digit.
pub open spec fn is_digit_byte(b: u8) -> bool {
    48 <= b <= 57
}

/// All bytes are ASCII digits.
pub open spec fn all_digit_bytes(s: Seq<u8>) -> bool {
    forall|i: int| 0 <= i < s.len() ==> is_digit_byte(#[trigger] s[i])
}

/// Numeric value of a digit string, most significant first.
pub open spec fn digits_value(s: Seq<u8>) -> int
    decreases s.len(),
{
    if s.len() == 0 {
        0
    } else {
        digits_value(s.drop_last()) * 10 + (s.last() - 48)
    }
}

/// Ten to the `k`.
pub open spec fn pow10(k: nat) -> int
    decreases k,
{
    if k == 0 {
        1
    } else {
        10 * pow10((k - 1) as nat)
    }
}

/// Canonical decimal digits of a non-negative integer: no leading zero,
/// at least one digit.
pub open spec fn spec_digits(n: int) -> Seq<u8>
    decreases n,
{
    if n < 10 {
        seq![(48 + if n >= 0 { n } else { 0 }) as u8]
    } else {
        spec_digits(n / 10).push((48 + n % 10) as u8)
    }
}

/// Reading the canonical digits of `n` yields `n` back, the digits are
/// digits, and there is no leading zero.
pub proof fn lemma_spec_digits(n: int)
    requires
        0 <= n,
    ensures
        digits_value(spec_digits(n)) == n,
        all_digit_bytes(spec_digits(n)),
        spec_digits(n).len() >= 1,
        n >= 10 ==> spec_digits(n).first() != 48,
        n < 10 ==> spec_digits(n) =~= seq![(48 + n) as u8],
        spec_digits(n).first() == 48 <==> n == 0,
    decreases n,
{
    reveal_with_fuel(digits_value, 3);
    reveal_with_fuel(spec_digits, 3);
    if n < 10 {
        assert(spec_digits(n) =~= seq![(48 + n) as u8]);
        assert(spec_digits(n).drop_last() =~= Seq::<u8>::empty());
    } else {
        lemma_spec_digits(n / 10);
        let s = spec_digits(n / 10).push((48 + n % 10) as u8);
        assert(s.drop_last() =~= spec_digits(n / 10));
        assert(s.first() == spec_digits(n / 10).first());
    }
}

/// The value of a digit string is below ten to its length.
pub proof fn lemma_digits_value_bound(s: Seq<u8>)
    requires
        all_digit_bytes(s),
    ensures
        0 <= digits_value(s) < pow10(s.len()),
    decreases s.len(),
{
    if s.len() > 0 {
        assert(all_digit_bytes(s.drop_last())) by {
            assert(forall|i: int| 0 <= i < s.len() - 1 ==> s.drop_last()[i] == s[i]);
        }
        lemma_digits_value_bound(s.drop_last());
    }
}

/// Render a non-negative integer in canonical decimal.
pub fn fmt_u128(n: u128) -> (r: Vec<u8>)
    ensures
        r@ == spec_digits(n as int),
    decreases n,
{
    if n < 10 {
        let mut out: Vec<u8> = Vec::new();
        out.push(48 + (n as u8));
        proof {
            assert(out@ =~= spec_digits(n as int));
        }
        out
    } else {
        let mut out = fmt_u128(n / 10);
        out.push(48 + ((n % 10) as u8));
        out
    }
}

/// Parse a canonical decimal digit string of at most 38 digits.
pub fn parse_u128_digits(s: &[u8], start: usize, end: usize) -> (r: Option<u128>)
    requires
        start <= end <= s@.len(),
    ensures
        match r {
            Some(v) => {
                &&& all_digit_bytes(s@.subrange(start as int, end as int))
                &&& end - start >= 1
                &&& v == digits_value(s@.subrange(start as int, end as int))
            },
            None => !(1 <= end - start <= 38 && all_digit_bytes(
                s@.subrange(start as int, end as int),
            )),
        },
{
    if start == end || end - start > 38 {
        return None;
    }
    let ghost whole = s@.subrange(start as int, end as int);
    proof {
        lemma_pow10_mono(0, 38);
        assert(s@.subrange(start as int, start as int) =~= Seq::<u8>::empty());
    }
    let mut acc: u128 = 0;
    let mut i: usize = start;
    while i < end
        invariant
            start <= i <= end <= s@.len(),
            end - start <= 38,
            all_digit_bytes(s@.subrange(start as int, i as int)),
            acc == digits_value(s@.subrange(start as int, i as int)),
            acc < pow10((i - start) as nat),
            pow10((i - start) as nat) <= pow10(38),
        decreases end - i,
    {
        let b = s[i];
        if b < 48 || b > 57 {
            proof {
                assert(!is_digit_byte(s@.subrange(start as int, end as int)[i - start]));
            }
            return None;
        }
        proof {
            let pre = s@.subrange(start as int, i as int);
            let cur = s@.subrange(start as int, i as int + 1);
            assert(cur.drop_last() =~= pre);
            assert(cur.last() == s@[i as int]);
            lemma_digits_value_bound(cur);
            lemma_pow10_mono((i + 1 - start) as nat, 38);
            lemma_pow10_38();
        }
        acc = acc * 10 + ((b - 48) as u128);
        i += 1;
    }
    Some(acc)
}

/// The 38-digit bound used by the parser: ten to the 38 is far above any
/// representable fixed-point magnitude yet still fits the accumulator.
pub proof fn lemma_pow10_38()
    ensures
        pow10(38) == 0x4B3B4CA85A86C47A098A224000000000,
{
    reveal_with_fuel(pow10, 40);
}

/// `pow10` is monotone.
pub proof fn lemma_pow10_mono(a: nat, b: nat)
    requires
        a <= b,
    ensures
        pow10(a) <= pow10(b),
        pow10(a) >= 1,
    decreases b,
{
    if a < b {
        lemma_pow10_mono(a, (b - 1) as nat);
    } else if b > 0 {
        lemma_pow10_mono((a - 1) as nat, (b - 1) as nat);
    }
}

/// The four fraction digits of `fp` (zero-padded), trailing zeros
/// removed.
pub open spec fn spec_frac_digits(fp: int) -> Seq<u8> {
    trim_trailing_zeros(
        seq![
            (48 + fp / 1000) as u8,
            (48 + (fp / 100) % 10) as u8,
            (48 + (fp / 10) % 10) as u8,
            (48 + fp % 10) as u8,
        ],
    )
}

/// Drop trailing ASCII zeros.
pub open spec fn trim_trailing_zeros(s: Seq<u8>) -> Seq<u8>
    decreases s.len(),
{
    if s.len() > 0 && s.last() == 48 {
        trim_trailing_zeros(s.drop_last())
    } else {
        s
    }
}

/// Canonical decimal rendering of a raw fixed-point value: optional
/// minus sign, integer part, and a dot with the non-zero fraction digits.
pub open spec fn spec_money_bytes(v: int) -> Seq<u8> {
    if v < 0 {
        seq![45u8] + spec_money_bytes_nonneg(-v)
    } else {
        spec_money_bytes_nonneg(v)
    }
}

pub open spec fn spec_money_bytes_nonneg(v: int) -> Seq<u8> {
    let ip = v / (MONEY_SCALE as int);
    let fp = v % (MONEY_SCALE as int);
    if fp == 0 {
        spec_digits(ip)
    } else {
        spec_digits(ip) + seq![46u8] + spec_frac_digits(fp)
    }
}

/// Render a monetary value in canonical decimal.
pub fn money_to_bytes(m: Money) -> (r: Vec<u8>)
    requires
        -100 * (COST_MAX_RAW as int) <= m@ <= 100 * (COST_MAX_RAW as int),
    ensures
        r@ == spec_money_bytes(m@),
{
    let neg = m.raw < 0;
    let mag: u128 = if m.raw < 0 {
        (-m.raw) as u128
    } else {
        m.raw as u128
    };
    let ip = mag / (MONEY_SCALE as u128);
    let fp = mag % (MONEY_SCALE as u128);
    let mut out: Vec<u8> = Vec::new();
    if neg {
        out.push(45);
    }
    let mut digits = fmt_u128(ip);
    out.append(&mut digits);
    if fp > 0 {
        out.push(46);
        let d0 = (fp / 1000) as u8;
        let d1 = ((fp / 100) % 10) as u8;
        let d2 = ((fp / 10) % 10) as u8;
        let d3 = (fp % 10) as u8;
        let mut frac: Vec<u8> = Vec::new();
        frac.push(48 + d0);
        frac.push(48 + d1);
        frac.push(48 + d2);
        frac.push(48 + d3);
        if d3 == 0 {
            let _ = frac.pop();
            if d2 == 0 {
                let _ = frac.pop();
                if d1 == 0 {
                    let _ = frac.pop();
                }
            }
        }
        proof {
            let full = seq![
                (48 + (mag as int % 10000) / 1000) as u8,
                (48 + ((mag as int % 10000) / 100) % 10) as u8,
                (48 + ((mag as int % 10000) / 10) % 10) as u8,
                (48 + (mag as int % 10000) % 10) as u8,
            ];
            lemma_frac_digit_parts(mag as int % 10000);
            lemma_fp_decomp(mag as int % 10000);
            assert(spec_frac_digits(mag as int % 10000) =~= trim_trailing_zeros(full));
            assert(frac@ =~= trim_trailing_zeros(full)) by {
                reveal_trim(full);
            }
        }
        out.append(&mut frac);
        proof {
            assert(out@ =~= spec_money_bytes(m@));
        }
    } else {
        proof {
            assert(out@ =~= spec_money_bytes(m@));
        }
    }
    out
}

/// Helper: the digit decomposition of a four-digit fraction.
proof fn lemma_frac_digit_parts(fp: int)
    requires
        0 <= fp < 10000,
    ensures
        0 <= fp / 1000 <= 9,
        0 <= (fp / 100) % 10 <= 9,
        0 <= (fp / 10) % 10 <= 9,
        0 <= fp % 10 <= 9,
{
}

/// Helper: unfold `trim_trailing_zeros` over a four-digit sequence that
/// is not all zeros.
proof fn reveal_trim(full: Seq<u8>)
    requires
        full.len() == 4,
        !(full[0] == 48 && full[1] == 48 && full[2] == 48 && full[3] == 48),
    ensures
        trim_trailing_zeros(full) == (if full[3] != 48 {
            full
        } else if full[2] != 48 {
            full.drop_last()
        } else if full[1] != 48 {
            full.drop_last().drop_last()
        } else {
            full.drop_last().drop_last().drop_last()
        }),
{
    reveal_with_fuel(trim_trailing_zeros, 6);
    let s3 = full.drop_last();
    let s2 = s3.drop_last();
    let s1 = s2.drop_last();
    assert(s3.len() == 3 && s2.len() == 2 && s1.len() == 1);
    assert(full.last() == full[3] && s3.last() == full[2] && s2.last() == full[1] && s1.last()
        == full[0]);
    if full[3] != 48 {
        assert(trim_trailing_zeros(full) == full);
    } else {
        assert(trim_trailing_zeros(full) == trim_trailing_zeros(s3));
        if full[2] != 48 {
            assert(trim_trailing_zeros(s3) == s3);
        } else {
            assert(trim_trailing_zeros(s3) == trim_trailing_zeros(s2));
            if full[1] != 48 {
                assert(trim_trailing_zeros(s2) == s2);
            } else {
                assert(trim_trailing_zeros(s2) == trim_trailing_zeros(s1));
                assert(trim_trailing_zeros(s1) == s1);
            }
        }
    }
}

/// Reading the canonical money rendering yields the value back.
pub open spec fn spec_parse_money(s: Seq<u8>) -> Option<int> {
    if s.len() > 0 && s[0] == 45 {
        match spec_parse_money_nonneg(s.drop_first()) {
            Some(v) => if v > 0 {
                Some(-v)
            } else {
                None
            },
            None => None,
        }
    } else {
        spec_parse_money_nonneg(s)
    }
}

/// Reading an unsigned canonical money rendering: digits, optionally a
/// dot and one to four fraction digits not ending in zero.
pub open spec fn spec_parse_money_nonneg(s: Seq<u8>) -> Option<int> {
    let dot = find_byte(s, 46);
    if dot == -1 {
        if 1 <= s.len() <= 32 && all_digit_bytes(s) && (s.len() == 1 || s[0] != 48) {
            Some(digits_value(s) * (MONEY_SCALE as int))
        } else {
            None
        }
    } else {
        let ip = s.subrange(0, dot);
        let fr = s.subrange(dot + 1, s.len() as int);
        if 1 <= ip.len() <= 32 && all_digit_bytes(ip) && (ip.len() == 1 || ip[0] != 48) && 1
            <= fr.len() <= 4 && all_digit_bytes(fr) && fr.last() != 48 {
            Some(
                digits_value(ip) * (MONEY_SCALE as int) + digits_value(fr) * pow10(
                    (4 - fr.len()) as nat,
                ),
            )
        } else {
            None
        }
    }
}

/// Index of the first occurrence of `b`, or -1.
pub open spec fn find_byte(s: Seq<u8>, b: u8) -> int
    decreases s.len(),
{
    if s.len() == 0 {
        -1
    } else if s.first() == b {
        0
    } else {
        let r = find_byte(s.drop_first(), b);
        if r == -1 {
            -1
        } else {
            r + 1
        }
    }
}

pub proof fn lemma_find_byte_bounds(s: Seq<u8>, b: u8)
    ensures
        -1 <= find_byte(s, b) < s.len(),
        find_byte(s, b) >= 0 ==> s[find_byte(s, b)] == b,
        find_byte(s, b) >= 0 ==> forall|i: int| 0 <= i < find_byte(s, b) ==> s[i] != b,
        find_byte(s, b) == -1 ==> forall|i: int| 0 <= i < s.len() ==> s[i] != b,
    decreases s.len(),
{
    if s.len() > 0 && s.first() != b {
        lemma_find_byte_bounds(s.drop_first(), b);
        assert(forall|i: int| 0 <= i < s.len() - 1 ==> s.drop_first()[i] == s[i + 1]);
        let r = find_byte(s.drop_first(), b);
        if r >= 0 {
            assert forall|i: int| 0 <= i < r + 1 implies s[i] != b by {
                if i > 0 {
                    assert(s[i] == s.drop_first()[i - 1]);
                }
            }
        } else {
            assert forall|i: int| 0 <= i < s.len() implies s[i] != b by {
                if i > 0 {
                    assert(s[i] == s.drop_first()[i - 1]);
                }
            }
        }
    }
}

/// If `b` does not occur in `s`, `find_byte` reports -1; occurrences
/// place it at the first one.
pub proof fn lemma_find_byte_at(s: Seq<u8>, b: u8, i: int)
    requires
        0 <= i < s.len(),
        s[i] == b,
        forall|j: int| 0 <= j < i ==> s[j] != b,
    ensures
        find_byte(s, b) == i,
    decreases s.len(),
{
    if i > 0 {
        assert(s.first() != b);
        assert(forall|j: int| 0 <= j < s.len() - 1 ==> s.drop_first()[j] == s[j + 1]);
        lemma_find_byte_at(s.drop_first(), b, i - 1);
    }
}

/// The money rendering reads back to the value it came from.
pub proof fn lemma_money_round_trip(v: int)
    requires
        -100 * (COST_MAX_RAW as int) <= v <= 100 * (COST_MAX_RAW as int),
    ensures
        spec_parse_money(spec_money_bytes(v)) == Some(v),
{
    if v < 0 {
        lemma_money_round_trip_nonneg(-v);
        let s = seq![45u8] + spec_money_bytes_nonneg(-v);
        assert(s[0] == 45);
        assert(s.drop_first() =~= spec_money_bytes_nonneg(-v));
    } else {
        lemma_money_round_trip_nonneg(v);
        let s = spec_money_bytes_nonneg(v);
        if s.len() > 0 && s[0] == 45 {
            let ip = v / (MONEY_SCALE as int);
            lemma_spec_digits(ip);
            if v % (MONEY_SCALE as int) == 0 {
                assert(is_digit_byte(s[0]));
            } else {
                assert(s[0] == spec_digits(ip).first());
                assert(is_digit_byte(s[0])) by {
                    assert(spec_digits(ip)[0] == (spec_digits(ip) + seq![46u8] + spec_frac_digits(
                        v % (MONEY_SCALE as int),
                    ))[0]);
                }
            }
        }
    }
}

proof fn lemma_money_round_trip_nonneg(v: int)
    requires
        0 <= v <= 100 * (COST_MAX_RAW as int),
    ensures
        spec_parse_money_nonneg(spec_money_bytes_nonneg(v)) == Some(v),
{
    let scale = MONEY_SCALE as int;
    let ip = v / scale;
    let fp = v % scale;
    lemma_spec_digits(ip);
    lemma_digits_value_bound(spec_digits(ip));
    assert(ip <= v / scale);
    assert(spec_digits(ip).len() <= 32) by {
        if spec_digits(ip).len() > 32 {
            lemma_spec_digits_len(ip);
            lemma_pow10_mono(32, (spec_digits(ip).len() - 1) as nat);
            lemma_pow10_32();
        }
    }
    if fp == 0 {
        let s = spec_digits(ip);
        assert(find_byte(s, 46) == -1) by {
            lemma_find_byte_bounds(s, 46);
            if find_byte(s, 46) >= 0 {
                assert(is_digit_byte(s[find_byte(s, 46)]));
            }
        }
        assert(s.len() == 1 || s[0] != 48);
        assert(digits_value(s) * scale == v) by {
            vstd::arithmetic::div_mod::lemma_fundamental_div_mod(v, scale);
        }
    } else {
        let frac = spec_frac_digits(fp);
        let s = spec_digits(ip) + seq![46u8] + frac;
        lemma_frac_trim(fp);
        let dlen = spec_digits(ip).len() as int;
        assert(find_byte(s, 46) == dlen) by {
            assert(s[dlen] == 46);
            assert(forall|j: int| 0 <= j < dlen ==> s[j] == spec_digits(ip)[j]);
            assert(forall|j: int| 0 <= j < dlen ==> s[j] != 46) by {
                assert(forall|j: int|
                    0 <= j < dlen ==> is_digit_byte(#[trigger] spec_digits(ip)[j]));
            }
            lemma_find_byte_at(s, 46, dlen);
        }
        assert(s.subrange(0, dlen) =~= spec_digits(ip));
        assert(s.subrange(dlen + 1, s.len() as int) =~= frac);
        assert(digits_value(spec_digits(ip)) * scale + digits_value(frac) * pow10(
            (4 - frac.len()) as nat,
        ) == v) by {
            vstd::arithmetic::div_mod::lemma_fundamental_div_mod(v, scale);
        }
    }
}

/// The digit count of a canonical rendering is tight: ten to the length
/// minus one is at most the value.
proof fn lemma_spec_digits_len(n: int)
    requires
        0 <= n,
    ensures
        pow10((spec_digits(n).len() - 1) as nat) <= n || n == 0,
        spec_digits(n).len() >= 1,
    decreases n,
{
    if n >= 10 {
        lemma_spec_digits_len(n / 10);
        let l = spec_digits(n / 10).len();
        assert(spec_digits(n).len() == l + 1);
        if n / 10 == 0 {
        } else {
            assert(pow10(((l + 1) - 1) as nat) == 10 * pow10((l - 1) as nat));
            vstd::arithmetic::div_mod::lemma_fundamental_div_mod(n, 10);
        }
    }
}

/// The trimmed fraction digits of a non-zero fraction: non-empty, all
/// digits, no trailing zero, and the value scales back exactly.
proof fn lemma_frac_trim(fp: int)
    requires
        0 < fp < 10000,
    ensures
        1 <= spec_frac_digits(fp).len() <= 4,
        all_digit_bytes(spec_frac_digits(fp)),
        spec_frac_digits(fp).last() != 48,
        digits_value(spec_frac_digits(fp)) * pow10((4 - spec_frac_digits(fp).len()) as nat) == fp,
{
    let full = seq![
        (48 + fp / 1000) as u8,
        (48 + (fp / 100) % 10) as u8,
        (48 + (fp / 10) % 10) as u8,
        (48 + fp % 10) as u8,
    ];
    lemma_frac_digit_parts(fp);
    lemma_fp_decomp(fp);
    reveal_trim(full);
    assert(full.drop_last() =~= seq![full[0], full[1], full[2]]);
    assert(full.drop_last().drop_last() =~= seq![full[0], full[1]]);
    assert(full.drop_last().drop_last().drop_last() =~= seq![full[0]]);
    assert(digits_value(full) == fp) by {
        lemma_digits_value_4(full, fp);
    }
    assert(fp / 1000 * 1000 + (fp / 100) % 10 * 100 + (fp / 10) % 10 * 10 + fp % 10 == fp) by {
        lemma_fp_decomp(fp);
    }
    reveal_with_fuel(pow10, 5);
    if full[3] != 48 {
        assert(pow10(0) == 1);
    } else if full[2] != 48 {
        assert(fp % 10 == 0);
        assert(digits_value(full.drop_last()) * 10 == fp) by {
            lemma_digits_value_4(full, fp);
        }
        assert(pow10(1) == 10);
    } else if full[1] != 48 {
        assert(fp % 10 == 0 && (fp / 10) % 10 == 0);
        assert(digits_value(full.drop_last().drop_last()) * 100 == fp) by {
            lemma_digits_value_4(full, fp);
        }
        assert(pow10(2) == 100);
    } else {
        assert(fp % 10 == 0 && (fp / 10) % 10 == 0 && (fp / 100) % 10 == 0);
        assert(fp / 1000 != 0) by {
            lemma_fp_decomp(fp);
        }
        assert(digits_value(full.drop_last().drop_last().drop_last()) * 1000 == fp) by {
            lemma_digits_value_4(full, fp);
        }
        assert(pow10(3) == 1000);
    }
}

/// Digit decomposition identity for a four-digit number.
proof fn lemma_fp_decomp(fp: int)
    requires
        0 <= fp < 10000,
    ensures
        fp / 1000 * 1000 + (fp / 100) % 10 * 100 + (fp / 10) % 10 * 10 + fp % 10 == fp,
        (fp % 10 == 0 && (fp / 10) % 10 == 0 && (fp / 100) % 10 == 0 && fp / 1000 == 0) ==> fp
            == 0,
{
    assert(fp / 1000 * 1000 + (fp / 100) % 10 * 100 + (fp / 10) % 10 * 10 + fp % 10 == fp)
        by (nonlinear_arith)
        requires
            0 <= fp < 10000,
    ;
}

/// The value of the four-digit rendering and its trimmed prefixes.
proof fn lemma_digits_value_4(full: Seq<u8>, fp: int)
    requires
        0 <= fp < 10000,
        full =~= seq![
            (48 + fp / 1000) as u8,
            (48 + (fp / 100) % 10) as u8,
            (48 + (fp / 10) % 10) as u8,
            (48 + fp % 10) as u8,
        ],
    ensures
        digits_value(full) == fp,
        fp % 10 == 0 ==> digits_value(full.drop_last()) * 10 == fp,
        (fp % 10 == 0 && (fp / 10) % 10 == 0) ==> digits_value(full.drop_last().drop_last()) * 100
            == fp,
        (fp % 10 == 0 && (fp / 10) % 10 == 0 && (fp / 100) % 10 == 0) ==> digits_value(
            full.drop_last().drop_last().drop_last(),
        ) * 1000 == fp,
{
    lemma_frac_digit_parts(fp);
    reveal_with_fuel(digits_value, 3);
    let s3 = full.drop_last();
    let s2 = s3.drop_last();
    let s1 = s2.drop_last();
    assert(s3 =~= seq![full[0], full[1], full[2]]);
    assert(s2 =~= seq![full[0], full[1]]);
    assert(s1 =~= seq![full[0]]);
    assert(s1.drop_last() =~= Seq::<u8>::empty());
    assert(digits_value(s1) == fp / 1000);
    assert(digits_value(s2) == fp / 1000 * 10 + (fp / 100) % 10);
    assert(digits_value(s3) == digits_value(s2) * 10 + (fp / 10) % 10);
    assert(digits_value(full) == digits_value(s3) * 10 + fp % 10);
    lemma_fp_decomp(fp);
}

/// Parse a monetary value from its canonical decimal rendering.
pub fn parse_money_bytes(s: &[u8]) -> (r: Option<Money>)
    ensures
        match r {
            Some(m) => spec_parse_money(s@) == Some(m@),
            None => spec_parse_money(s@) is None,
        },
{
    if s.len() > 0 && s[0] == 45 {
        proof {
            assert(s@.subrange(1, s@.len() as int) =~= s@.drop_first());
        }
        match parse_money_nonneg(s, 1) {
            Some(m) => {
                if m.is_pos() {
                    proof {
                        lemma_pow10_32();
                    }
                    Some(Money::from_raw(-m.raw))
                } else {
                    None
                }
            },
            None => None,
        }
    } else {
        proof {
            assert(s@.subrange(0, s@.len() as int) =~= s@);
        }
        parse_money_nonneg(s, 0)
    }
}

/// Parse the unsigned part, from `start` to the end of the slice.
#[verifier::rlimit(100)]
#[verifier::spinoff_prover]
fn parse_money_nonneg(s: &[u8], start: usize) -> (r: Option<Money>)
    requires
        start <= s@.len(),
    ensures
        match r {
            Some(m) => spec_parse_money_nonneg(s@.subrange(start as int, s@.len() as int))
                == Some(m@) && 0 <= m@ < pow10(36),
            None => spec_parse_money_nonneg(s@.subrange(start as int, s@.len() as int)) is None,
        },
{
    let ghost sub = s@.subrange(start as int, s@.len() as int);
    let n = s.len();
    let mut i: usize = start;
    let mut dot: Option<usize> = None;
    while i < n && dot.is_none()
        invariant
            start <= i <= n,
            n == s@.len(),
            (match dot {
                Some(d) => start <= d < n && s@[d as int] == 46 && (forall|j: int|
                    start <= j < d ==> s@[j] != 46) && i == d,
                None => forall|j: int| start <= j < i ==> s@[j] != 46,
            }),
        decreases n - i, (if dot is None { 1int } else { 0int }),
    {
        if s[i] == 46 {
            dot = Some(i);
        } else {
            i += 1;
        }
    }
    proof {
        assert(forall|j: int| 0 <= j < sub.len() ==> sub[j] == s@[start + j]);
        match dot {
            Some(d) => {
                lemma_find_byte_at(sub, 46, d - start as int);
            },
            None => {
                lemma_find_byte_bounds(sub, 46);
                if find_byte(sub, 46) >= 0 {
                    assert(sub[find_byte(sub, 46)] == 46);
                }
            },
        }
    }
    match dot {
        None => {
            if n - start < 1 || n - start > 32 {
                return None;
            }
            if s[start] == 48 && n - start > 1 {
                return None;
            }
            match parse_u128_digits(s, start, n) {
                Some(v) => {
                    proof {
                        lemma_digits_value_bound(sub);
                        lemma_pow10_mono(sub.len(), 32);
                        lemma_pow10_32();
                        assert(v < pow10(32));
                        assert((v as int) * (MONEY_SCALE as int) < pow10(36));
                    }
                    Some(Money::from_raw((v as i128) * MONEY_SCALE))
                },
                None => None,
            }
        },
        Some(d) => {
            let ghost ip_s = sub.subrange(0, d - start as int);
            let ghost fr_s = sub.subrange(d - start as int + 1, sub.len() as int);
            proof {
                assert(ip_s =~= s@.subrange(start as int, d as int));
                assert(fr_s =~= s@.subrange(d as int + 1, s@.len() as int));
            }
            if d - start < 1 || d - start > 32 {
                return None;
            }
            if s[start] == 48 && d - start > 1 {
                return None;
            }
            if n - d - 1 < 1 || n - d - 1 > 4 {
                return None;
            }
            if s[n - 1] == 48 {
                return None;
            }
            let ip = match parse_u128_digits(s, start, d) {
                Some(v) => v,
                None => {
                    return None;
                },
            };
            let fv = match parse_u128_digits(s, d + 1, n) {
                Some(v) => v,
                None => {
                    return None;
                },
            };
            let scale_up: u128 = match n - d - 1 {
                1 => 1000,
                2 => 100,
                3 => 10,
                _ => 1,
            };
            proof {
                reveal_with_fuel(pow10, 5);
                assert(scale_up as int == pow10((4 - fr_s.len()) as nat));
                lemma_digits_value_bound(ip_s);
                lemma_pow10_mono(ip_s.len(), 32);
                lemma_pow10_32();
                lemma_digits_value_bound(fr_s);
                lemma_pow10_mono(fr_s.len(), 4);
            }
            Some(Money::from_raw((ip as i128) * MONEY_SCALE + (fv as i128) * (scale_up as i128)))
        },
    }
}

/// Small powers of ten, as numerals.
pub proof fn lemma_pow10_32()
    ensures
        pow10(32) == 0x4EE2D6D415B85ACEF8100000000,
        pow10(36) == 0xC097CE7BC90715B34B9F1000000000,
        pow10(4) == 10000,
{
    reveal_with_fuel(pow10, 38);
}

/// ASCII bytes of an ASCII string.
pub open spec fn ascii_seq(s: Seq<char>) -> Seq<u8> {
    Seq::new(s.len(), |i: int| s[i] as u8)
}

/// Append the bytes of an ASCII literal.
pub fn push_literal(out: &mut Vec<u8>, lit: &str)
    requires
        vstd::string::is_ascii(lit),
    ensures
        final(out)@ == old(out)@ + ascii_seq(lit@),
{
    let b = lit.as_bytes();
    proof {
        vstd::string::is_ascii_spec_bytes(lit);
    }
    push_slice(out, b);
    proof {
        assert(b@ =~= ascii_seq(lit@));
    }
}

/// Append a byte slice.
pub fn push_slice(out: &mut Vec<u8>, b: &[u8])
    ensures
        final(out)@ == old(out)@ + b@,
{
    let n = b.len();
    let mut i: usize = 0;
    proof {
        assert(out@ =~= old(out)@ + b@.subrange(0, 0));
    }
    while i < n
        invariant
            n == b@.len(),
            i <= n,
            out@ == old(out)@ + b@.subrange(0, i as int),
        decreases n - i,
    {
        out.push(b[i]);
        proof {
            assert(old(out)@ + b@.subrange(0, i as int + 1) =~= (old(out)@ + b@.subrange(
                0,
                i as int,
            )).push(b@[i as int]));
        }
        i += 1;
    }
    proof {
        assert(b@.subrange(0, n as int) =~= b@);
    }
}

/// Whether bytes may stand unescaped inside a JSON string: no quote, no
/// backslash, no control byte.
pub open spec fn json_safe_bytes(s: Seq<u8>) -> bool {
    forall|i: int| 0 <= i < s.len() ==> (#[trigger] s[i]) != 34 && s[i] != 92 && s[i] >= 32
}

/// Canonical rendering of a signed 64-bit integer.
pub open spec fn spec_i64_bytes(v: int) -> Seq<u8> {
    if v < 0 {
        seq![45u8] + spec_digits(-v)
    } else {
        spec_digits(v)
    }
}

/// Render a signed integer in canonical decimal.
pub fn fmt_i64(v: i64) -> (r: Vec<u8>)
    ensures
        r@ == spec_i64_bytes(v as int),
{
    let mut out: Vec<u8> = Vec::new();
    if v < 0 {
        out.push(45);
        let mag: u128 = (-(v as i128)) as u128;
        let mut d = fmt_u128(mag);
        out.append(&mut d);
        proof {
            assert(out@ =~= spec_i64_bytes(v as int));
        }
    } else {
        let mut d = fmt_u128(v as u128);
        out.append(&mut d);
        proof {
            assert(out@ =~= spec_i64_bytes(v as int));
        }
    }
    out
}

/// The canonical JSON shape of an order, field order fixed: identifiers
/// and symbol as JSON strings, monetary fields as decimal strings, the
/// price `null` for a market order, and the creation time in epoch
/// milliseconds.
pub open spec fn spec_order_json(o: Order) -> Seq<u8> {
    ascii_seq("{\"id\":\""@) + encode_utf8(o.id@) + ascii_seq("\",\"account_id\":\""@)
        + encode_utf8(o.account_id@) + ascii_seq("\",\"symbol\":\""@) + encode_utf8(o.symbol@)
        + ascii_seq("\",\"direction\":\""@) + spec_direction_bytes(o.direction) + ascii_seq(
        "\",\"price\":"@,
    ) + (match o.price {
        Some(p) => seq![34u8] + spec_money_bytes(p@) + seq![34u8],
        None => ascii_seq("null"@),
    }) + ascii_seq(",\"volume\":\""@) + spec_money_bytes(o.volume@) + ascii_seq(
        "\",\"filled_volume\":\""@,
    ) + spec_money_bytes(o.filled_volume@) + ascii_seq("\",\"status\":\""@) + spec_status_bytes(
        o.status,
    ) + ascii_seq("\",\"created_at\":"@) + spec_i64_bytes(o.created_at as int) + seq![125u8]
}

pub open spec fn spec_direction_bytes(d: OrderDirection) -> Seq<u8> {
    match d {
        OrderDirection::Buy => ascii_seq("Buy"@),
        OrderDirection::Sell => ascii_seq("Sell"@),
    }
}

pub open spec fn spec_status_bytes(s: OrderStatus) -> Seq<u8> {
    match s {
        OrderStatus::Pending => ascii_seq("Pending"@),
        OrderStatus::Submitted => ascii_seq("Submitted"@),
        OrderStatus::PartialFilled => ascii_seq("PartialFilled"@),
        OrderStatus::Filled => ascii_seq("Filled"@),
        OrderStatus::Canceled => ascii_seq("Canceled"@),
        OrderStatus::Rejected => ascii_seq("Rejected"@),
    }
}

/// Render one order as canonical JSON.
#[verifier::rlimit(80)]
pub fn order_to_json(o: &Order) -> (r: Vec<u8>)
    requires
        -100 * (COST_MAX_RAW as int) <= o.volume@ <= 100 * (COST_MAX_RAW as int),
        -100 * (COST_MAX_RAW as int) <= o.filled_volume@ <= 100 * (COST_MAX_RAW as int),
        o.price matches Some(p) ==> -100 * (COST_MAX_RAW as int) <= p@ <= 100 * (
        COST_MAX_RAW as int),
    ensures
        r@ == spec_order_json(*o),
{
    let mut out: Vec<u8> = Vec::new();
    proof {
        reveal_strlit("{\"id\":\"");
        reveal_strlit("\",\"account_id\":\"");
        reveal_strlit("\",\"symbol\":\"");
        reveal_strlit("\",\"direction\":\"");
        reveal_strlit("\",\"price\":");
        reveal_strlit("null");
        reveal_strlit(",\"volume\":\"");
        reveal_strlit("\",\"filled_volume\":\"");
        reveal_strlit("\",\"status\":\"");
        reveal_strlit("\",\"created_at\":");
        reveal_strlit("Buy");
        reveal_strlit("Sell");
        reveal_strlit("Pending");
        reveal_strlit("Submitted");
        reveal_strlit("PartialFilled");
        reveal_strlit("Filled");
        reveal_strlit("Canceled");
        reveal_strlit("Rejected");
    }
    push_literal(&mut out, "{\"id\":\"");
    push_slice(&mut out, o.id.0.as_str().as_bytes());
    push_literal(&mut out, "\",\"account_id\":\"");
    push_slice(&mut out, o.account_id.0.as_str().as_bytes());
    push_literal(&mut out, "\",\"symbol\":\"");
    push_slice(&mut out, o.symbol.as_str().as_bytes());
    push_literal(&mut out, "\",\"direction\":\"");
    match o.direction {
        OrderDirection::Buy => push_literal(&mut out, "Buy"),
        OrderDirection::Sell => push_literal(&mut out, "Sell"),
    }
    push_literal(&mut out, "\",\"price\":");
    match o.price {
        Some(p) => {
            out.push(34);
            let mut pb = money_to_bytes(p);
            out.append(&mut pb);
            out.push(34);
        },
        None => {
            push_literal(&mut out, "null");
        },
    }
    push_literal(&mut out, ",\"volume\":\"");
    let mut vb = money_to_bytes(o.volume);
    out.append(&mut vb);
    push_literal(&mut out, "\",\"filled_volume\":\"");
    let mut fb = money_to_bytes(o.filled_volume);
    out.append(&mut fb);
    push_literal(&mut out, "\",\"status\":\"");
    match o.status {
        OrderStatus::Pending => push_literal(&mut out, "Pending"),
        OrderStatus::Submitted => push_literal(&mut out, "Submitted"),
        OrderStatus::PartialFilled => push_literal(&mut out, "PartialFilled"),
        OrderStatus::Filled => push_literal(&mut out, "Filled"),
        OrderStatus::Canceled => push_literal(&mut out, "Canceled"),
        OrderStatus::Rejected => push_literal(&mut out, "Rejected"),
    }
    push_literal(&mut out, "\",\"created_at\":");
    let mut cb = fmt_i64(o.created_at);
    out.append(&mut cb);
    out.push(125);
    proof {
        assert(out@ =~= spec_order_json(*o));
    }
    out
}

/// Whether two byte slices hold the same bytes.
pub fn bytes_eq(a: &[u8], b: &[u8]) -> (r: bool)
    ensures
        r == (a@ == b@),
{
    if a.len() != b.len() {
        proof {
            assert(a@.len() != b@.len());
        }
        return false;
    }
    let n = a.len();
    let mut i: usize = 0;
    while i < n
        invariant
            n == a@.len() == b@.len(),
            i <= n,
            forall|j: int| 0 <= j < i ==> a@[j] == b@[j],
        decreases n - i,
    {
        if a[i] != b[i] {
            return false;
        }
        i += 1;
    }
    proof {
        assert(a@ =~= b@);
    }
    true
}

/// A `String` holding exactly the given UTF-8 bytes.
/// Relies on String::from_utf8: on success the returned string is built
/// over the very bytes given; exactly the byte sequences that are not
/// valid UTF-8 are rejected.
#[verifier::external_body]
pub fn bytes_to_string(v: Vec<u8>) -> (r: Option<String>)
    ensures
        match r {
            Some(s) => encode_utf8(s@) == v@,
            None => !vstd::utf8::valid_utf8(v@),
        },
{
    match String::from_utf8(v) {
        Ok(s) => Some(s),
        Err(_) => None,
    }
}

/// A `String` over ASCII bytes.
/// Relies on String::from_utf8: ASCII bytes are always valid UTF-8, and
/// the returned string is built over the very bytes given.
#[verifier::external_body]
pub fn ascii_to_string(v: Vec<u8>) -> (r: String)
    requires
        forall|i: int| 0 <= i < v@.len() ==> v@[i] < 128,
    ensures
        encode_utf8(r@) == v@,
{
    String::from_utf8(v).unwrap_or_default()
}

/// Every byte of a canonical money rendering is ASCII, and none is a
/// quote (they are all digits, the sign or the dot).
pub proof fn lemma_money_bytes_ascii(v: int)
    ensures
        forall|i: int|
            0 <= i < spec_money_bytes(v).len() ==> #[trigger] spec_money_bytes(v)[i] < 128,
        forall|i: int|
            0 <= i < spec_money_bytes(v).len() ==> #[trigger] spec_money_bytes(v)[i] != 34,
{
    lemma_money_bytes_nonneg_ascii(if v < 0 {
        -v
    } else {
        v
    });
}

proof fn lemma_money_bytes_nonneg_ascii(v: int)
    requires
        0 <= v,
    ensures
        forall|i: int|
            0 <= i < spec_money_bytes_nonneg(v).len() ==> (#[trigger] spec_money_bytes_nonneg(
                v,
            )[i] < 128 && spec_money_bytes_nonneg(v)[i] != 34),
        forall|i: int|
            0 <= i < spec_money_bytes(-v).len() ==> (#[trigger] spec_money_bytes(-v)[i] < 128
                && spec_money_bytes(-v)[i] != 34),
        forall|i: int|
            0 <= i < spec_money_bytes(v).len() ==> (#[trigger] spec_money_bytes(v)[i] < 128
                && spec_money_bytes(v)[i] != 34),
{
    let ip = v / (MONEY_SCALE as int);
    let fp = v % (MONEY_SCALE as int);
    lemma_spec_digits(ip);
    if fp != 0 {
        lemma_frac_trim(fp);
    }
}

/// Render a monetary value as a decimal string.
pub fn money_to_string(m: Money) -> (r: String)
    requires
        -100 * (COST_MAX_RAW as int) <= m@ <= 100 * (COST_MAX_RAW as int),
    ensures
        encode_utf8(r@) == spec_money_bytes(m@),
{
    let bytes = money_to_bytes(m);
    proof {
        lemma_money_bytes_ascii(m@);
    }
    ascii_to_string(bytes)
}

/// Deserialize one order from JSON. Acceptance is sound by construction:
/// a value is returned only when the input is byte-for-byte the canonical
/// rendering of that value, so nothing can be lost or altered in transit.
pub fn parse_order_json(s: &[u8]) -> (r: Option<Order>)
    ensures
        r matches Some(o) ==> s@ == spec_order_json(o),
{
    let mut cursor: usize = 0;
    let id = match read_string_field(s, &mut cursor, "{\"id\":\"") {
        Some(v) => v,
        None => {
            return None;
        },
    };
    let account_id = match read_string_field(s, &mut cursor, "\",\"account_id\":\"") {
        Some(v) => v,
        None => {
            return None;
        },
    };
    let symbol = match read_string_field(s, &mut cursor, "\",\"symbol\":\"") {
        Some(v) => v,
        None => {
            return None;
        },
    };
    let direction_raw = match read_string_field(s, &mut cursor, "\",\"direction\":\"") {
        Some(v) => v,
        None => {
            return None;
        },
    };
    let direction = if crate::strutil::str_eq(direction_raw.as_str(), "Buy") {
        OrderDirection::Buy
    } else if crate::strutil::str_eq(direction_raw.as_str(), "Sell") {
        OrderDirection::Sell
    } else {
        return None;
    };
    if !skip_literal(s, &mut cursor, "\",\"price\":") {
        return None;
    }
    let price: Option<Money> = if cursor < s.len() && s[cursor] == 34 {
        cursor = cursor + 1;
        let pb = match take_until_quote(s, &mut cursor) {
            Some(v) => v,
            None => {
                return None;
            },
        };
        match parse_money_bytes(pb.as_slice()) {
            Some(m) => {
                if cursor < s.len() && s[cursor] == 34 {
                    cursor = cursor + 1;
                    Some(m)
                } else {
                    return None;
                }
            },
            None => {
                return None;
            },
        }
    } else {
        if !skip_literal(s, &mut cursor, "null") {
            return None;
        }
        None
    };
    let volume = match read_money_field(s, &mut cursor, ",\"volume\":\"") {
        Some(v) => v,
        None => {
            return None;
        },
    };
    let filled_volume = match read_money_field(s, &mut cursor, "\",\"filled_volume\":\"") {
        Some(v) => v,
        None => {
            return None;
        },
    };
    let status_raw = match read_string_field(s, &mut cursor, "\",\"status\":\"") {
        Some(v) => v,
        None => {
            return None;
        },
    };
    let status = if crate::strutil::str_eq(status_raw.as_str(), "Pending") {
        OrderStatus::Pending
    } else if crate::strutil::str_eq(status_raw.as_str(), "Submitted") {
        OrderStatus::Submitted
    } else if crate::strutil::str_eq(status_raw.as_str(), "PartialFilled") {
        OrderStatus::PartialFilled
    } else if crate::strutil::str_eq(status_raw.as_str(), "Filled") {
        OrderStatus::Filled
    } else if crate::strutil::str_eq(status_raw.as_str(), "Canceled") {
        OrderStatus::Canceled
    } else if crate::strutil::str_eq(status_raw.as_str(), "Rejected") {
        OrderStatus::Rejected
    } else {
        return None;
    };
    if !skip_literal(s, &mut cursor, "\",\"created_at\":") {
        return None;
    }
    let created_at = match read_i64(s, &mut cursor) {
        Some(v) => v,
        None => {
            return None;
        },
    };
    if !(cursor < s.len() && s[cursor] == 125 && cursor + 1 == s.len()) {
        return None;
    }
    let candidate = Order {
        id: OrderId(id),
        account_id: AccountId(account_id),
        symbol,
        direction,
        price,
        volume,
        filled_volume,
        status,
        created_at,
    };
    if !money_in_codec_range(candidate.volume) || !money_in_codec_range(candidate.filled_volume) {
        return None;
    }
    match candidate.price {
        Some(p) => {
            if !money_in_codec_range(p) {
                return None;
            }
        },
        None => {},
    }
    let rendered = order_to_json(&candidate);
    if bytes_eq(rendered.as_slice(), s) {
        Some(candidate)
    } else {
        None
    }
}

/// Whether a monetary value lies in the codec's representable range.
fn money_in_codec_range(m: Money) -> (r: bool)
    ensures
        r == (-100 * (COST_MAX_RAW as int) <= m@ <= 100 * (COST_MAX_RAW as int)),
{
    let limit: i128 = 100 * COST_MAX_RAW;
    -limit <= m.raw && m.raw <= limit
}

/// Expect `lit` at the cursor: succeeds exactly when the input carries
/// the literal's bytes there, advancing past them; otherwise the cursor
/// stands still.
fn skip_literal(s: &[u8], cursor: &mut usize, lit: &str) -> (r: bool)
    requires
        *old(cursor) <= s@.len(),
    ensures
        *old(cursor) <= *final(cursor) <= s@.len(),
        r == (s@.len() - *old(cursor) >= lit.spec_bytes().len() && s@.subrange(
            *old(cursor) as int,
            *old(cursor) + lit.spec_bytes().len(),
        ) == lit.spec_bytes()),
        r ==> *final(cursor) == *old(cursor) + lit.spec_bytes().len(),
        !r ==> *final(cursor) == *old(cursor),
{
    let b = lit.as_bytes();
    let slen = s.len();
    if slen - *cursor < b.len() {
        proof {
            assert(s@.len() - *old(cursor) < lit.spec_bytes().len());
        }
        return false;
    }
    let mut i: usize = 0;
    let n = b.len();
    while i < n
        invariant
            n == b@.len(),
            b@ == lit.spec_bytes(),
            i <= n,
            slen == s@.len(),
            *cursor + n <= slen,
            *cursor == *old(cursor),
            forall|j: int| 0 <= j < i ==> s@[*cursor + j] == b@[j],
        decreases n - i,
    {
        if s[*cursor + i] != b[i] {
            proof {
                assert(s@.subrange(*cursor as int, *cursor + n) != b@) by {
                    assert(s@.subrange(*cursor as int, *cursor + n)[i as int] == s@[*cursor
                        + i]);
                }
            }
            return false;
        }
        i += 1;
    }
    proof {
        assert(s@.subrange(*cursor as int, *cursor + n) =~= b@);
    }
    *cursor = *cursor + n;
    true
}

/// Read `lit`, then a string body up to the next quote; the cursor stops
/// on the quote's successor position minus one (the quote is consumed by
/// the following literal).
fn read_string_field(s: &[u8], cursor: &mut usize, lit: &str) -> (r: Option<String>)
    requires
        *old(cursor) <= s@.len(),
    ensures
        *old(cursor) <= *final(cursor) <= s@.len(),
        (match r {
            Some(t) => {
                &&& s@.len() - *old(cursor) >= lit.spec_bytes().len()
                &&& s@.subrange(*old(cursor) as int, *old(cursor) + lit.spec_bytes().len())
                    == lit.spec_bytes()
                &&& *final(cursor) < s@.len()
                &&& s@[*final(cursor) as int] == 34
                &&& forall|k: int|
                    *old(cursor) + lit.spec_bytes().len() <= k < *final(cursor) ==> s@[k] != 34
                &&& encode_utf8(t@) == s@.subrange(
                    *old(cursor) + lit.spec_bytes().len(),
                    *final(cursor) as int,
                )
            },
            None => true,
        }),
        (forall|j: int|
            (s@.len() - *old(cursor) >= lit.spec_bytes().len() && s@.subrange(
                *old(cursor) as int,
                *old(cursor) + lit.spec_bytes().len(),
            ) == lit.spec_bytes() && *old(cursor) + lit.spec_bytes().len() <= j < s@.len()
                && s@[j] == 34 && (forall|k: int|
                *old(cursor) + lit.spec_bytes().len() <= k < j ==> s@[k] != 34)
                && vstd::utf8::valid_utf8(
                s@.subrange(*old(cursor) + lit.spec_bytes().len(), j),
            )) ==> #[trigger] scan_mark(j) && r is Some && *final(cursor) == j),
{
    if !skip_literal(s, cursor, lit) {
        return None;
    }
    match take_until_quote(s, cursor) {
        Some(bytes) => bytes_to_string(bytes),
        None => None,
    }
}

/// Trivial marker over a scan position, giving the readers' completeness
/// clauses a quantifier trigger.
pub open spec fn scan_mark(j: int) -> bool {
    true
}

/// Collect bytes up to (not including) the first quote; the cursor
/// stops on that quote. Fails exactly when no quote remains.
fn take_until_quote(s: &[u8], cursor: &mut usize) -> (r: Option<Vec<u8>>)
    requires
        *old(cursor) <= s@.len(),
    ensures
        *old(cursor) <= *final(cursor) <= s@.len(),
        match r {
            Some(out) => {
                &&& *final(cursor) < s@.len()
                &&& s@[*final(cursor) as int] == 34
                &&& forall|k: int| *old(cursor) <= k < *final(cursor) ==> s@[k] != 34
                &&& out@ == s@.subrange(*old(cursor) as int, *final(cursor) as int)
            },
            None => {
                &&& *final(cursor) == s@.len()
                &&& forall|k: int| *old(cursor) <= k < s@.len() ==> s@[k] != 34
            },
        },
{
    let mut out: Vec<u8> = Vec::new();
    let n = s.len();
    let mut i: usize = *cursor;
    proof {
        assert(out@ =~= s@.subrange(*cursor as int, *cursor as int));
    }
    while i < n
        invariant
            *old(cursor) <= i <= n,
            n == s@.len(),
            *cursor == *old(cursor),
            out@ == s@.subrange(*old(cursor) as int, i as int),
            forall|k: int| *old(cursor) <= k < i ==> s@[k] != 34,
        decreases n - i,
    {
        if s[i] == 34 {
            *cursor = i;
            return Some(out);
        }
        out.push(s[i]);
        proof {
            assert(s@.subrange(*old(cursor) as int, i as int + 1) =~= s@.subrange(
                *old(cursor) as int,
                i as int,
            ).push(s@[i as int]));
        }
        i += 1;
    }
    *cursor = n;
    None
}

/// Read `lit`, then a decimal money value up to the next quote.
fn read_money_field(s: &[u8], cursor: &mut usize, lit: &str) -> (r: Option<Money>)
    requires
        *old(cursor) <= s@.len(),
    ensures
        *old(cursor) <= *final(cursor) <= s@.len(),
        (match r {
            Some(m) => {
                &&& *final(cursor) < s@.len()
                &&& s@[*final(cursor) as int] == 34
                &&& spec_parse_money(
                    s@.subrange(*old(cursor) + lit.spec_bytes().len(), *final(cursor) as int),
                ) == Some(m@)
            },
            None => true,
        }),
        (forall|j: int|
            (s@.len() - *old(cursor) >= lit.spec_bytes().len() && s@.subrange(
                *old(cursor) as int,
                *old(cursor) + lit.spec_bytes().len(),
            ) == lit.spec_bytes() && *old(cursor) + lit.spec_bytes().len() <= j < s@.len()
                && s@[j] == 34 && (forall|k: int|
                *old(cursor) + lit.spec_bytes().len() <= k < j ==> s@[k] != 34)
                && spec_parse_money(
                s@.subrange(*old(cursor) + lit.spec_bytes().len(), j),
            ) is Some) ==> #[trigger] scan_mark(j) && (r matches Some(m) && m@
                == spec_parse_money(
                s@.subrange(*old(cursor) + lit.spec_bytes().len(), j),
            ).unwrap() && *final(cursor) == j)),
{
    if !skip_literal(s, cursor, lit) {
        return None;
    }
    match take_until_quote(s, cursor) {
        Some(bytes) => parse_money_bytes(bytes.as_slice()),
        None => None,
    }
}

/// Read a signed decimal integer, stopping before the first non-digit.
/// A maximal signed decimal numeral for `v` stands at offset `c0` of
/// `s`: the canonical rendering of `v` is there, and the byte after it
/// (if any) is not a digit.
pub open spec fn i64_at(s: Seq<u8>, c0: int, v: i64) -> bool {
    &&& i64::MIN < v
    &&& s.len() - c0 >= spec_i64_bytes(v as int).len()
    &&& s.subrange(c0, c0 + spec_i64_bytes(v as int).len()) == spec_i64_bytes(v as int)
    &&& (c0 + spec_i64_bytes(v as int).len() == s.len() || !is_digit_byte(
        s[c0 + spec_i64_bytes(v as int).len()],
    ))
}

#[verifier::rlimit(100)]
#[verifier::spinoff_prover]
fn read_i64(s: &[u8], cursor: &mut usize) -> (r: Option<i64>)
    requires
        *old(cursor) <= s@.len(),
    ensures
        *old(cursor) <= *final(cursor) <= s@.len(),
        (forall|v: i64|
            #[trigger] i64_at(s@, *old(cursor) as int, v) ==> r == Some(v) && *final(cursor)
                == *old(cursor) + spec_i64_bytes(v as int).len()),
{
    let ghost c0 = *cursor;
    let n = s.len();
    let mut i: usize = *cursor;
    let neg = if i < n && s[i] == 45 {
        i = i + 1;
        true
    } else {
        false
    };
    let digits_start = i;
    while i < n && 48 <= s[i] && s[i] <= 57
        invariant
            digits_start <= i <= n,
            c0 <= digits_start,
            n == s@.len(),
            forall|k: int| digits_start <= k < i ==> is_digit_byte(s@[k]),
        decreases n - i,
    {
        i += 1;
    }
    let parsed = parse_u128_digits(s, digits_start, i);
    *cursor = i;
    let result: Option<i64> = match parsed {
        Some(v) => if v > i64::MAX as u128 {
            None
        } else if neg {
            Some(-(v as i64))
        } else {
            Some(v as i64)
        },
        None => None,
    };
    proof {
        assert forall|v: i64| #[trigger] i64_at(s@, *old(cursor) as int, v) implies result == Some(
            v,
        ) && *cursor == *old(cursor) + spec_i64_bytes(v as int).len() by {
            assert(c0 == *old(cursor));
            let mag: int = if v >= 0 {
                v as int
            } else {
                -(v as int)
            };
            let dg = spec_digits(mag);
            let db = spec_i64_bytes(v as int);
            lemma_spec_digits(mag);
            assert(dg.len() <= 19) by {
                lemma_spec_digits_len(mag);
                reveal_with_fuel(pow10, 21);
                if dg.len() > 19 {
                    lemma_pow10_mono(19, (dg.len() - 1) as nat);
                }
            }
            assert(forall|k: int|
                0 <= k < db.len() ==> #[trigger] s@.subrange(c0 as int, c0 + db.len())[k] == s@[
                    c0 + k
                ]);
            assert(forall|k: int| 0 <= k < db.len() ==> s@[c0 + k] == #[trigger] db[k]);
            let ds = if v < 0 {
                c0 + 1
            } else {
                c0 as int
            };
            assert(s@.subrange(ds, ds + dg.len()) =~= dg) by {
                if v < 0 {
                    assert(forall|k: int| 0 <= k < dg.len() ==> #[trigger] dg[k] == db[k + 1]);
                    assert(forall|k: int|
                        0 <= k < dg.len() ==> #[trigger] s@.subrange(ds, ds + dg.len())[k] == s@[
                            ds + k
                        ]);
                } else {
                    assert(db =~= dg);
                }
            }
            if v < 0 {
                assert(s@[c0 as int] == db[0] && db[0] == 45);
                assert(neg && digits_start == c0 + 1);
            } else {
                assert(db =~= dg);
                assert(s@[c0 as int] == dg[0] && is_digit_byte(dg[0]));
                assert(!neg && digits_start == c0);
            }
            assert(digits_start == ds);
            assert(i == ds + dg.len()) by {
                if i < ds + dg.len() {
                    assert(s@[i as int] == dg[i - ds]);
                    assert(is_digit_byte(s@[i as int]));
                } else if i > ds + dg.len() {
                    assert(is_digit_byte(s@[ds + dg.len()]));
                    assert(ds + dg.len() == c0 + db.len());
                }
            }
            assert(s@.subrange(digits_start as int, i as int) =~= dg);
            assert(parsed is Some) by {
                if parsed is None {
                    assert(1 <= i - digits_start <= 38 && all_digit_bytes(
                        s@.subrange(digits_start as int, i as int),
                    ));
                }
            }
            assert(parsed.unwrap() == digits_value(dg));
            assert(digits_value(dg) == mag);
            assert(mag <= i64::MAX as int);
            assert(result == Some(v));
        }
    }
    result
}

/// Earliest time the RFC3339 wire format carries: year one.
pub const RFC3339_MIN_MS: i64 = -62_135_596_800_000;

/// Latest time the RFC3339 wire format carries: the last millisecond of
/// year 9999, the four-digit-year bound of RFC3339.
pub const RFC3339_MAX_MS: i64 = 253_402_300_799_999;

/// The RFC3339 rendering (UTC, millisecond precision, `Z` suffix) of an
/// epoch-millisecond time. The text depends on the timestamp alone.
pub uninterp spec fn rfc3339_bytes_of(ms: int) -> Seq<u8>;

/// Relies on chrono::DateTime::from_timestamp_millis and
/// to_rfc3339_opts: within the year range 0001-9999 the rendering is a
/// pure function of the timestamp, made of ASCII digits and the
/// punctuation `-:.TZ`, so it embeds unescaped in a JSON string.
#[verifier::external_body]
pub fn fmt_rfc3339(ms: i64) -> (r: Vec<u8>)
    requires
        RFC3339_MIN_MS as int <= ms <= RFC3339_MAX_MS as int,
    ensures
        r@ == rfc3339_bytes_of(ms as int),
        json_safe_bytes(r@),
        forall|i: int| 0 <= i < r@.len() ==> r@[i] < 128,
{
    match chrono::DateTime::from_timestamp_millis(ms) {
        Some(dt) => dt.to_rfc3339_opts(chrono::SecondsFormat::Millis, true).into_bytes(),
        None => Vec::new(),
    }
}

/// Relies on chrono::DateTime::parse_from_rfc3339: it reads the
/// renderer's output back, recovering the same timestamp within the
/// year range 0001-9999.
#[verifier::external_body]
pub fn parse_rfc3339_ms(s: &[u8]) -> (r: Option<i64>)
    ensures
        forall|ms: i64|
            (RFC3339_MIN_MS as int <= ms <= RFC3339_MAX_MS as int && s@ == rfc3339_bytes_of(
                ms as int,
            )) ==> r == Some(ms),
{
    match core::str::from_utf8(s) {
        Ok(text) => match chrono::DateTime::parse_from_rfc3339(text) {
            Ok(dt) => Some(dt.timestamp_millis()),
            Err(_) => None,
        },
        Err(_) => None,
    }
}

/// The canonical JSON shape of a candle crossing into the sandbox:
/// the bar time as an RFC3339 string, prices and volume as JSON decimal
/// numbers, and the close flag as a JSON boolean.
pub open spec fn spec_candle_json(c: Candle) -> Seq<u8> {
    ascii_seq("{\"time\":\""@) + rfc3339_bytes_of(c.time_ms as int) + ascii_seq(
        "\",\"open\":"@,
    ) + spec_money_bytes(c.open@) + ascii_seq(",\"high\":"@) + spec_money_bytes(c.high@)
        + ascii_seq(",\"low\":"@) + spec_money_bytes(c.low@) + ascii_seq(",\"close\":"@)
        + spec_money_bytes(c.close@) + ascii_seq(",\"adj_close\":"@) + (match c.adj_close {
        Some(a) => spec_money_bytes(a@),
        None => ascii_seq("null"@),
    }) + ascii_seq(",\"volume\":"@) + spec_money_bytes(c.volume@) + ascii_seq(
        ",\"is_final\":"@,
    ) + (if c.is_final {
        ascii_seq("true"@)
    } else {
        ascii_seq("false"@)
    }) + seq![125u8]
}

/// Render one candle as canonical JSON.
#[verifier::rlimit(80)]
pub fn candle_to_json(c: &Candle) -> (r: Vec<u8>)
    requires
        -100 * (COST_MAX_RAW as int) <= c.open@ <= 100 * (COST_MAX_RAW as int),
        -100 * (COST_MAX_RAW as int) <= c.high@ <= 100 * (COST_MAX_RAW as int),
        -100 * (COST_MAX_RAW as int) <= c.low@ <= 100 * (COST_MAX_RAW as int),
        -100 * (COST_MAX_RAW as int) <= c.close@ <= 100 * (COST_MAX_RAW as int),
        -100 * (COST_MAX_RAW as int) <= c.volume@ <= 100 * (COST_MAX_RAW as int),
        c.adj_close matches Some(a) ==> -100 * (COST_MAX_RAW as int) <= a@ <= 100 * (
        COST_MAX_RAW as int),
        RFC3339_MIN_MS as int <= c.time_ms <= RFC3339_MAX_MS as int,
    ensures
        r@ == spec_candle_json(*c),
{
    let mut out: Vec<u8> = Vec::new();
    proof {
        reveal_strlit("{\"time\":\"");
        reveal_strlit("\",\"open\":");
        reveal_strlit(",\"high\":");
        reveal_strlit(",\"low\":");
        reveal_strlit(",\"close\":");
        reveal_strlit(",\"adj_close\":");
        reveal_strlit("null");
        reveal_strlit(",\"volume\":");
        reveal_strlit(",\"is_final\":");
        reveal_strlit("true");
        reveal_strlit("false");
    }
    push_literal(&mut out, "{\"time\":\"");
    let mut tb = fmt_rfc3339(c.time_ms);
    out.append(&mut tb);
    push_literal(&mut out, "\",\"open\":");
    let mut ob = money_to_bytes(c.open);
    out.append(&mut ob);
    push_literal(&mut out, ",\"high\":");
    let mut hb = money_to_bytes(c.high);
    out.append(&mut hb);
    push_literal(&mut out, ",\"low\":");
    let mut lb = money_to_bytes(c.low);
    out.append(&mut lb);
    push_literal(&mut out, ",\"close\":");
    let mut cb = money_to_bytes(c.close);
    out.append(&mut cb);
    push_literal(&mut out, ",\"adj_close\":");
    match c.adj_close {
        Some(a) => {
            let mut ab = money_to_bytes(a);
            out.append(&mut ab);
        },
        None => {
            push_literal(&mut out, "null");
        },
    }
    push_literal(&mut out, ",\"volume\":");
    let mut vb = money_to_bytes(c.volume);
    out.append(&mut vb);
    push_literal(&mut out, ",\"is_final\":");
    if c.is_final {
        push_literal(&mut out, "true");
    } else {
        push_literal(&mut out, "false");
    }
    out.push(125);
    proof {
        assert(out@ =~= spec_candle_json(*c));
    }
    out
}

/// One metadata pair rendered as a JSON member.
pub open spec fn spec_metadata_item(kv: (String, String)) -> Seq<u8> {
    seq![34u8] + encode_utf8(kv.0@) + ascii_seq("\":\""@) + encode_utf8(kv.1@) + seq![34u8]
}

/// Metadata members joined by commas, in order.
pub open spec fn spec_metadata_items(pairs: Seq<(String, String)>) -> Seq<u8>
    decreases pairs.len(),
{
    if pairs.len() == 0 {
        Seq::empty()
    } else if pairs.len() == 1 {
        spec_metadata_item(pairs[0])
    } else {
        spec_metadata_items(pairs.drop_last()) + seq![44u8] + spec_metadata_item(pairs.last())
    }
}

/// The canonical JSON shape of a strategy signal: timestamp in epoch
/// milliseconds, the kind by name, and the metadata as a JSON object.
pub open spec fn spec_signal_json(sg: Signal) -> Seq<u8> {
    ascii_seq("{\"id\":\""@) + encode_utf8(sg.id@) + ascii_seq("\",\"symbol\":\""@) + encode_utf8(
        sg.symbol@,
    ) + ascii_seq("\",\"timestamp\":\""@) + rfc3339_bytes_of(sg.timestamp_ms as int)
        + ascii_seq("\",\"kind\":\""@) + spec_kind_bytes(sg.kind) + ascii_seq(
        "\",\"strategy_id\":\""@,
    ) + encode_utf8(sg.strategy_id@) + ascii_seq("\",\"metadata\":{"@) + spec_metadata_items(
        sg.metadata@,
    ) + ascii_seq("}}"@)
}

pub open spec fn spec_kind_bytes(k: SignalKind) -> Seq<u8> {
    match k {
        SignalKind::LongEntry => ascii_seq("LongEntry"@),
        SignalKind::ShortEntry => ascii_seq("ShortEntry"@),
        SignalKind::LongExit => ascii_seq("LongExit"@),
        SignalKind::ShortExit => ascii_seq("ShortExit"@),
        SignalKind::Alert => ascii_seq("Alert"@),
        SignalKind::Info => ascii_seq("Info"@),
    }
}

/// Render one signal as canonical JSON.
#[verifier::rlimit(80)]
pub fn signal_to_json(sg: &Signal) -> (r: Vec<u8>)
    requires
        RFC3339_MIN_MS as int <= sg.timestamp_ms <= RFC3339_MAX_MS as int,
    ensures
        r@ == spec_signal_json(*sg),
{
    let mut out: Vec<u8> = Vec::new();
    proof {
        reveal_strlit("{\"id\":\"");
        reveal_strlit("\",\"symbol\":\"");
        reveal_strlit("\",\"timestamp\":\"");
        reveal_strlit("\",\"kind\":\"");
        reveal_strlit("\",\"strategy_id\":\"");
        reveal_strlit("\",\"metadata\":{");
        reveal_strlit("}}");
        reveal_strlit("\":\"");
        reveal_strlit("LongEntry");
        reveal_strlit("ShortEntry");
        reveal_strlit("LongExit");
        reveal_strlit("ShortExit");
        reveal_strlit("Alert");
        reveal_strlit("Info");
    }
    push_literal(&mut out, "{\"id\":\"");
    push_slice(&mut out, sg.id.as_str().as_bytes());
    push_literal(&mut out, "\",\"symbol\":\"");
    push_slice(&mut out, sg.symbol.as_str().as_bytes());
    push_literal(&mut out, "\",\"timestamp\":\"");
    let mut tb = fmt_rfc3339(sg.timestamp_ms);
    out.append(&mut tb);
    push_literal(&mut out, "\",\"kind\":\"");
    match sg.kind {
        SignalKind::LongEntry => push_literal(&mut out, "LongEntry"),
        SignalKind::ShortEntry => push_literal(&mut out, "ShortEntry"),
        SignalKind::LongExit => push_literal(&mut out, "LongExit"),
        SignalKind::ShortExit => push_literal(&mut out, "ShortExit"),
        SignalKind::Alert => push_literal(&mut out, "Alert"),
        SignalKind::Info => push_literal(&mut out, "Info"),
    }
    push_literal(&mut out, "\",\"strategy_id\":\"");
    push_slice(&mut out, sg.strategy_id.as_str().as_bytes());
    push_literal(&mut out, "\",\"metadata\":{");
    let n = sg.metadata.len();
    let mut i: usize = 0;
    let ghost base = out@;
    proof {
        assert(spec_metadata_items(sg.metadata@.subrange(0, 0)) =~= Seq::<u8>::empty());
        assert(out@ =~= base + spec_metadata_items(sg.metadata@.subrange(0, 0)));
    }
    while i < n
        invariant
            n == sg.metadata@.len(),
            i <= n,
            out@ == base + spec_metadata_items(sg.metadata@.subrange(0, i as int)),
        decreases n - i,
    {
        proof {
            reveal_strlit("\":\"");
        }
        let ghost pre = sg.metadata@.subrange(0, i as int);
        if i > 0 {
            out.push(44);
        }
        out.push(34);
        push_slice(&mut out, sg.metadata[i].0.as_str().as_bytes());
        push_literal(&mut out, "\":\"");
        push_slice(&mut out, sg.metadata[i].1.as_str().as_bytes());
        out.push(34);
        proof {
            let cur = sg.metadata@.subrange(0, i as int + 1);
            assert(cur.drop_last() =~= pre);
            assert(cur.last() == sg.metadata@[i as int]);
            if i == 0 {
                assert(cur.len() == 1);
                assert(out@ =~= base + spec_metadata_items(cur));
            } else {
                assert(out@ =~= base + spec_metadata_items(cur));
            }
        }
        i += 1;
    }
    proof {
        assert(sg.metadata@.subrange(0, n as int) =~= sg.metadata@);
    }
    push_literal(&mut out, "}}");
    proof {
        assert(out@ =~= spec_signal_json(*sg));
    }
    out
}

/// Deserialize one signal from JSON. As with orders, acceptance is sound
/// by construction: a signal is returned only when the input is exactly
/// its canonical rendering.
pub fn parse_signal_json(s: &[u8]) -> (r: Option<Signal>)
    ensures
        r matches Some(sg) ==> s@ == spec_signal_json(sg),
{
    let mut cursor: usize = 0;
    let id = match read_string_field(s, &mut cursor, "{\"id\":\"") {
        Some(v) => v,
        None => {
            return None;
        },
    };
    let symbol = match read_string_field(s, &mut cursor, "\",\"symbol\":\"") {
        Some(v) => v,
        None => {
            return None;
        },
    };
    if !skip_literal(s, &mut cursor, "\",\"timestamp\":\"") {
        return None;
    }
    let ts_bytes = match take_until_quote(s, &mut cursor) {
        Some(v) => v,
        None => {
            return None;
        },
    };
    let timestamp_ms = match parse_rfc3339_ms(ts_bytes.as_slice()) {
        Some(v) => v,
        None => {
            return None;
        },
    };
    if !(RFC3339_MIN_MS <= timestamp_ms && timestamp_ms <= RFC3339_MAX_MS) {
        return None;
    }
    let kind_raw = match read_string_field(s, &mut cursor, "\",\"kind\":\"") {
        Some(v) => v,
        None => {
            return None;
        },
    };
    let kind = if crate::strutil::str_eq(kind_raw.as_str(), "LongEntry") {
        SignalKind::LongEntry
    } else if crate::strutil::str_eq(kind_raw.as_str(), "ShortEntry") {
        SignalKind::ShortEntry
    } else if crate::strutil::str_eq(kind_raw.as_str(), "LongExit") {
        SignalKind::LongExit
    } else if crate::strutil::str_eq(kind_raw.as_str(), "ShortExit") {
        SignalKind::ShortExit
    } else if crate::strutil::str_eq(kind_raw.as_str(), "Alert") {
        SignalKind::Alert
    } else if crate::strutil::str_eq(kind_raw.as_str(), "Info") {
        SignalKind::Info
    } else {
        return None;
    };
    let strategy_id = match read_string_field(s, &mut cursor, "\",\"strategy_id\":\"") {
        Some(v) => v,
        None => {
            return None;
        },
    };
    if !skip_literal(s, &mut cursor, "\",\"metadata\":{") {
        return None;
    }
    let mut metadata: Vec<(String, String)> = Vec::new();
    let n = s.len();
    if cursor < n && s[cursor] == 125 {
        cursor = cursor + 1;
    } else {
        loop
            invariant
                cursor <= n,
                n == s@.len(),
            ensures
                cursor <= n,
            decreases n - cursor,
        {
            if cursor >= n || s[cursor] != 34 {
                return None;
            }
            cursor = cursor + 1;
            let key = match take_until_quote(s, &mut cursor) {
                Some(v) => v,
                None => {
                    return None;
                },
            };
            if !skip_literal(s, &mut cursor, "\":\"") {
                return None;
            }
            let val = match take_until_quote(s, &mut cursor) {
                Some(v) => v,
                None => {
                    return None;
                },
            };
            let key_s = match bytes_to_string(key) {
                Some(v) => v,
                None => {
                    return None;
                },
            };
            let val_s = match bytes_to_string(val) {
                Some(v) => v,
                None => {
                    return None;
                },
            };
            metadata.push((key_s, val_s));
            if cursor >= n || s[cursor] != 34 {
                return None;
            }
            cursor = cursor + 1;
            if cursor < n && s[cursor] == 125 {
                cursor = cursor + 1;
                break;
            }
            if cursor < n && s[cursor] == 44 {
                cursor = cursor + 1;
            } else {
                return None;
            }
        }
    }
    if !(cursor < s.len() && s[cursor] == 125 && cursor + 1 == s.len()) {
        return None;
    }
    let candidate = Signal { id, symbol, timestamp_ms, kind, strategy_id, metadata };
    let rendered = signal_to_json(&candidate);
    if bytes_eq(rendered.as_slice(), s) {
        Some(candidate)
    } else {
        None
    }
}

} // verus!
