//! The sandbox host bridge's computational core: length-prefixed framing
//! of the bytecode ABI, the fetch-history window handed to strategies,
//! the JSON array they receive, and base64 decoding of uploaded sources.
//!
//! The embedding application owns the interpreters; everything a host
//! call decides or computes on plain values is here.

use vstd::prelude::*;
use vstd::string::StringSliceAdditionalSpecFns;
use crate::codec::{spec_candle_json, candle_to_json};
use crate::market::{Candle, candle_wf};

verus! {

/// Little-endian four-byte rendering of a length.
pub open spec fn spec_u32_le(n: int) -> Seq<u8> {
    seq![
        (n % 256) as u8,
        ((n / 256) % 256) as u8,
        ((n / 65536) % 256) as u8,
        ((n / 16777216) % 256) as u8,
    ]
}

/// The length a little-endian four-byte prefix denotes.
pub open spec fn le_u32_value(s: Seq<u8>) -> int {
    s[0] + 256 * s[1] + 65536 * s[2] + 16777216 * s[3]
}

/// The little-endian rendering reads back to the value.
pub proof fn lemma_u32_le_round_trip(n: int)
    requires
        0 <= n <= u32::MAX as int,
    ensures
        le_u32_value(spec_u32_le(n)) == n,
{
    assert((n % 256) + 256 * ((n / 256) % 256) + 65536 * ((n / 65536) % 256) + 16777216 * ((n
        / 16777216) % 256) == n) by (nonlinear_arith)
        requires
            0 <= n <= 0xFFFFFFFF,
    ;
}

/// Frame a payload for the bytecode ABI: a little-endian length, then
/// the bytes.
pub fn frame_payload(payload: &[u8]) -> (r: Vec<u8>)
    requires
        payload@.len() <= u32::MAX as int,
    ensures
        r@ == spec_u32_le(payload@.len() as int) + payload@,
{
    let n: u32 = payload.len() as u32;
    let mut out: Vec<u8> = Vec::new();
    out.push((n % 256) as u8);
    out.push(((n / 256) % 256) as u8);
    out.push(((n / 65536) % 256) as u8);
    out.push(((n / 16777216) % 256) as u8);
    crate::codec::push_slice(&mut out, payload);
    proof {
        assert(out@ =~= spec_u32_le(payload@.len() as int) + payload@);
    }
    out
}

/// Read one framed payload back: the prefix must be present and the
/// buffer must hold exactly as many bytes as it announces.
pub fn unframe_payload(buf: &[u8]) -> (r: Option<Vec<u8>>)
    ensures
        match r {
            Some(p) => {
                &&& buf@.len() >= 4
                &&& p@.len() == le_u32_value(buf@.subrange(0, 4))
                &&& p@ == buf@.subrange(4, buf@.len() as int)
            },
            None => buf@.len() < 4 || le_u32_value(buf@.subrange(0, 4)) != buf@.len() - 4,
        },
{
    if buf.len() < 4 {
        return None;
    }
    let n: u64 = (buf[0] as u64) + 256 * (buf[1] as u64) + 65536 * (buf[2] as u64) + 16777216 * (
    buf[3] as u64);
    if n != (buf.len() - 4) as u64 {
        return None;
    }
    let mut out: Vec<u8> = Vec::new();
    let len = buf.len();
    let mut i: usize = 4;
    proof {
        assert(out@ =~= buf@.subrange(4, 4));
    }
    while i < len
        invariant
            4 <= i <= len,
            len == buf@.len(),
            out@ == buf@.subrange(4, i as int),
        decreases len - i,
    {
        out.push(buf[i]);
        proof {
            assert(buf@.subrange(4, i as int + 1) =~= buf@.subrange(4, i as int).push(
                buf@[i as int],
            ));
        }
        i += 1;
    }
    Some(out)
}

/// Framing loses nothing: unframing a framed payload yields the payload.
pub proof fn lemma_frame_round_trip(payload: Seq<u8>)
    requires
        payload.len() <= u32::MAX as int,
    ensures
        ({
            let framed = spec_u32_le(payload.len() as int) + payload;
            &&& framed.len() >= 4
            &&& le_u32_value(framed.subrange(0, 4)) == framed.len() - 4
            &&& framed.subrange(4, framed.len() as int) == payload
        }),
{
    let framed = spec_u32_le(payload.len() as int) + payload;
    lemma_u32_le_round_trip(payload.len() as int);
    assert(framed.subrange(0, 4) =~= spec_u32_le(payload.len() as int));
    assert(framed.subrange(4, framed.len() as int) =~= payload);
}

/// The slice of history a strategy's `fetchHistory` receives: of the
/// bars not after `end_at_ms`, the most recent `limit`, still oldest
/// first.
pub open spec fn spec_history_window(cs: Seq<Candle>, limit: int, end_at_ms: int) -> Seq<Candle> {
    let eligible = cs.filter(|c: Candle| c.time_ms <= end_at_ms);
    if eligible.len() <= limit {
        eligible
    } else {
        eligible.subrange(eligible.len() - limit, eligible.len() as int)
    }
}

/// Select the history window. Every returned bar's time is at most
/// `end_at_ms`, at most `limit` bars come back, and their relative order
/// is the stored order.
pub fn history_window(candles: &Vec<Candle>, limit: usize, end_at_ms: i64) -> (r: Vec<Candle>)
    ensures
        r@ == spec_history_window(candles@, limit as int, end_at_ms as int),
        r@.len() <= limit,
        forall|i: int| 0 <= i < r@.len() ==> (#[trigger] r@[i]).time_ms <= end_at_ms,
{
    let ghost pred = |c: Candle| c.time_ms <= end_at_ms;
    let mut eligible: Vec<Candle> = Vec::new();
    let n = candles.len();
    let mut i: usize = 0;
    proof {
        assert(candles@.subrange(0, 0).filter(pred) =~= Seq::<Candle>::empty());
    }
    while i < n
        invariant
            n == candles@.len(),
            i <= n,
            pred == (|c: Candle| c.time_ms <= end_at_ms),
            eligible@ == candles@.subrange(0, i as int).filter(pred),
        decreases n - i,
    {
        let ghost pre = candles@.subrange(0, i as int);
        let c = candles[i];
        if c.time_ms <= end_at_ms {
            eligible.push(c);
        }
        proof {
            let cur = candles@.subrange(0, i as int + 1);
            assert(cur.drop_last() =~= pre);
            assert(cur.last() == candles@[i as int]);
            reveal_with_fuel(Seq::filter, 2);
        }
        i += 1;
    }
    proof {
        assert(candles@.subrange(0, n as int) =~= candles@);
    }
    let total = eligible.len();
    if total <= limit {
        proof {
            assert forall|k: int| 0 <= k < eligible@.len() implies (
            #[trigger] eligible@[k]).time_ms <= end_at_ms by {
                candles@.lemma_filter_pred(pred, k);
            }
        }
        eligible
    } else {
        let mut out: Vec<Candle> = Vec::new();
        let start = total - limit;
        let mut j: usize = start;
        proof {
            assert(out@ =~= eligible@.subrange(start as int, start as int));
        }
        while j < total
            invariant
                start <= j <= total,
                total == eligible@.len(),
                start == total - limit,
                out@ == eligible@.subrange(start as int, j as int),
            decreases total - j,
        {
            out.push(eligible[j]);
            proof {
                assert(eligible@.subrange(start as int, j as int + 1) =~= eligible@.subrange(
                    start as int,
                    j as int,
                ).push(eligible@[j as int]));
            }
            j += 1;
        }
        proof {
            assert(out@ == eligible@.subrange(start as int, total as int));
            assert forall|k: int| 0 <= k < out@.len() implies (#[trigger] out@[k]).time_ms
                <= end_at_ms by {
                candles@.lemma_filter_pred(pred, start as int + k);
            }
        }
        out
    }
}

/// The JSON array of a candle window, as `fetchHistory` returns it.
pub open spec fn spec_candles_json(cs: Seq<Candle>) -> Seq<u8> {
    seq![91u8] + spec_candles_items(cs) + seq![93u8]
}

pub open spec fn spec_candles_items(cs: Seq<Candle>) -> Seq<u8>
    decreases cs.len(),
{
    if cs.len() == 0 {
        Seq::empty()
    } else if cs.len() == 1 {
        spec_candle_json(cs[0])
    } else {
        spec_candles_items(cs.drop_last()) + seq![44u8] + spec_candle_json(cs.last())
    }
}

/// Render a candle window as a JSON array.
pub fn candles_to_json(cs: &Vec<Candle>) -> (r: Vec<u8>)
    requires
        forall|i: int| 0 <= i < cs@.len() ==> candle_wf(#[trigger] cs@[i]),
    ensures
        r@ == spec_candles_json(cs@),
{
    let mut out: Vec<u8> = Vec::new();
    out.push(91);
    let n = cs.len();
    let mut i: usize = 0;
    let ghost base = out@;
    proof {
        assert(spec_candles_items(cs@.subrange(0, 0)) =~= Seq::<u8>::empty());
        assert(out@ =~= base + spec_candles_items(cs@.subrange(0, 0)));
    }
    while i < n
        invariant
            n == cs@.len(),
            i <= n,
            forall|k: int| 0 <= k < cs@.len() ==> candle_wf(#[trigger] cs@[k]),
            out@ == base + spec_candles_items(cs@.subrange(0, i as int)),
        decreases n - i,
    {
        let ghost pre = cs@.subrange(0, i as int);
        if i > 0 {
            out.push(44);
        }
        let mut cj = candle_to_json(&cs[i]);
        out.append(&mut cj);
        proof {
            let cur = cs@.subrange(0, i as int + 1);
            assert(cur.drop_last() =~= pre);
            assert(cur.last() == cs@[i as int]);
            assert(out@ =~= base + spec_candles_items(cur));
        }
        i += 1;
    }
    proof {
        assert(cs@.subrange(0, n as int) =~= cs@);
    }
    out.push(93);
    proof {
        assert(out@ =~= spec_candles_json(cs@));
    }
    out
}

/// Value of one base64 alphabet byte.
pub open spec fn b64_val(b: u8) -> Option<int> {
    if 65 <= b <= 90 {
        Some((b - 65) as int)
    } else if 97 <= b <= 122 {
        Some((b - 97 + 26) as int)
    } else if 48 <= b <= 57 {
        Some((b - 48 + 52) as int)
    } else if b == 43 {
        Some(62)
    } else if b == 47 {
        Some(63)
    } else {
        None
    }
}

/// Two to the `k`.
pub open spec fn pow2_small(k: nat) -> int
    decreases k,
{
    if k == 0 {
        1
    } else {
        2 * pow2_small((k - 1) as nat)
    }
}

/// Base64 bit accumulation: six bits per alphabet byte, a byte emitted
/// whenever eight or more bits have accumulated. The carried state is
/// `buf`, holding `bits` bits.
pub open spec fn spec_b64_decode(s: Seq<u8>, buf: int, bits: nat) -> Option<Seq<u8>>
    decreases s.len(),
{
    if s.len() == 0 {
        Some(Seq::empty())
    } else {
        match b64_val(s.first()) {
            None => None,
            Some(v) => {
                let nb = buf * 64 + v;
                if bits + 6 >= 8 {
                    let out_bits = (bits + 6 - 8) as nat;
                    let byte = nb / pow2_small(out_bits);
                    let rem = nb % pow2_small(out_bits);
                    match spec_b64_decode(s.drop_first(), rem, out_bits) {
                        Some(rest) => Some(seq![byte as u8] + rest),
                        None => None,
                    }
                } else {
                    spec_b64_decode(s.drop_first(), nb, (bits + 6) as nat)
                }
            },
        }
    }
}

/// Strip trailing padding bytes.
pub open spec fn strip_padding(s: Seq<u8>) -> Seq<u8>
    decreases s.len(),
{
    if s.len() > 0 && s.last() == 61 {
        strip_padding(s.drop_last())
    } else {
        s
    }
}

/// Decode a base64 string, ignoring trailing padding; any byte outside
/// the alphabet is rejected.
pub fn base64_decode(input: &str) -> (r: Result<Vec<u8>, String>)
    ensures
        match r {
            Ok(out) => spec_b64_decode(strip_padding(input.spec_bytes()), 0, 0) == Some(out@),
            Err(_) => spec_b64_decode(strip_padding(input.spec_bytes()), 0, 0) is None,
        },
{
    let s = input.as_bytes();
    proof {
        assert(s@ == input.spec_bytes());
        assert(s@.subrange(0, s@.len() as int) =~= s@);
    }
    let mut end = s.len();
    while end > 0 && s[end - 1] == 61
        invariant
            end <= s@.len(),
            strip_padding(s@) == strip_padding(s@.subrange(0, end as int)),
        decreases end,
    {
        proof {
            let cur = s@.subrange(0, end as int);
            assert(cur.last() == s@[end - 1]);
            assert(cur.drop_last() =~= s@.subrange(0, end as int - 1));
        }
        end = end - 1;
    }
    let ghost trimmed = strip_padding(s@);
    proof {
        let cur = s@.subrange(0, end as int);
        if end > 0 {
            assert(cur.last() == s@[end - 1]);
        }
        assert(strip_padding(cur) == cur);
        assert(trimmed == cur);
    }
    let mut out: Vec<u8> = Vec::new();
    let mut buf: u32 = 0;
    let mut bits: u32 = 0;
    let mut i: usize = 0;
    proof {
        assert(trimmed.subrange(0, trimmed.len() as int) =~= trimmed);
        reveal_with_fuel(pow2_small, 8);
    }
    while i < end
        invariant
            i <= end,
            end <= s@.len(),
            trimmed == s@.subrange(0, end as int),
            trimmed == strip_padding(input.spec_bytes()),
            bits == 0 || bits == 2 || bits == 4 || bits == 6,
            buf < pow2_small(bits as nat),
            (match spec_b64_decode(
                trimmed.subrange(i as int, trimmed.len() as int),
                buf as int,
                bits as nat,
            ) {
                Some(rest) => spec_b64_decode(trimmed, 0, 0) == Some(out@ + rest),
                None => spec_b64_decode(trimmed, 0, 0) is None,
            }),
        decreases end - i,
    {
        let ghost remaining = trimmed.subrange(i as int, trimmed.len() as int);
        proof {
            reveal_with_fuel(pow2_small, 8);
            assert(remaining.first() == trimmed[i as int]);
            assert(remaining.drop_first() =~= trimmed.subrange(i as int + 1, trimmed.len() as int));
        }
        let b = s[i];
        let v: u32 = if 65 <= b && b <= 90 {
            (b - 65) as u32
        } else if 97 <= b && b <= 122 {
            (b - 97 + 26) as u32
        } else if 48 <= b && b <= 57 {
            (b - 48 + 52) as u32
        } else if b == 43 {
            62
        } else if b == 47 {
            63
        } else {
            proof {
                assert(b64_val(remaining.first()) is None);
                assert(spec_b64_decode(remaining, buf as int, bits as nat) is None);
                assert(spec_b64_decode(trimmed, 0, 0) is None);
                assert(trimmed == strip_padding(input.spec_bytes()));
            }
            return Err(input.to_owned());
        };
        let nb = buf * 64 + v;
        if bits + 6 >= 8 {
            let out_bits = bits + 6 - 8;
            let divisor: u32 = if out_bits == 0 {
                1
            } else if out_bits == 2 {
                4
            } else {
                16
            };
            proof {
                assert(divisor == pow2_small(out_bits as nat));
                assert(nb / divisor < 256) by {
                    assert(buf < pow2_small(bits as nat));
                    assert(nb < pow2_small(bits as nat) * 64);
                    assert(pow2_small(bits as nat) * 64 == 256 * pow2_small(out_bits as nat));
                    vstd::arithmetic::div_mod::lemma_multiply_divide_lt(
                        nb as int,
                        divisor as int,
                        256,
                    );
                }
            }
            out.push((nb / divisor) as u8);
            buf = nb % divisor;
            bits = out_bits;
            proof {
                assert((out@ + seq![(nb / divisor) as u8]) + spec_b64_decode(
                    trimmed.subrange(i as int + 1, trimmed.len() as int),
                    buf as int,
                    bits as nat,
                ).unwrap_or(Seq::empty()) =~= out@ + (seq![(nb / divisor) as u8]
                    + spec_b64_decode(
                    trimmed.subrange(i as int + 1, trimmed.len() as int),
                    buf as int,
                    bits as nat,
                ).unwrap_or(Seq::empty())));
            }
        } else {
            buf = nb;
            bits = bits + 6;
        }
        i += 1;
    }
    proof {
        assert(trimmed.subrange(end as int, trimmed.len() as int) =~= Seq::<u8>::empty());
        assert(out@ + Seq::<u8>::empty() =~= out@);
    }
    Ok(out)
}

} // verus!
