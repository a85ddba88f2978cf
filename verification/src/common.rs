//! Shared domain types: security identity, timeframes and time providers.

use vstd::prelude::*;
use vstd::string::StringSliceAdditionalSpecFns;

verus! {

/// A security the system watches: a trading symbol with an optional
/// exchange code.
#[derive(Clone, Debug)]
pub struct Stock {
    pub symbol: String,
    pub exchange: Option<String>,
}

/// Timeframe of one candle: the closed set of bar widths the engine
/// supports.
#[derive(Clone, Copy, Debug, PartialEq, Eq, Structural, Hash)]
pub enum TimeFrame {
    Minute1,
    Minute5,
    Hour1,
    Day1,
}

/// Canonical short code of a timeframe.
pub open spec fn spec_tf_code(tf: TimeFrame) -> Seq<char> {
    match tf {
        TimeFrame::Minute1 => "1m"@,
        TimeFrame::Minute5 => "5m"@,
        TimeFrame::Hour1 => "1h"@,
        TimeFrame::Day1 => "1d"@,
    }
}

/// A byte with any ASCII upper-case letter folded to lower case.
pub open spec fn ascii_lower_byte(b: u8) -> u8 {
    if 65 <= b <= 90 {
        (b + 32) as u8
    } else {
        b
    }
}

/// The bytes with every ASCII upper-case letter folded to lower case.
pub open spec fn ascii_lower_bytes(s: Seq<u8>) -> Seq<u8> {
    Seq::new(s.len(), |i: int| ascii_lower_byte(s[i]))
}

/// The timeframe named by a string, compared without regard to ASCII
/// case: the canonical short code or the long form.
pub open spec fn spec_tf_from(s: Seq<u8>) -> Option<TimeFrame> {
    let l = ascii_lower_bytes(s);
    if l == crate::codec::ascii_seq("1m"@) || l == crate::codec::ascii_seq("minute1"@) {
        Some(TimeFrame::Minute1)
    } else if l == crate::codec::ascii_seq("5m"@) || l == crate::codec::ascii_seq("minute5"@) {
        Some(TimeFrame::Minute5)
    } else if l == crate::codec::ascii_seq("1h"@) || l == crate::codec::ascii_seq("hour1"@) {
        Some(TimeFrame::Hour1)
    } else if l == crate::codec::ascii_seq("1d"@) || l == crate::codec::ascii_seq("day1"@) {
        Some(TimeFrame::Day1)
    } else {
        None
    }
}

impl TimeFrame {
    /// Parse a timeframe name; the canonical short codes and the long
    /// forms are accepted in any ASCII case.
    pub fn from_str(s: &str) -> (r: Result<TimeFrame, String>)
        ensures
            match r {
                Ok(tf) => spec_tf_from(s.spec_bytes()) == Some(tf),
                Err(_) => spec_tf_from(s.spec_bytes()) is None,
            },
    {
        let raw = s.as_bytes();
        let mut lowered: Vec<u8> = Vec::new();
        let n = raw.len();
        let mut i: usize = 0;
        while i < n
            invariant
                n == raw@.len(),
                i <= n,
                lowered@ == ascii_lower_bytes(raw@).subrange(0, i as int),
            decreases n - i,
        {
            let b = raw[i];
            let folded = if 65 <= b && b <= 90 {
                b + 32
            } else {
                b
            };
            lowered.push(folded);
            proof {
                assert(ascii_lower_bytes(raw@).subrange(0, i as int + 1) =~= ascii_lower_bytes(
                    raw@,
                ).subrange(0, i as int).push(ascii_lower_byte(raw@[i as int])));
            }
            i += 1;
        }
        let c_1m = "1m";
        let c_5m = "5m";
        let c_1h = "1h";
        let c_1d = "1d";
        let c_minute1 = "minute1";
        let c_minute5 = "minute5";
        let c_hour1 = "hour1";
        let c_day1 = "day1";
        proof {
            assert(ascii_lower_bytes(raw@).subrange(0, n as int) =~= ascii_lower_bytes(raw@));
            reveal_strlit("1m");
            reveal_strlit("5m");
            reveal_strlit("1h");
            reveal_strlit("1d");
            reveal_strlit("minute1");
            reveal_strlit("minute5");
            reveal_strlit("hour1");
            reveal_strlit("day1");
            assert(vstd::string::is_ascii(c_1m));
            vstd::string::is_ascii_spec_bytes(c_1m);
            assert(c_1m.spec_bytes() =~= crate::codec::ascii_seq(c_1m@));
            assert(vstd::string::is_ascii(c_5m));
            vstd::string::is_ascii_spec_bytes(c_5m);
            assert(c_5m.spec_bytes() =~= crate::codec::ascii_seq(c_5m@));
            assert(vstd::string::is_ascii(c_1h));
            vstd::string::is_ascii_spec_bytes(c_1h);
            assert(c_1h.spec_bytes() =~= crate::codec::ascii_seq(c_1h@));
            assert(vstd::string::is_ascii(c_1d));
            vstd::string::is_ascii_spec_bytes(c_1d);
            assert(c_1d.spec_bytes() =~= crate::codec::ascii_seq(c_1d@));
            assert(vstd::string::is_ascii(c_minute1));
            vstd::string::is_ascii_spec_bytes(c_minute1);
            assert(c_minute1.spec_bytes() =~= crate::codec::ascii_seq(c_minute1@));
            assert(vstd::string::is_ascii(c_minute5));
            vstd::string::is_ascii_spec_bytes(c_minute5);
            assert(c_minute5.spec_bytes() =~= crate::codec::ascii_seq(c_minute5@));
            assert(vstd::string::is_ascii(c_hour1));
            vstd::string::is_ascii_spec_bytes(c_hour1);
            assert(c_hour1.spec_bytes() =~= crate::codec::ascii_seq(c_hour1@));
            assert(vstd::string::is_ascii(c_day1));
            vstd::string::is_ascii_spec_bytes(c_day1);
            assert(c_day1.spec_bytes() =~= crate::codec::ascii_seq(c_day1@));
        }
        if crate::codec::bytes_eq(lowered.as_slice(), c_1m.as_bytes()) || crate::codec::bytes_eq(
            lowered.as_slice(),
            c_minute1.as_bytes(),
        ) {
            Ok(TimeFrame::Minute1)
        } else if crate::codec::bytes_eq(lowered.as_slice(), c_5m.as_bytes())
            || crate::codec::bytes_eq(lowered.as_slice(), c_minute5.as_bytes()) {
            Ok(TimeFrame::Minute5)
        } else if crate::codec::bytes_eq(lowered.as_slice(), c_1h.as_bytes())
            || crate::codec::bytes_eq(lowered.as_slice(), c_hour1.as_bytes()) {
            Ok(TimeFrame::Hour1)
        } else if crate::codec::bytes_eq(lowered.as_slice(), c_1d.as_bytes())
            || crate::codec::bytes_eq(lowered.as_slice(), c_day1.as_bytes()) {
            Ok(TimeFrame::Day1)
        } else {
            Err(s.to_owned())
        }
    }

    /// The canonical short code of this timeframe.
    pub fn code(&self) -> (r: &'static str)
        ensures
            r@ == spec_tf_code(*self),
    {
        match self {
            TimeFrame::Minute1 => "1m",
            TimeFrame::Minute5 => "5m",
            TimeFrame::Hour1 => "1h",
            TimeFrame::Day1 => "1d",
        }
    }

    /// Width of one bar of this timeframe, in milliseconds.
    pub fn duration_ms(&self) -> (r: i64)
        ensures
            r == spec_tf_duration_ms(*self),
            r > 0,
    {
        match self {
            TimeFrame::Minute1 => 60_000,
            TimeFrame::Minute5 => 300_000,
            TimeFrame::Hour1 => 3_600_000,
            TimeFrame::Day1 => 86_400_000,
        }
    }
}

/// Width of one bar, in milliseconds.
pub open spec fn spec_tf_duration_ms(tf: TimeFrame) -> int {
    match tf {
        TimeFrame::Minute1 => 60_000,
        TimeFrame::Minute5 => 300_000,
        TimeFrame::Hour1 => 3_600_000,
        TimeFrame::Day1 => 86_400_000,
    }
}

/// The short codes and the timeframes are in bijection: parsing the
/// canonical code of any timeframe yields that timeframe back.
pub proof fn lemma_tf_code_round_trip(tf: TimeFrame)
    ensures
        spec_tf_from(crate::codec::ascii_seq(spec_tf_code(tf))) == Some(tf),
{
    reveal_strlit("1m");
    reveal_strlit("5m");
    reveal_strlit("1h");
    reveal_strlit("1d");
    reveal_strlit("minute1");
    reveal_strlit("minute5");
    reveal_strlit("hour1");
    reveal_strlit("day1");
    let b1m = crate::codec::ascii_seq("1m"@);
    let b5m = crate::codec::ascii_seq("5m"@);
    let b1h = crate::codec::ascii_seq("1h"@);
    let b1d = crate::codec::ascii_seq("1d"@);
    let bmin1 = crate::codec::ascii_seq("minute1"@);
    let bmin5 = crate::codec::ascii_seq("minute5"@);
    assert(ascii_lower_bytes(b1m) =~= b1m);
    assert(ascii_lower_bytes(b5m) =~= b5m);
    assert(ascii_lower_bytes(b1h) =~= b1h);
    assert(ascii_lower_bytes(b1d) =~= b1d);
    assert(b1m != b5m) by {
        assert(b1m[0] != b5m[0]);
    }
    assert(b1m != b1h) by {
        assert(b1m[1] != b1h[1]);
    }
    assert(b1m != b1d) by {
        assert(b1m[1] != b1d[1]);
    }
    assert(b5m != b1h) by {
        assert(b5m[0] != b1h[0]);
    }
    assert(b5m != b1d) by {
        assert(b5m[0] != b1d[0]);
    }
    assert(b1h != b1d) by {
        assert(b1h[1] != b1d[1]);
    }
    assert(b5m != bmin1 && b1h != bmin1 && b1d != bmin1 && b1h != bmin5 && b1d != bmin5 && b1d
        != crate::codec::ascii_seq("hour1"@)) by {
        assert(b5m.len() == 2 && bmin1.len() == 7 && bmin5.len() == 7 && crate::codec::ascii_seq(
            "hour1"@,
        ).len() == 5);
    }
}

/// The real clock, for live trading.
pub struct RealTimeProvider;

impl RealTimeProvider {
    pub fn new() -> RealTimeProvider {
        RealTimeProvider
    }

    /// Milliseconds since the epoch of the operating-system clock.
    /// Relies on chrono::Utc::now, which expects the system clock not to
    /// stand before the epoch; nothing is promised of the value read.
    #[verifier::external_body]
    pub fn now_ms(&self) -> i64 {
        chrono::Utc::now().timestamp_millis()
    }
}

/// The controlled virtual clock used by backtests: its time moves only
/// when a driver sets it.
pub struct FakeClockProvider {
    pub current_ms: i64,
}

impl FakeClockProvider {
    /// A virtual clock starting at `initial_ms`.
    pub fn new(initial_ms: i64) -> (r: FakeClockProvider)
        ensures
            r.current_ms == initial_ms,
    {
        FakeClockProvider { current_ms: initial_ms }
    }

    /// Move the clock to `new_ms`.
    pub fn set_time(&mut self, new_ms: i64)
        ensures
            final(self).current_ms == new_ms,
    {
        self.current_ms = new_ms;
    }

    /// The current virtual time, in milliseconds since the epoch.
    pub fn now_ms(&self) -> (r: i64)
        ensures
            r == self.current_ms,
    {
        self.current_ms
    }
}

/// A fresh universally unique identifier, in hyphenated string form.
/// Relies on uuid::Uuid::new_v4, whose output is random; nothing is
/// promised of the value.
#[verifier::external_body]
pub fn fresh_uuid() -> String {
    uuid::Uuid::new_v4().to_string()
}

} // verus!
