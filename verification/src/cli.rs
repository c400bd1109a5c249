use std::str::FromStr;

use vstd::prelude::*;
use vstd::utf8::decode_utf8;
use vstd::utf8::encode_utf8;
use vstd::utf8::encode_utf8_decode_utf8;

verus! {

/// The command line: the asset to watch (such as `BTC` or `xyz:CL`), the
/// candle interval and the window width in logical pixels.
pub struct Args {
    pub coin: String,
    pub interval: Interval,
    pub width: u32,
}

/// A candle interval.
#[derive(Clone, Copy, Debug, PartialEq, Eq, Structural)]
pub enum Interval {
    M1,
    M3,
    M5,
    M15,
    M30,
    H1,
    H2,
    H4,
    H8,
    H12,
    D1,
    D3,
    W1,
    Mo1,
}

impl Interval {
    /// The name the candle service gives the interval.
    pub open spec fn hl_label(self) -> Seq<char> {
        match self {
            Interval::M1 => "1m"@,
            Interval::M3 => "3m"@,
            Interval::M5 => "5m"@,
            Interval::M15 => "15m"@,
            Interval::M30 => "30m"@,
            Interval::H1 => "1h"@,
            Interval::H2 => "2h"@,
            Interval::H4 => "4h"@,
            Interval::H8 => "8h"@,
            Interval::H12 => "12h"@,
            Interval::D1 => "1d"@,
            Interval::D3 => "3d"@,
            Interval::W1 => "1w"@,
            Interval::Mo1 => "1M"@,
        }
    }

    /// The length of one candle in milliseconds (a month counts 30 days).
    pub open spec fn period_ms(self) -> u64 {
        match self {
            Interval::M1 => 60_000,
            Interval::M3 => 180_000,
            Interval::M5 => 300_000,
            Interval::M15 => 900_000,
            Interval::M30 => 1_800_000,
            Interval::H1 => 3_600_000,
            Interval::H2 => 7_200_000,
            Interval::H4 => 14_400_000,
            Interval::H8 => 28_800_000,
            Interval::H12 => 43_200_000,
            Interval::D1 => 86_400_000,
            Interval::D3 => 259_200_000,
            Interval::W1 => 604_800_000,
            Interval::Mo1 => 2_592_000_000,
        }
    }

    /// The name of the interval on the command line.
    pub open spec fn cli_name(self) -> Seq<char> {
        match self {
            Interval::M1 => "m1"@,
            Interval::M3 => "m3"@,
            Interval::M5 => "m5"@,
            Interval::M15 => "m15"@,
            Interval::M30 => "m30"@,
            Interval::H1 => "h1"@,
            Interval::H2 => "h2"@,
            Interval::H4 => "h4"@,
            Interval::H8 => "h8"@,
            Interval::H12 => "h12"@,
            Interval::D1 => "d1"@,
            Interval::D3 => "d3"@,
            Interval::W1 => "w1"@,
            Interval::Mo1 => "M1"@,
        }
    }

    /// The name the candle service gives the interval.
    pub fn to_hl(&self) -> (r: &'static str)
        ensures
            r@ == self.hl_label(),
    {
        match self {
            Interval::M1 => "1m",
            Interval::M3 => "3m",
            Interval::M5 => "5m",
            Interval::M15 => "15m",
            Interval::M30 => "30m",
            Interval::H1 => "1h",
            Interval::H2 => "2h",
            Interval::H4 => "4h",
            Interval::H8 => "8h",
            Interval::H12 => "12h",
            Interval::D1 => "1d",
            Interval::D3 => "3d",
            Interval::W1 => "1w",
            Interval::Mo1 => "1M",
        }
    }

    /// Milliseconds per candle, used for bootstrap startTime calculation.
    pub fn millis(&self) -> (r: u64)
        ensures
            r == self.period_ms(),
    {
        match self {
            Interval::M1 => 60_000,
            Interval::M3 => 180_000,
            Interval::M5 => 300_000,
            Interval::M15 => 900_000,
            Interval::M30 => 1_800_000,
            Interval::H1 => 3_600_000,
            Interval::H2 => 7_200_000,
            Interval::H4 => 14_400_000,
            Interval::H8 => 28_800_000,
            Interval::H12 => 43_200_000,
            Interval::D1 => 86_400_000,
            Interval::D3 => 259_200_000,
            Interval::W1 => 604_800_000,
            Interval::Mo1 => 2_592_000_000,
        }
    }
}

/// The interval that the command line text `s` names, if any.
pub open spec fn interval_named(s: Seq<char>) -> Option<Interval> {
    if s == "m1"@ {
        Some(Interval::M1)
    } else if s == "m3"@ {
        Some(Interval::M3)
    } else if s == "m5"@ {
        Some(Interval::M5)
    } else if s == "m15"@ {
        Some(Interval::M15)
    } else if s == "m30"@ {
        Some(Interval::M30)
    } else if s == "h1"@ {
        Some(Interval::H1)
    } else if s == "h2"@ {
        Some(Interval::H2)
    } else if s == "h4"@ {
        Some(Interval::H4)
    } else if s == "h8"@ {
        Some(Interval::H8)
    } else if s == "h12"@ {
        Some(Interval::H12)
    } else if s == "d1"@ {
        Some(Interval::D1)
    } else if s == "d3"@ {
        Some(Interval::D3)
    } else if s == "w1"@ {
        Some(Interval::W1)
    } else if s == "M1"@ {
        Some(Interval::Mo1)
    } else {
        None
    }
}

/// The message for a command line text that names no interval.
pub open spec fn unknown_interval_message(s: Seq<char>) -> Seq<char> {
    "unknown interval '"@ + s + "', try m1 m5 h1 etc."@
}

/// Whether two texts are the same, compared by their UTF-8 bytes.
pub(crate) fn same_text(a: &str, b: &str) -> (r: bool)
    ensures
        r == (a@ == b@),
{
    let x = a.as_bytes();
    let y = b.as_bytes();
    if x.len() != y.len() {
        return false;
    }
    let mut i: usize = 0;
    while i < x.len()
        invariant
            x@.len() == y@.len(),
            x@ == encode_utf8(a@),
            y@ == encode_utf8(b@),
            i <= x@.len(),
            forall|j: int| 0 <= j < i ==> x@[j] == y@[j],
        decreases x@.len() - i,
    {
        if x[i] != y[i] {
            return false;
        }
        i = i + 1;
    }
    proof {
        assert(x@ =~= y@);
        encode_utf8_decode_utf8(a@);
        encode_utf8_decode_utf8(b@);
        assert(decode_utf8(x@) == decode_utf8(y@));
    }
    true
}

impl FromStr for Interval {
    type Err = String;

    /// Reads an interval from its command line name (`m1` ... `M1`).
    fn from_str(s: &str) -> (r: Result<Self, Self::Err>)
        ensures
            match r {
                Ok(i) => interval_named(s@) == Some(i),
                Err(e) => interval_named(s@) is None && e@ == unknown_interval_message(s@),
            },
    {
        if same_text(s, "m1") {
            Ok(Interval::M1)
        } else if same_text(s, "m3") {
            Ok(Interval::M3)
        } else if same_text(s, "m5") {
            Ok(Interval::M5)
        } else if same_text(s, "m15") {
            Ok(Interval::M15)
        } else if same_text(s, "m30") {
            Ok(Interval::M30)
        } else if same_text(s, "h1") {
            Ok(Interval::H1)
        } else if same_text(s, "h2") {
            Ok(Interval::H2)
        } else if same_text(s, "h4") {
            Ok(Interval::H4)
        } else if same_text(s, "h8") {
            Ok(Interval::H8)
        } else if same_text(s, "h12") {
            Ok(Interval::H12)
        } else if same_text(s, "d1") {
            Ok(Interval::D1)
        } else if same_text(s, "d3") {
            Ok(Interval::D3)
        } else if same_text(s, "w1") {
            Ok(Interval::W1)
        } else if same_text(s, "M1") {
            Ok(Interval::Mo1)
        } else {
            let mut msg = "unknown interval '".to_owned();
            msg.append(s);
            msg.append("', try m1 m5 h1 etc.");
            Err(msg)
        }
    }
}

/// Every interval is read back from its own command line name.
pub proof fn lemma_cli_name_round_trip(i: Interval)
    ensures
        interval_named(i.cli_name()) == Some(i),
{
    reveal_strlit("m1");
    reveal_strlit("m3");
    reveal_strlit("m5");
    reveal_strlit("m15");
    reveal_strlit("m30");
    reveal_strlit("h1");
    reveal_strlit("h2");
    reveal_strlit("h4");
    reveal_strlit("h8");
    reveal_strlit("h12");
    reveal_strlit("d1");
    reveal_strlit("d3");
    reveal_strlit("w1");
    reveal_strlit("M1");
    assert("m1"@.len() == 2 && "m1"@[0] == 'm' && "m1"@[1] == '1');
    assert("m3"@.len() == 2 && "m3"@[0] == 'm' && "m3"@[1] == '3');
    assert("m5"@.len() == 2 && "m5"@[0] == 'm' && "m5"@[1] == '5');
    assert("m15"@.len() == 3 && "m15"@[0] == 'm' && "m15"@[1] == '1' && "m15"@[2] == '5');
    assert("m30"@.len() == 3 && "m30"@[0] == 'm' && "m30"@[1] == '3' && "m30"@[2] == '0');
    assert("h1"@.len() == 2 && "h1"@[0] == 'h' && "h1"@[1] == '1');
    assert("h2"@.len() == 2 && "h2"@[0] == 'h' && "h2"@[1] == '2');
    assert("h4"@.len() == 2 && "h4"@[0] == 'h' && "h4"@[1] == '4');
    assert("h8"@.len() == 2 && "h8"@[0] == 'h' && "h8"@[1] == '8');
    assert("h12"@.len() == 3 && "h12"@[0] == 'h' && "h12"@[1] == '1' && "h12"@[2] == '2');
    assert("d1"@.len() == 2 && "d1"@[0] == 'd' && "d1"@[1] == '1');
    assert("d3"@.len() == 2 && "d3"@[0] == 'd' && "d3"@[1] == '3');
    assert("w1"@.len() == 2 && "w1"@[0] == 'w' && "w1"@[1] == '1');
    assert("M1"@.len() == 2 && "M1"@[0] == 'M' && "M1"@[1] == '1');
}

/// The time unit a command line name starts with, in milliseconds: minute,
/// hour, day, week or (30-day) month.
pub open spec fn unit_ms(u: char) -> int {
    if u == 'm' {
        60_000
    } else if u == 'h' {
        3_600_000
    } else if u == 'd' {
        86_400_000
    } else if u == 'w' {
        604_800_000
    } else if u == 'M' {
        2_592_000_000
    } else {
        0
    }
}

/// The number written in decimal digits by `s`.
pub open spec fn decimal_value(s: Seq<char>) -> int
    decreases s.len(),
{
    if s.len() == 0 {
        0
    } else {
        decimal_value(s.drop_last()) * 10 + (s.last() as int - '0' as int)
    }
}

/// The candle length follows from the command line name: the count written
/// after the unit letter times the length of that unit (`m15` is 15 minutes,
/// `M1` one 30-day month).
pub proof fn lemma_period_from_name(i: Interval)
    ensures
        i.period_ms() == decimal_value(i.cli_name().subrange(1, i.cli_name().len() as int))
            * unit_ms(i.cli_name()[0]),
{
    match i {
        Interval::M1 => {
            reveal_strlit("m1");
            assert("m1"@.len() == 2 && "m1"@[0] == 'm' && "m1"@[1] == '1');
            assert("m1"@.subrange(1, 2) =~= seq!['1']);
            reveal_with_fuel(decimal_value, 2);
            assert(seq!['1'].drop_last() =~= seq![]);
        },
        Interval::M3 => {
            reveal_strlit("m3");
            assert("m3"@.len() == 2 && "m3"@[0] == 'm' && "m3"@[1] == '3');
            assert("m3"@.subrange(1, 2) =~= seq!['3']);
            reveal_with_fuel(decimal_value, 2);
            assert(seq!['3'].drop_last() =~= seq![]);
        },
        Interval::M5 => {
            reveal_strlit("m5");
            assert("m5"@.len() == 2 && "m5"@[0] == 'm' && "m5"@[1] == '5');
            assert("m5"@.subrange(1, 2) =~= seq!['5']);
            reveal_with_fuel(decimal_value, 2);
            assert(seq!['5'].drop_last() =~= seq![]);
        },
        Interval::M15 => {
            reveal_strlit("m15");
            assert("m15"@.len() == 3 && "m15"@[0] == 'm' && "m15"@[1] == '1' && "m15"@[2] == '5');
            assert("m15"@.subrange(1, 3) =~= seq!['1', '5']);
            reveal_with_fuel(decimal_value, 3);
            assert(seq!['1', '5'].drop_last() =~= seq!['1']);
        },
        Interval::M30 => {
            reveal_strlit("m30");
            assert("m30"@.len() == 3 && "m30"@[0] == 'm' && "m30"@[1] == '3' && "m30"@[2] == '0');
            assert("m30"@.subrange(1, 3) =~= seq!['3', '0']);
            reveal_with_fuel(decimal_value, 3);
            assert(seq!['3', '0'].drop_last() =~= seq!['3']);
        },
        Interval::H1 => {
            reveal_strlit("h1");
            assert("h1"@.len() == 2 && "h1"@[0] == 'h' && "h1"@[1] == '1');
            assert("h1"@.subrange(1, 2) =~= seq!['1']);
            reveal_with_fuel(decimal_value, 2);
            assert(seq!['1'].drop_last() =~= seq![]);
        },
        Interval::H2 => {
            reveal_strlit("h2");
            assert("h2"@.len() == 2 && "h2"@[0] == 'h' && "h2"@[1] == '2');
            assert("h2"@.subrange(1, 2) =~= seq!['2']);
            reveal_with_fuel(decimal_value, 2);
            assert(seq!['2'].drop_last() =~= seq![]);
        },
        Interval::H4 => {
            reveal_strlit("h4");
            assert("h4"@.len() == 2 && "h4"@[0] == 'h' && "h4"@[1] == '4');
            assert("h4"@.subrange(1, 2) =~= seq!['4']);
            reveal_with_fuel(decimal_value, 2);
            assert(seq!['4'].drop_last() =~= seq![]);
        },
        Interval::H8 => {
            reveal_strlit("h8");
            assert("h8"@.len() == 2 && "h8"@[0] == 'h' && "h8"@[1] == '8');
            assert("h8"@.subrange(1, 2) =~= seq!['8']);
            reveal_with_fuel(decimal_value, 2);
            assert(seq!['8'].drop_last() =~= seq![]);
        },
        Interval::H12 => {
            reveal_strlit("h12");
            assert("h12"@.len() == 3 && "h12"@[0] == 'h' && "h12"@[1] == '1' && "h12"@[2] == '2');
            assert("h12"@.subrange(1, 3) =~= seq!['1', '2']);
            reveal_with_fuel(decimal_value, 3);
            assert(seq!['1', '2'].drop_last() =~= seq!['1']);
        },
        Interval::D1 => {
            reveal_strlit("d1");
            assert("d1"@.len() == 2 && "d1"@[0] == 'd' && "d1"@[1] == '1');
            assert("d1"@.subrange(1, 2) =~= seq!['1']);
            reveal_with_fuel(decimal_value, 2);
            assert(seq!['1'].drop_last() =~= seq![]);
        },
        Interval::D3 => {
            reveal_strlit("d3");
            assert("d3"@.len() == 2 && "d3"@[0] == 'd' && "d3"@[1] == '3');
            assert("d3"@.subrange(1, 2) =~= seq!['3']);
            reveal_with_fuel(decimal_value, 2);
            assert(seq!['3'].drop_last() =~= seq![]);
        },
        Interval::W1 => {
            reveal_strlit("w1");
            assert("w1"@.len() == 2 && "w1"@[0] == 'w' && "w1"@[1] == '1');
            assert("w1"@.subrange(1, 2) =~= seq!['1']);
            reveal_with_fuel(decimal_value, 2);
            assert(seq!['1'].drop_last() =~= seq![]);
        },
        Interval::Mo1 => {
            reveal_strlit("M1");
            assert("M1"@.len() == 2 && "M1"@[0] == 'M' && "M1"@[1] == '1');
            assert("M1"@.subrange(1, 2) =~= seq!['1']);
            reveal_with_fuel(decimal_value, 2);
            assert(seq!['1'].drop_last() =~= seq![]);
        },
    }
}

/// The service label is the command line name with its unit letter moved
/// behind the count (`m5` is `5m`, `h12` is `12h`, `M1` is `1M`).
pub proof fn lemma_label_from_name(i: Interval)
    ensures
        i.hl_label() == i.cli_name().subrange(1, i.cli_name().len() as int) + i.cli_name().subrange(
            0,
            1,
        ),
{
    match i {
        Interval::M1 => {
            reveal_strlit("m1");
            reveal_strlit("1m");
            assert("m1"@.len() == 2 && "m1"@[0] == 'm' && "m1"@[1] == '1');
            assert("1m"@.len() == 2 && "1m"@[0] == '1' && "1m"@[1] == 'm');
            assert("1m"@ =~= "m1"@.subrange(1, 2) + "m1"@.subrange(0, 1));
        },
        Interval::M3 => {
            reveal_strlit("m3");
            reveal_strlit("3m");
            assert("m3"@.len() == 2 && "m3"@[0] == 'm' && "m3"@[1] == '3');
            assert("3m"@.len() == 2 && "3m"@[0] == '3' && "3m"@[1] == 'm');
            assert("3m"@ =~= "m3"@.subrange(1, 2) + "m3"@.subrange(0, 1));
        },
        Interval::M5 => {
            reveal_strlit("m5");
            reveal_strlit("5m");
            assert("m5"@.len() == 2 && "m5"@[0] == 'm' && "m5"@[1] == '5');
            assert("5m"@.len() == 2 && "5m"@[0] == '5' && "5m"@[1] == 'm');
            assert("5m"@ =~= "m5"@.subrange(1, 2) + "m5"@.subrange(0, 1));
        },
        Interval::M15 => {
            reveal_strlit("m15");
            reveal_strlit("15m");
            assert("m15"@.len() == 3 && "m15"@[0] == 'm' && "m15"@[1] == '1' && "m15"@[2] == '5');
            assert("15m"@.len() == 3 && "15m"@[0] == '1' && "15m"@[1] == '5' && "15m"@[2] == 'm');
            assert("15m"@ =~= "m15"@.subrange(1, 3) + "m15"@.subrange(0, 1));
        },
        Interval::M30 => {
            reveal_strlit("m30");
            reveal_strlit("30m");
            assert("m30"@.len() == 3 && "m30"@[0] == 'm' && "m30"@[1] == '3' && "m30"@[2] == '0');
            assert("30m"@.len() == 3 && "30m"@[0] == '3' && "30m"@[1] == '0' && "30m"@[2] == 'm');
            assert("30m"@ =~= "m30"@.subrange(1, 3) + "m30"@.subrange(0, 1));
        },
        Interval::H1 => {
            reveal_strlit("h1");
            reveal_strlit("1h");
            assert("h1"@.len() == 2 && "h1"@[0] == 'h' && "h1"@[1] == '1');
            assert("1h"@.len() == 2 && "1h"@[0] == '1' && "1h"@[1] == 'h');
            assert("1h"@ =~= "h1"@.subrange(1, 2) + "h1"@.subrange(0, 1));
        },
        Interval::H2 => {
            reveal_strlit("h2");
            reveal_strlit("2h");
            assert("h2"@.len() == 2 && "h2"@[0] == 'h' && "h2"@[1] == '2');
            assert("2h"@.len() == 2 && "2h"@[0] == '2' && "2h"@[1] == 'h');
            assert("2h"@ =~= "h2"@.subrange(1, 2) + "h2"@.subrange(0, 1));
        },
        Interval::H4 => {
            reveal_strlit("h4");
            reveal_strlit("4h");
            assert("h4"@.len() == 2 && "h4"@[0] == 'h' && "h4"@[1] == '4');
            assert("4h"@.len() == 2 && "4h"@[0] == '4' && "4h"@[1] == 'h');
            assert("4h"@ =~= "h4"@.subrange(1, 2) + "h4"@.subrange(0, 1));
        },
        Interval::H8 => {
            reveal_strlit("h8");
            reveal_strlit("8h");
            assert("h8"@.len() == 2 && "h8"@[0] == 'h' && "h8"@[1] == '8');
            assert("8h"@.len() == 2 && "8h"@[0] == '8' && "8h"@[1] == 'h');
            assert("8h"@ =~= "h8"@.subrange(1, 2) + "h8"@.subrange(0, 1));
        },
        Interval::H12 => {
            reveal_strlit("h12");
            reveal_strlit("12h");
            assert("h12"@.len() == 3 && "h12"@[0] == 'h' && "h12"@[1] == '1' && "h12"@[2] == '2');
            assert("12h"@.len() == 3 && "12h"@[0] == '1' && "12h"@[1] == '2' && "12h"@[2] == 'h');
            assert("12h"@ =~= "h12"@.subrange(1, 3) + "h12"@.subrange(0, 1));
        },
        Interval::D1 => {
            reveal_strlit("d1");
            reveal_strlit("1d");
            assert("d1"@.len() == 2 && "d1"@[0] == 'd' && "d1"@[1] == '1');
            assert("1d"@.len() == 2 && "1d"@[0] == '1' && "1d"@[1] == 'd');
            assert("1d"@ =~= "d1"@.subrange(1, 2) + "d1"@.subrange(0, 1));
        },
        Interval::D3 => {
            reveal_strlit("d3");
            reveal_strlit("3d");
            assert("d3"@.len() == 2 && "d3"@[0] == 'd' && "d3"@[1] == '3');
            assert("3d"@.len() == 2 && "3d"@[0] == '3' && "3d"@[1] == 'd');
            assert("3d"@ =~= "d3"@.subrange(1, 2) + "d3"@.subrange(0, 1));
        },
        Interval::W1 => {
            reveal_strlit("w1");
            reveal_strlit("1w");
            assert("w1"@.len() == 2 && "w1"@[0] == 'w' && "w1"@[1] == '1');
            assert("1w"@.len() == 2 && "1w"@[0] == '1' && "1w"@[1] == 'w');
            assert("1w"@ =~= "w1"@.subrange(1, 2) + "w1"@.subrange(0, 1));
        },
        Interval::Mo1 => {
            reveal_strlit("M1");
            reveal_strlit("1M");
            assert("M1"@.len() == 2 && "M1"@[0] == 'M' && "M1"@[1] == '1');
            assert("1M"@.len() == 2 && "1M"@[0] == '1' && "1M"@[1] == 'M');
            assert("1M"@ =~= "M1"@.subrange(1, 2) + "M1"@.subrange(0, 1));
        },
    }
}

} // verus!
