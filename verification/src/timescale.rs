//! The timescale of a value change dump.
use vstd::prelude::*;
use vstd::string::StringExecFns;

verus! {

/// The unit of a timescale
#[derive(Debug, Clone, Copy, PartialEq, Eq, Structural)]
pub enum TimescaleUnit {
    Seconds,
    Milliseconds,
    Microseconds,
    Nanoseconds,
    Picoseconds,
}

/// The timescale in a VCD file: a nonzero number of units
#[derive(Debug, Clone, Copy, PartialEq, Eq, Structural)]
pub struct Timescale {
    unit: TimescaleUnit,
    value: u16,
}

impl Default for Timescale {
    fn default() -> (r: Timescale)
        ensures
            r.spec_unit() == TimescaleUnit::Nanoseconds,
            r.spec_value() == 1,
    {
        Timescale { unit: TimescaleUnit::Nanoseconds, value: 1 }
    }
}

impl Timescale {
    /// The unit
    pub closed spec fn spec_unit(&self) -> TimescaleUnit {
        self.unit
    }

    /// The number of units
    pub closed spec fn spec_value(&self) -> u16 {
        self.value
    }

    /// A timescale of the given number of seconds
    pub fn seconds(seconds: u16) -> (r: Timescale)
        requires
            seconds > 0,
        ensures
            r.spec_unit() == TimescaleUnit::Seconds,
            r.spec_value() == seconds,
    {
        Timescale { unit: TimescaleUnit::Seconds, value: seconds }
    }

    /// A timescale of the given number of milliseconds
    pub fn milliseconds(milliseconds: u16) -> (r: Timescale)
        requires
            milliseconds > 0,
        ensures
            r.spec_unit() == TimescaleUnit::Milliseconds,
            r.spec_value() == milliseconds,
    {
        Timescale { unit: TimescaleUnit::Milliseconds, value: milliseconds }
    }

    /// A timescale of the given number of microseconds
    pub fn microseconds(microseconds: u16) -> (r: Timescale)
        requires
            microseconds > 0,
        ensures
            r.spec_unit() == TimescaleUnit::Microseconds,
            r.spec_value() == microseconds,
    {
        Timescale { unit: TimescaleUnit::Microseconds, value: microseconds }
    }

    /// A timescale of the given number of nanoseconds
    pub fn nanoseconds(nanoseconds: u16) -> (r: Timescale)
        requires
            nanoseconds > 0,
        ensures
            r.spec_unit() == TimescaleUnit::Nanoseconds,
            r.spec_value() == nanoseconds,
    {
        Timescale { unit: TimescaleUnit::Nanoseconds, value: nanoseconds }
    }

    /// A timescale of the given number of picoseconds
    pub fn picoseconds(picoseconds: u16) -> (r: Timescale)
        requires
            picoseconds > 0,
        ensures
            r.spec_unit() == TimescaleUnit::Picoseconds,
            r.spec_value() == picoseconds,
    {
        Timescale { unit: TimescaleUnit::Picoseconds, value: picoseconds }
    }

    /// The unit
    pub fn unit(&self) -> (r: TimescaleUnit)
        ensures
            r == self.spec_unit(),
    {
        self.unit
    }

    /// The number of units
    pub fn value(&self) -> (r: u16)
        ensures
            r == self.spec_value(),
    {
        self.value
    }
}

/// The character of a decimal digit
pub open spec fn digit_char(d: nat) -> char {
    if d == 0 {
        '0'
    } else if d == 1 {
        '1'
    } else if d == 2 {
        '2'
    } else if d == 3 {
        '3'
    } else if d == 4 {
        '4'
    } else if d == 5 {
        '5'
    } else if d == 6 {
        '6'
    } else if d == 7 {
        '7'
    } else if d == 8 {
        '8'
    } else {
        '9'
    }
}

/// The decimal digits of a number, most significant first
pub open spec fn decimal(n: nat) -> Seq<char>
    decreases n,
{
    if n < 10 {
        seq![digit_char(n)]
    } else {
        decimal(n / 10) + seq![digit_char(n % 10)]
    }
}

/// The symbol of a unit
pub open spec fn unit_symbol(unit: TimescaleUnit) -> Seq<char> {
    match unit {
        TimescaleUnit::Seconds => seq!['s'],
        TimescaleUnit::Milliseconds => seq!['m', 's'],
        TimescaleUnit::Microseconds => seq!['u', 's'],
        TimescaleUnit::Nanoseconds => seq!['n', 's'],
        TimescaleUnit::Picoseconds => seq!['p', 's'],
    }
}

/// The string of a decimal digit
fn digit_str(d: u16) -> (r: &'static str)
    requires
        d < 10,
    ensures
        r@ == seq![digit_char(d as nat)],
{
    match d {
        0 => {
            proof {
                reveal_strlit("0");
            }
            "0"
        },
        1 => {
            proof {
                reveal_strlit("1");
            }
            "1"
        },
        2 => {
            proof {
                reveal_strlit("2");
            }
            "2"
        },
        3 => {
            proof {
                reveal_strlit("3");
            }
            "3"
        },
        4 => {
            proof {
                reveal_strlit("4");
            }
            "4"
        },
        5 => {
            proof {
                reveal_strlit("5");
            }
            "5"
        },
        6 => {
            proof {
                reveal_strlit("6");
            }
            "6"
        },
        7 => {
            proof {
                reveal_strlit("7");
            }
            "7"
        },
        8 => {
            proof {
                reveal_strlit("8");
            }
            "8"
        },
        _ => {
            proof {
                reveal_strlit("9");
            }
            "9"
        },
    }
}

/// Appends the decimal digits of `n`
fn append_decimal(r: &mut String, n: u16)
    ensures
        final(r)@ == old(r)@ + decimal(n as nat),
    decreases n,
{
    if n >= 10 {
        append_decimal(r, n / 10);
    }
    let d = digit_str(n % 10);
    r.append(d);
    assert(r@ =~= old(r)@ + decimal(n as nat));
}

impl TimescaleUnit {
    /// The symbol of the unit
    pub fn symbol(self) -> (r: &'static str)
        ensures
            r@ == unit_symbol(self),
    {
        match self {
            TimescaleUnit::Seconds => {
                proof {
                    reveal_strlit("s");
                }
                "s"
            },
            TimescaleUnit::Milliseconds => {
                proof {
                    reveal_strlit("ms");
                }
                "ms"
            },
            TimescaleUnit::Microseconds => {
                proof {
                    reveal_strlit("us");
                }
                "us"
            },
            TimescaleUnit::Nanoseconds => {
                proof {
                    reveal_strlit("ns");
                }
                "ns"
            },
            TimescaleUnit::Picoseconds => {
                proof {
                    reveal_strlit("ps");
                }
                "ps"
            },
        }
    }
}

impl Timescale {
    /// The timescale as written in a VCD file: the number of units followed by the unit
    pub fn to_display_string(&self) -> (r: String)
        ensures
            r@ == decimal(self.spec_value() as nat) + unit_symbol(self.spec_unit()),
    {
        let mut r = String::new();
        append_decimal(&mut r, self.value);
        r.append(self.unit.symbol());
        assert(r@ =~= decimal(self.spec_value() as nat) + unit_symbol(self.spec_unit()));
        r
    }
}

} // verus!
