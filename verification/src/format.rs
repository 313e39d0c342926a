use vstd::prelude::*;
use vstd::string::StringExecFns;

verus! {

broadcast use vstd::string::group_string_axioms;

/// What is shown where a value is missing.
pub const NULL_FORMAT: &'static str = "???";

/// The unit a displayed value is in.
#[derive(Clone, Copy, Debug, PartialEq, Eq, Structural)]
pub enum ValueUnit {
    Volt,
    Watt,
    WattHour,
    Celcius,
    Percent,
}

/// The symbol of `unit`.
pub open spec fn unit_symbol(unit: ValueUnit) -> Seq<char> {
    match unit {
        ValueUnit::Volt => seq!['V'],
        ValueUnit::Watt => seq!['W'],
        ValueUnit::WattHour => seq!['W', 'h'],
        ValueUnit::Celcius => seq!['\u{b0}', 'C'],
        ValueUnit::Percent => seq!['%'],
    }
}

impl ValueUnit {
    /// The symbol of the unit.
    pub fn symbol(&self) -> (r: &'static str)
        ensures
            r@ == unit_symbol(*self),
    {
        match self {
            ValueUnit::Volt => {
                proof {
                    reveal_strlit("V");
                }
                "V"
            },
            ValueUnit::Watt => {
                proof {
                    reveal_strlit("W");
                }
                "W"
            },
            ValueUnit::WattHour => {
                proof {
                    reveal_strlit("Wh");
                }
                "Wh"
            },
            ValueUnit::Celcius => {
                proof {
                    reveal_strlit("\u{b0}C");
                }
                "\u{b0}C"
            },
            ValueUnit::Percent => {
                proof {
                    reveal_strlit("%");
                }
                "%"
            },
        }
    }

    /// The symbol of the unit, as a string.
    pub fn to_string(&self) -> (r: String)
        ensures
            r@ == unit_symbol(*self),
    {
        self.symbol().to_string()
    }
}

/// The character of decimal digit `d`.
pub open spec fn digit_char(d: int) -> char {
    if d == 0 {
        '0'
    } else if d == 1 {
        '1'
    } else if d == 2 {
        '2'
    } else if d == 3 {
        '3'
    } else if d == 4 {
        '4'
    } else if d == 5 {
        '5'
    } else if d == 6 {
        '6'
    } else if d == 7 {
        '7'
    } else if d == 8 {
        '8'
    } else {
        '9'
    }
}

/// The decimal digits of `n`, most significant first, without leading zeros.
pub open spec fn nat_digits(n: nat) -> Seq<char>
    decreases n,
{
    if n < 10 {
        seq![digit_char(n as int)]
    } else {
        nat_digits(n / 10).push(digit_char((n % 10) as int))
    }
}

/// `i` written in decimal, with a leading `-` when negative.
pub open spec fn int_decimal(i: int) -> Seq<char> {
    if i < 0 {
        seq!['-'] + nat_digits((-i) as nat)
    } else {
        nat_digits(i as nat)
    }
}

/// The one-character string of decimal digit `d`.
fn digit_str(d: u64) -> (r: &'static str)
    requires
        d < 10,
    ensures
        r@ == seq![digit_char(d as int)],
{
    match d {
        0 => {
            proof {
                reveal_strlit("0");
            }
            "0"
        },
        1 => {
            proof {
                reveal_strlit("1");
            }
            "1"
        },
        2 => {
            proof {
                reveal_strlit("2");
            }
            "2"
        },
        3 => {
            proof {
                reveal_strlit("3");
            }
            "3"
        },
        4 => {
            proof {
                reveal_strlit("4");
            }
            "4"
        },
        5 => {
            proof {
                reveal_strlit("5");
            }
            "5"
        },
        6 => {
            proof {
                reveal_strlit("6");
            }
            "6"
        },
        7 => {
            proof {
                reveal_strlit("7");
            }
            "7"
        },
        8 => {
            proof {
                reveal_strlit("8");
            }
            "8"
        },
        _ => {
            proof {
                reveal_strlit("9");
            }
            "9"
        },
    }
}

/// Appends the decimal digits of `n` to `s`.
pub(crate) fn append_digits(s: &mut String, n: u64)
    ensures
        final(s)@ == old(s)@ + nat_digits(n as nat),
    decreases n,
{
    if n >= 10 {
        append_digits(s, n / 10);
    }
    s.append(digit_str(n % 10));
    proof {
        if n >= 10 {
            assert(old(s)@ + nat_digits(n as nat) =~= old(s)@ + nat_digits((n / 10) as nat) + seq![
                digit_char((n % 10) as int),
            ]);
        }
    }
}

/// `v` written in decimal, as `{}` formats it.
pub fn i64_to_decimal(v: i64) -> (r: String)
    ensures
        r@ == int_decimal(v as int),
{
    let mut s = String::new();
    if v < 0 {
        proof {
            reveal_strlit("-");
        }
        s.append("-");
        let magnitude: u64 = (0i128 - v as i128) as u64;
        append_digits(&mut s, magnitude);
    } else {
        append_digits(&mut s, v as u64);
    }
    s
}

/// The scale reached from value `v` at scale `k` (0 = milli, then unit, kilo, mega,
/// giga, tera): while `v` exceeds 1000 and a larger scale is left, divide by 1000.
pub open spec fn scale_steps(v: int, k: nat) -> (int, nat)
    decreases 5 - k,
{
    if k >= 5 {
        (v, 5)
    } else if v <= 1000 {
        (v, k)
    } else {
        scale_steps(v / 1000, k + 1)
    }
}

/// The prefix written for scale `k`. Mega is written `m`, like milli.
pub open spec fn scale_prefix(k: nat) -> Seq<char> {
    if k == 0 {
        seq!['m']
    } else if k == 1 {
        Seq::empty()
    } else if k == 2 {
        seq!['k']
    } else if k == 3 {
        seq!['m']
    } else if k == 4 {
        seq!['g']
    } else {
        seq!['t']
    }
}

/// The prefix string of scale `k`.
fn prefix_str(k: u64) -> (r: &'static str)
    ensures
        r@ == scale_prefix(k as nat),
{
    if k == 0 {
        proof {
            reveal_strlit("m");
        }
        "m"
    } else if k == 1 {
        proof {
            reveal_strlit("");
        }
        ""
    } else if k == 2 {
        proof {
            reveal_strlit("k");
        }
        "k"
    } else if k == 3 {
        proof {
            reveal_strlit("m");
        }
        "m"
    } else if k == 4 {
        proof {
            reveal_strlit("g");
        }
        "g"
    } else {
        proof {
            reveal_strlit("t");
        }
        "t"
    }
}

/// Scales a value given in thousandths: the scaled value and its unit prefix.
pub fn transform_with_scale_prefix(milli_value: i64) -> (r: (i64, &'static str))
    ensures
        r.0 == scale_steps(milli_value as int, 0).0,
        r.1@ == scale_prefix(scale_steps(milli_value as int, 0).1),
{
    let mut value_at_current_scale = milli_value;
    let mut k: u64 = 0;
    while k < 5
        invariant
            k <= 5,
            scale_steps(value_at_current_scale as int, k as nat) == scale_steps(milli_value as int, 0),
        decreases 5 - k,
    {
        if value_at_current_scale <= 1000 {
            return (value_at_current_scale, prefix_str(k));
        }
        value_at_current_scale = value_at_current_scale / 1000;
        k = k + 1;
    }
    (value_at_current_scale, prefix_str(5))
}

/// What `format_millis` writes for `milli_value` in `unit`.
pub open spec fn millis_text(milli_value: int, unit: ValueUnit) -> Seq<char> {
    let (value, k) = scale_steps(milli_value, 0);
    int_decimal(value) + seq![' '] + scale_prefix(k) + unit_symbol(unit)
}

/// A value given in thousandths of `unit`, scaled and written with its prefix and
/// unit, such as `900 kW` for 900000000.
pub fn format_millis(milli_value: i64, unit: ValueUnit) -> (r: String)
    ensures
        r@ == millis_text(milli_value as int, unit),
{
    let (value, unit_prefix) = transform_with_scale_prefix(milli_value);
    let mut s = i64_to_decimal(value);
    proof {
        reveal_strlit(" ");
    }
    s.append(" ");
    s.append(unit_prefix);
    s.append(unit.symbol());
    s
}

/// `v / d`, rounded towards zero.
pub open spec fn trunc_div(v: int, d: int) -> int {
    if v >= 0 {
        v / d
    } else {
        -((-v) / d)
    }
}

/// The remainder of `v / d` rounded towards zero; it has the sign of `v`.
pub open spec fn trunc_rem(v: int, d: int) -> int {
    v - d * trunc_div(v, d)
}

/// `c` written with at least two digits, as `{:02}` formats it.
pub open spec fn pad2(c: int) -> Seq<char> {
    if 0 <= c < 10 {
        seq!['0'] + int_decimal(c)
    } else {
        int_decimal(c)
    }
}

/// What `format_100_scaled_value` writes for `value` in `unit`.
pub open spec fn scaled_100_text(value: int, unit: ValueUnit) -> Seq<char> {
    int_decimal(trunc_div(value, 100)) + seq![','] + pad2(trunc_rem(value, 100)) + seq![' ']
        + unit_symbol(unit)
}

/// A value given in hundredths of `unit`, written with a decimal comma, such as
/// `21,05 °C` for 2105.
pub fn format_100_scaled_value(value: i64, unit: ValueUnit) -> (r: String)
    ensures
        r@ == scaled_100_text(value as int, unit),
{
    let (decimal_value, comma_value): (i64, i64) = if value >= 0 {
        (value / 100, value % 100)
    } else {
        let magnitude: i128 = 0i128 - value as i128;
        ((0i128 - magnitude / 100) as i64, (0i128 - magnitude % 100) as i64)
    };
    proof {
        assert(decimal_value == trunc_div(value as int, 100));
        assert(comma_value == trunc_rem(value as int, 100));
    }
    let mut s = i64_to_decimal(decimal_value);
    proof {
        reveal_strlit(",");
        reveal_strlit("0");
        reveal_strlit(" ");
    }
    s.append(",");
    if 0 <= comma_value && comma_value < 10 {
        s.append("0");
    }
    let comma_text = i64_to_decimal(comma_value);
    s.append(comma_text.as_str());
    s.append(" ");
    s.append(unit.symbol());
    proof {
        assert(s@ =~= scaled_100_text(value as int, unit));
    }
    s
}


/// For a value that is not negative, the text of `format_100_scaled_value` is the whole
/// part in decimal, a comma, exactly two digits giving the hundredths (the tens digit
/// first, `0` when under ten), a space and the unit's symbol: a whole value ends in `,00`.
pub proof fn law_scaled_100_two_digits(value: int, unit: ValueUnit)
    requires
        value >= 0,
    ensures
        scaled_100_text(value, unit) == int_decimal(value / 100) + seq![
            ',',
            digit_char((value % 100) / 10),
            digit_char(value % 10),
            ' ',
        ] + unit_symbol(unit),
        value % 100 == 0 ==> scaled_100_text(value, unit) == int_decimal(value / 100) + seq![
            ',',
            '0',
            '0',
            ' ',
        ] + unit_symbol(unit),
{
    let c = value % 100;
    assert(trunc_div(value, 100) == value / 100);
    assert(trunc_rem(value, 100) == c);
    assert(c % 10 == value % 10) by (nonlinear_arith)
        requires
            c == value % 100,
            value >= 0,
    ;
    reveal_with_fuel(nat_digits, 2);
    if c < 10 {
        assert(c / 10 == 0);
        assert(pad2(c) =~= seq![digit_char(c / 10), digit_char(value % 10)]);
    } else {
        assert(c / 10 < 10);
        assert(pad2(c) =~= seq![digit_char(c / 10), digit_char(value % 10)]);
    }
    assert(scaled_100_text(value, unit) =~= int_decimal(value / 100) + seq![
        ',',
        digit_char((value % 100) / 10),
        digit_char(value % 10),
        ' ',
    ] + unit_symbol(unit));
}


/// For a negative value, the whole part is rounded towards zero and the hundredths keep
/// the value's sign: `-2105` gives `-21,-5`, `-5` gives `0,-5`, and `-2100` gives `-21,00`.
pub proof fn law_scaled_100_negative(value: int, unit: ValueUnit)
    requires
        value < 0,
    ensures
        scaled_100_text(value, unit) == int_decimal(-((-value) / 100)) + seq![','] + (if (-value)
            % 100 == 0 {
            seq!['0', '0']
        } else {
            seq!['-'] + nat_digits(((-value) % 100) as nat)
        }) + seq![' '] + unit_symbol(unit),
{
    let m = -value;
    let q = m / 100;
    let c = m % 100;
    assert(m == 100 * q + c) by (nonlinear_arith)
        requires
            m > 0,
            q == m / 100,
            c == m % 100,
    ;
    assert(trunc_div(value, 100) == -q);
    assert(trunc_rem(value, 100) == -c);
    reveal_with_fuel(nat_digits, 2);
    if c == 0 {
        assert(pad2(-c) =~= seq!['0', '0']);
    } else {
        assert(pad2(-c) =~= seq!['-'] + nat_digits(c as nat));
    }
    assert(scaled_100_text(value, unit) =~= int_decimal(-q) + seq![','] + (if c == 0 {
        seq!['0', '0']
    } else {
        seq!['-'] + nat_digits(c as nat)
    }) + seq![' '] + unit_symbol(unit));
}

} // verus!
