use vstd::prelude::*;
use vstd::string::StrSliceExecFns;

use crate::format::{digit_char, nat_digits};

verus! {

/// The value of digit `c` in base `radix`: `0`-`9`, then letters of either case from
/// ten on; `None` when `c` is no digit of that base.
pub open spec fn digit_value(c: char, radix: nat) -> Option<nat> {
    let v: Option<nat> = if '0' <= c && c <= '9' {
        Some((c as nat - '0' as nat) as nat)
    } else if 'a' <= c && c <= 'z' {
        Some((c as nat - 'a' as nat + 10) as nat)
    } else if 'A' <= c && c <= 'Z' {
        Some((c as nat - 'A' as nat + 10) as nat)
    } else {
        None
    };
    match v {
        Some(d) => if d < radix {
            Some(d)
        } else {
            None
        },
        None => None,
    }
}

/// The number the digits `s` stand for in base `radix`; `None` if some character is
/// no digit of that base.
pub open spec fn radix_value(s: Seq<char>, radix: nat) -> Option<nat>
    decreases s.len(),
{
    if s.len() == 0 {
        Some(0)
    } else {
        match (radix_value(s.drop_last(), radix), digit_value(s.last(), radix)) {
            (Some(v), Some(d)) => Some(v * radix + d),
            _ => None,
        }
    }
}

/// A number kept where it fits in 64 bits.
pub open spec fn fit_u64(v: Option<nat>) -> Option<u64> {
    match v {
        Some(v) => if v < 0x1_0000_0000_0000_0000 {
            Some(v as u64)
        } else {
            None
        },
        None => None,
    }
}

/// `s` read as an unsigned 64-bit number in base `radix`, as `u64::from_str_radix`
/// reads it: an optional `+`, then at least one digit, and a value that fits.
pub open spec fn parse_u64_radix_spec(s: Seq<char>, radix: nat) -> Option<u64> {
    if s.len() == 0 || s == seq!['+'] || s == seq!['-'] {
        None
    } else if s[0] == '+' {
        fit_u64(radix_value(s.drop_first(), radix))
    } else {
        fit_u64(radix_value(s, radix))
    }
}

/// Digits past a prefix too large for 64 bits leave the whole too large, if all are digits.
proof fn lemma_prefix_too_large(s: Seq<char>, radix: nat, j: int)
    requires
        radix >= 2,
        0 <= j <= s.len(),
        radix_value(s.take(j), radix) matches Some(v) && v >= 0x1_0000_0000_0000_0000,
    ensures
        radix_value(s, radix) matches Some(w) ==> w >= 0x1_0000_0000_0000_0000,
    decreases s.len() - j,
{
    if j < s.len() {
        assert(s.take(j + 1).drop_last() =~= s.take(j));
        let v = radix_value(s.take(j), radix)->0;
        if radix_value(s.take(j + 1), radix) is Some {
            let d = digit_value(s[j], radix)->0;
            assert(v * radix + d >= v) by (nonlinear_arith)
                requires
                    radix >= 2,
            ;
            lemma_prefix_too_large(s, radix, j + 1);
        } else {
            lemma_none_extends(s, radix, j + 1);
        }
    } else {
        assert(s.take(j) =~= s);
    }
}

/// A prefix with a character that is no digit leaves the whole without a value.
proof fn lemma_none_extends(s: Seq<char>, radix: nat, j: int)
    requires
        0 <= j <= s.len(),
        radix_value(s.take(j), radix) is None,
    ensures
        radix_value(s, radix) is None,
    decreases s.len() - j,
{
    if j < s.len() {
        assert(s.take(j + 1).drop_last() =~= s.take(j));
        lemma_none_extends(s, radix, j + 1);
    } else {
        assert(s.take(j) =~= s);
    }
}

/// The value of digit `c` in base `radix`.
fn digit_of(c: char, radix: u32) -> (r: Option<u64>)
    requires
        2 <= radix <= 36,
    ensures
        match r {
            Some(d) => digit_value(c, radix as nat) == Some(d as nat) && d < radix,
            None => digit_value(c, radix as nat) is None,
        },
{
    let v: u64 = if '0' <= c && c <= '9' {
        (c as u32 - '0' as u32) as u64
    } else if 'a' <= c && c <= 'z' {
        (c as u32 - 'a' as u32 + 10) as u64
    } else if 'A' <= c && c <= 'Z' {
        (c as u32 - 'A' as u32 + 10) as u64
    } else {
        return None;
    };
    if v < radix as u64 {
        Some(v)
    } else {
        None
    }
}

/// Reads `s` as an unsigned 64-bit number in base `radix`, as `u64::from_str_radix`
/// does.
pub fn parse_u64_radix(s: &str, radix: u32) -> (r: Option<u64>)
    requires
        2 <= radix <= 36,
    ensures
        r == parse_u64_radix_spec(s@, radix as nat),
{
    let n = s.unicode_len();
    if n == 0 {
        return None;
    }
    let first = s.get_char(0);
    let start: usize = if first == '+' {
        1
    } else {
        0
    };
    if n == 1 && (first == '+' || first == '-') {
        proof {
            assert(s@ =~= seq![first]);
        }
        return None;
    }
    proof {
        if s@ == seq!['+'] || s@ == seq!['-'] {
            assert(s@.len() == 1);
        }
    }
    let ghost digits = s@.subrange(start as int, n as int);
    let ghost base = radix as nat;
    proof {
        if first == '+' {
            assert(digits =~= s@.drop_first());
        } else {
            assert(digits =~= s@);
        }
        assert(digits.take(0) =~= Seq::<char>::empty());
        assert(!(s@.len() == 0 || s@ == seq!['+'] || s@ == seq!['-']));
    }
    let mut acc: u64 = 0;
    let mut i: usize = start;
    while i < n
        invariant
            start <= i <= n,
            n == s@.len(),
            2 <= radix <= 36,
            base == radix as nat,
            digits == s@.subrange(start as int, n as int),
            parse_u64_radix_spec(s@, base) == fit_u64(radix_value(digits, base)),
            radix_value(digits.take(i - start), base) == Some(acc as nat),
        decreases n - i,
    {
        let c = s.get_char(i);
        proof {
            assert(digits.take(i - start + 1).drop_last() =~= digits.take(i - start));
            assert(digits.take(i - start + 1).last() == c);
            assert(digits[i - start] == s@[i as int]);
        }
        let d = match digit_of(c, radix) {
            Some(d) => d,
            None => {
                proof {
                    lemma_none_extends(digits, base, i - start + 1);
                }
                return None;
            },
        };
        let r64 = radix as u64;
        if acc > (u64::MAX - d) / r64 {
            proof {
                assert(acc * r64 + d >= 0x1_0000_0000_0000_0000) by (nonlinear_arith)
                    requires
                        acc > ((0xffff_ffff_ffff_ffffu64 - d) as u64) / r64,
                        d < r64,
                        r64 >= 2,
                ;
                lemma_prefix_too_large(digits, base, i - start + 1);
            }
            return None;
        }
        proof {
            assert(acc * r64 + d <= 0xffff_ffff_ffff_ffff) by (nonlinear_arith)
                requires
                    acc <= ((0xffff_ffff_ffff_ffffu64 - d) as u64) / r64,
                    d < r64,
                    r64 >= 2,
            ;
        }
        acc = acc * r64 + d;
        i = i + 1;
    }
    proof {
        assert(digits.take(n - start) =~= digits);
    }
    Some(acc)
}


/// The decimal digits of `n` read back in base ten give `n`, and they start with a digit.
proof fn lemma_decimal_value(n: nat)
    ensures
        radix_value(nat_digits(n), 10) == Some(n),
        nat_digits(n).len() > 0,
        '0' <= nat_digits(n)[0] <= '9',
    decreases n,
{
    if n >= 10 {
        lemma_decimal_value(n / 10);
        let d = n % 10;
        let s = nat_digits(n);
        assert(s.drop_last() == nat_digits(n / 10));
        assert(s.last() == digit_char(d as int));
        assert(digit_value(digit_char(d as int), 10) == Some(d));
        assert(s[0] == nat_digits(n / 10)[0]);
        assert((n / 10) * 10 + d == n) by (nonlinear_arith)
            requires
                d == n % 10,
        ;
        assert(radix_value(s, 10) == Some((n / 10) * 10 + d));
    } else {
        let s = nat_digits(n);
        assert(s.drop_last() =~= Seq::<char>::empty());
        assert(digit_value(digit_char(n as int), 10) == Some(n));
        assert(s.len() == 1);
        assert(s.last() == digit_char(n as int));
        assert(radix_value(s.drop_last(), 10) == Some(0nat));
        assert(radix_value(s, 10) == Some(0nat * 10 + n));
    }
}

/// A number written in decimal reads back as itself: the file holding the asset with id
/// `n`, named by that id, is read as the asset with id `n`.
pub proof fn law_decimal_round_trip(n: u64)
    ensures
        parse_u64_radix_spec(nat_digits(n as nat), 10) == Some(n),
{
    lemma_decimal_value(n as nat);
}

} // verus!
