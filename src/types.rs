use vstd::prelude::*;
use vstd::string::{StrSliceExecFns, StringExecFns};
use crate::errors::Error;

verus! {

/// An identifier of the description (a name).
pub type IdentifierType = String;

/// A non-negative integer of the description.
#[derive(Clone, Copy, Debug, PartialEq, Eq, Structural, PartialOrd, Ord, Hash)]
pub struct ScaledNonNegativeInteger(pub u64);

} // verus!

verus! {

/// Value of character `c` as a digit of base `radix`, where it is one.
pub open spec fn digit_in(c: char, radix: nat) -> Option<nat> {
    let d: int = if '0' <= c && c <= '9' {
        c as int - '0' as int
    } else if 'a' <= c && c <= 'z' {
        c as int - 'a' as int + 10
    } else if 'A' <= c && c <= 'Z' {
        c as int - 'A' as int + 10
    } else {
        radix as int
    };
    if 0 <= d < radix {
        Some(d as nat)
    } else {
        None
    }
}

/// Whether every character of `s` is a digit of base `radix`.
pub open spec fn all_digits(s: Seq<char>, radix: nat) -> bool {
    forall|i: int| 0 <= i < s.len() ==> (#[trigger] digit_in(s[i], radix)) is Some
}

/// Value of the digits `s` in base `radix`.
pub open spec fn radix_value(s: Seq<char>, radix: nat) -> nat
    decreases s.len(),
{
    if s.len() == 0 {
        0
    } else {
        radix_value(s.drop_last(), radix) * radix + digit_in(s.last(), radix)->Some_0
    }
}

/// An unsigned number in base `radix`: an optional `+`, then at least one
/// digit, of a value that fits in a `u64`.
pub open spec fn parse_radix(t: Seq<char>, radix: nat) -> Option<u64> {
    let d = if t.len() > 0 && t[0] == '+' {
        t.drop_first()
    } else {
        t
    };
    if d.len() == 0 || !all_digits(d, radix) || radix_value(d, radix) > u64::MAX {
        None
    } else {
        Some(radix_value(d, radix) as u64)
    }
}

/// The value of a non-negative integer literal: an optional `+`, then `#`
/// and binary digits, or `0x` or `0X` and hexadecimal digits, or decimal
/// digits.
pub open spec fn scaled_value(s: Seq<char>) -> Option<u64> {
    let s1 = if s.len() > 0 && s[0] == '+' {
        s.drop_first()
    } else {
        s
    };
    if s1.len() > 0 && s1[0] == '#' {
        parse_radix(s1.drop_first(), 2)
    } else if s1.len() >= 2 && s1[0] == '0' && (s1[1] == 'x' || s1[1] == 'X') {
        parse_radix(s1.subrange(2, s1.len() as int), 16)
    } else {
        parse_radix(s1, 10)
    }
}

fn digit_of(c: char, radix: u64) -> (r: Option<u64>)
    requires
        2 <= radix <= 36,
    ensures
        match digit_in(c, radix as nat) {
            Some(d) => r == Some(d as u64),
            None => r is None,
        },
{
    let d: u64 = if '0' <= c && c <= '9' {
        (c as u32 - '0' as u32) as u64
    } else if 'a' <= c && c <= 'z' {
        (c as u32 - 'a' as u32) as u64 + 10
    } else if 'A' <= c && c <= 'Z' {
        (c as u32 - 'A' as u32) as u64 + 10
    } else {
        radix
    };
    if d < radix {
        Some(d)
    } else {
        None
    }
}

proof fn lemma_radix_grows(s: Seq<char>, radix: nat, j: int)
    requires
        0 <= j <= s.len(),
        radix >= 2,
    ensures
        radix_value(s.subrange(0, j), radix) <= radix_value(s, radix),
    decreases s.len() - j,
{
    if j < s.len() {
        lemma_radix_grows(s, radix, j + 1);
        let a = s.subrange(0, j + 1);
        assert(a.drop_last() =~= s.subrange(0, j));
        let v = radix_value(s.subrange(0, j), radix);
        assert(v <= v * radix) by (nonlinear_arith)
            requires
                radix >= 2,
        ;
    } else {
        assert(s.subrange(0, j) =~= s);
    }
}

/// Parses the characters of `s` from `start` as a number in base `radix`.
pub fn parse_digits(s: &str, start: usize, radix: u64) -> (r: Option<u64>)
    requires
        2 <= radix <= 36,
        start <= s@.len(),
    ensures
        r == parse_radix(s@.subrange(start as int, s@.len() as int), radix as nat),
{
    let ghost t = s@.subrange(start as int, s@.len() as int);
    let n = s.unicode_len();
    let mut k = start;
    if k < n && s.get_char(k) == '+' {
        k = k + 1;
    }
    let ghost d = s@.subrange(k as int, s@.len() as int);
    assert(d =~= if t.len() > 0 && t[0] == '+' {
        t.drop_first()
    } else {
        t
    });
    if k == n {
        return None;
    }
    let mut v: u64 = 0;
    let mut j = k;
    while j < n
        invariant
            k <= j <= n,
            n == s@.len(),
            2 <= radix <= 36,
            d == s@.subrange(k as int, n as int),
            t == s@.subrange(start as int, n as int),
            d == (if t.len() > 0 && t[0] == '+' {
                t.drop_first()
            } else {
                t
            }),
            d.len() > 0,
            all_digits(d.subrange(0, j - k), radix as nat),
            v == radix_value(d.subrange(0, j - k), radix as nat),
        decreases n - j,
    {
        let c = s.get_char(j);
        assert(d[j - k] == c);
        assert(d.subrange(0, j + 1 - k).drop_last() =~= d.subrange(0, j - k));
        match digit_of(c, radix) {
            None => {
                assert(!all_digits(d, radix as nat)) by {
                    assert(digit_in(d[j - k], radix as nat) is None);
                }
                return None;
            },
            Some(x) => {
                let lim = (u64::MAX - x) / radix;
                if v > lim {
                    proof {
                        assert(v * radix + x > u64::MAX) by (nonlinear_arith)
                            requires
                                v > lim,
                                lim as int == (0xffff_ffff_ffff_ffff - x as int) / (radix as int),
                                radix >= 2,
                                x < radix,
                        ;
                        assert(all_digits(d.subrange(0, j + 1 - k), radix as nat)) by {
                            assert forall|i: int| 0 <= i < j + 1 - k implies (#[trigger] digit_in(
                                d.subrange(0, j + 1 - k)[i],
                                radix as nat,
                            )) is Some by {
                                if i < j - k {
                                    assert(d.subrange(0, j + 1 - k)[i] == d.subrange(0, j - k)[i]);
                                }
                            }
                        }
                        lemma_radix_grows(d, radix as nat, j + 1 - k);
                    }
                    return None;
                }
                assert(v * radix + x <= u64::MAX) by (nonlinear_arith)
                    requires
                        v <= lim,
                        lim as int == (0xffff_ffff_ffff_ffff - x as int) / (radix as int),
                        radix >= 2,
                        x < radix,
                ;
                v = v * radix + x;
                proof {
                    assert forall|i: int| 0 <= i < j + 1 - k implies (#[trigger] digit_in(
                        d.subrange(0, j + 1 - k)[i],
                        radix as nat,
                    )) is Some by {
                        if i < j - k {
                            assert(d.subrange(0, j + 1 - k)[i] == d.subrange(0, j - k)[i]);
                        }
                    }
                }
            },
        }
        j = j + 1;
    }
    assert(d.subrange(0, n - k) =~= d);
    Some(v)
}

impl ScaledNonNegativeInteger {
    /// Parses a non-negative integer literal: an optional `+`, then `#` and
    /// binary digits, `0x` or `0X` and hexadecimal digits, or decimal digits.
    pub fn from_str(s: &str) -> (r: Result<ScaledNonNegativeInteger, Error>)
        ensures
            match scaled_value(s@) {
                Some(v) => r == Ok::<ScaledNonNegativeInteger, Error>(ScaledNonNegativeInteger(v)),
                None => r is Err && r->Err_0 is UnexpectedValue,
            },
    {
        let n = s.unicode_len();
        let mut k: usize = 0;
        if n > 0 && s.get_char(0) == '+' {
            k = 1;
        }
        let ghost s1 = s@.subrange(k as int, n as int);
        assert(s1 =~= if s@.len() > 0 && s@[0] == '+' {
            s@.drop_first()
        } else {
            s@
        });
        let parsed = if k < n && s.get_char(k) == '#' {
            assert(s1.drop_first() =~= s@.subrange(k + 1, n as int));
            parse_digits(s, k + 1, 2)
        } else if k + 1 < n && s.get_char(k) == '0' && (s.get_char(k + 1) == 'x' || s.get_char(k + 1)
            == 'X') {
            assert(s1.subrange(2, s1.len() as int) =~= s@.subrange(k + 2, n as int));
            parse_digits(s, k + 2, 16)
        } else {
            parse_digits(s, k, 10)
        };
        match parsed {
            Some(v) => Ok(ScaledNonNegativeInteger(v)),
            None => Err(
                Error::UnexpectedValue(String::from_str("a non-negative integer"), s.to_owned()),
            ),
        }
    }
}

} // verus!

verus! {

/// The value that a non-negative integer literal stands for.
pub open spec fn scaled_value_of(s: Seq<char>) -> Option<ScaledNonNegativeInteger> {
    match scaled_value(s) {
        Some(v) => Some(ScaledNonNegativeInteger(v)),
        None => None,
    }
}

} // verus!
