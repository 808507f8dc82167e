//! Quality values: integer thousandths in `[0, 1000]`, and the parser for
//! the q-value grammar of RFC 7231 (one or more integer digits, then
//! optionally a dot and at most three fraction digits).

use vstd::prelude::*;

use crate::scan::{find_byte, first_index};

verus! {

/// A quality value in thousandths: `q=0.5` is `Quality { thousandths: 500 }`.
#[derive(Clone, Copy, Debug, PartialEq, Eq, Structural)]
pub struct Quality {
    /// The value scaled by 1000; at most 1000 in any parsed directive.
    pub thousandths: u16,
}

/// The quality of a directive that carries no explicit `q` parameter.
pub open spec fn full_quality() -> Quality {
    Quality { thousandths: 1000 }
}

/// `b` is a decimal digit.
pub open spec fn is_digit(b: u8) -> bool {
    48 <= b <= 57
}

/// Every byte of `s` is a decimal digit.
pub open spec fn all_digits(s: Seq<u8>) -> bool {
    forall|i: int| 0 <= i < s.len() ==> is_digit(#[trigger] s[i])
}

/// The number that the digit string `s` writes in decimal.
pub open spec fn digits_value(s: Seq<u8>) -> int
    decreases s.len(),
{
    if s.len() == 0 {
        0
    } else {
        10 * digits_value(s.drop_last()) + (s.last() - 48)
    }
}

/// What one fraction digit is worth, in thousandths, for a fraction part
/// of `n` digits.
pub open spec fn frac_scale(n: int) -> int {
    if n <= 1 {
        100
    } else if n == 2 {
        10
    } else {
        1
    }
}

/// The value, in thousandths, that the q-value string `s` denotes, or
/// `None` where `s` is not a q-value: digits, then optionally a dot and
/// at most three fraction digits, with at least one digit in all.
pub open spec fn qvalue_thousandths(s: Seq<u8>) -> Option<int> {
    match first_index(s, '.' as u8) {
        None => if s.len() > 0 && all_digits(s) {
            Some(1000 * digits_value(s))
        } else {
            None
        },
        Some(i) => {
            let ip = s.take(i);
            let fp = s.skip(i + 1);
            if s.len() > 1 && all_digits(ip) && all_digits(fp) && fp.len() <= 3 {
                Some(1000 * digits_value(ip) + frac_scale(fp.len() as int) * digits_value(fp))
            } else {
                None
            }
        },
    }
}

/// What the parser accepts: the thousandths of a well-formed q-value that
/// is at most one, and `None` for everything else.
pub open spec fn qvalue_result(s: Seq<u8>) -> Option<u16> {
    match qvalue_thousandths(s) {
        Some(v) => if v <= 1000 {
            Some(v as u16)
        } else {
            None
        },
        None => None,
    }
}

/// A digit string never writes a negative number.
proof fn lemma_digits_value_nonneg(s: Seq<u8>)
    requires
        all_digits(s),
    ensures
        digits_value(s) >= 0,
    decreases s.len(),
{
    if s.len() > 0 {
        assert(all_digits(s.drop_last())) by {
            assert(forall|i: int|
                0 <= i < s.len() - 1 ==> #[trigger] s.drop_last()[i] == s[i]);
        }
        lemma_digits_value_nonneg(s.drop_last());
    }
}

/// A digit string of at most three digits is worth at most 999.
proof fn lemma_digits_value_small(s: Seq<u8>)
    requires
        all_digits(s),
        s.len() <= 3,
    ensures
        digits_value(s) <= 999,
    decreases s.len(),
{
    if s.len() > 0 {
        assert(all_digits(s.drop_last())) by {
            assert(forall|i: int|
                0 <= i < s.len() - 1 ==> #[trigger] s.drop_last()[i] == s[i]);
        }
        lemma_digits_value_small(s.drop_last());
        if s.len() == 1 {
            assert(digits_value(s.drop_last()) == 0);
        } else {
            assert(digits_value(s.drop_last()) <= 99) by {
                lemma_digits_value_two(s.drop_last());
            }
        }
    }
}

/// A digit string of at most two digits is worth at most 99.
proof fn lemma_digits_value_two(s: Seq<u8>)
    requires
        all_digits(s),
        s.len() <= 2,
    ensures
        digits_value(s) <= 99,
    decreases s.len(),
{
    if s.len() > 0 {
        assert(all_digits(s.drop_last())) by {
            assert(forall|i: int|
                0 <= i < s.len() - 1 ==> #[trigger] s.drop_last()[i] == s[i]);
        }
        lemma_digits_value_two(s.drop_last());
        if s.len() == 2 {
            assert(digits_value(s.drop_last()) <= 9) by {
                assert(digits_value(s.drop_last().drop_last()) == 0);
            }
        }
    }
}

/// A well-formed q-value never denotes a negative number.
pub proof fn lemma_qvalue_nonneg(s: Seq<u8>)
    ensures
        match qvalue_thousandths(s) {
            Some(v) => v >= 0,
            None => true,
        },
{
    match first_index(s, '.' as u8) {
        None => {
            if s.len() > 0 && all_digits(s) {
                lemma_digits_value_nonneg(s);
            }
        },
        Some(i) => {
            let ip = s.take(i);
            let fp = s.skip(i + 1);
            if s.len() > 1 && all_digits(ip) && all_digits(fp) && fp.len() <= 3 {
                lemma_digits_value_nonneg(ip);
                lemma_digits_value_nonneg(fp);
            }
        },
    }
}

/// Scans `s[from..to]` as a digit string. Returns `None` where a byte is
/// not a digit; otherwise the value, exact up to 1000, and above 1000
/// exactly when the string's value is.
fn scan_digits(s: &[u8], from: usize, to: usize) -> (r: Option<u32>)
    requires
        from <= to <= s@.len(),
    ensures
        match r {
            Some(v) => {
                &&& all_digits(s@.subrange(from as int, to as int))
                &&& v <= 10009
                &&& digits_value(s@.subrange(from as int, to as int)) <= 1000 ==> v
                    == digits_value(s@.subrange(from as int, to as int))
                &&& digits_value(s@.subrange(from as int, to as int)) > 1000 ==> v > 1000
            },
            None => !all_digits(s@.subrange(from as int, to as int)),
        },
{
    let ghost whole = s@.subrange(from as int, to as int);
    let mut acc: u32 = 0;
    let mut j: usize = from;
    while j < to
        invariant
            from <= j <= to <= s@.len(),
            whole == s@.subrange(from as int, to as int),
            all_digits(s@.subrange(from as int, j as int)),
            acc <= 10009,
            digits_value(s@.subrange(from as int, j as int)) <= 1000 ==> acc == digits_value(
                s@.subrange(from as int, j as int),
            ),
            digits_value(s@.subrange(from as int, j as int)) > 1000 ==> acc > 1000,
        decreases to - j,
    {
        let b = s[j];
        if b < 48 || b > 57 {
            proof {
                assert(whole[j - from] == s@[j as int]);
            }
            return None;
        }
        proof {
            let pre = s@.subrange(from as int, j as int);
            let next = s@.subrange(from as int, j as int + 1);
            assert(next.drop_last() =~= pre);
            assert(next.last() == s@[j as int]);
            assert(all_digits(next)) by {
                assert(forall|i: int| 0 <= i < j - from ==> #[trigger] next[i] == pre[i]);
            }
            lemma_digits_value_nonneg(pre);
        }
        if acc <= 1000 {
            acc = 10 * acc + ((b - 48) as u32);
        }
        j = j + 1;
    }
    proof {
        assert(s@.subrange(from as int, j as int) =~= whole);
    }
    Some(acc)
}

/// Parses a q-value string into thousandths: `Some` exactly for a
/// well-formed q-value of at most one.
pub(crate) fn parse_qvalue(s: &[u8]) -> (r: Option<u16>)
    ensures
        r == qvalue_result(s@),
{
    let n = s.len();
    match find_byte(s, 46) {
        None => {
            if n == 0 {
                return None;
            }
            proof {
                assert(s@.subrange(0, n as int) =~= s@);
            }
            match scan_digits(s, 0, n) {
                None => None,
                Some(v) => if v <= 1 {
                    Some((1000 * v) as u16)
                } else {
                    None
                },
            }
        },
        Some(i) => {
            proof {
                crate::scan::lemma_first_index_props(s@, 46);
            }
            let flen = n - i - 1;
            if n < 2 || flen > 3 {
                return None;
            }
            proof {
                assert(s@.take(i as int) =~= s@.subrange(0, i as int));
                assert(s@.skip(i as int + 1) =~= s@.subrange(i as int + 1, n as int));
            }
            let ipv = match scan_digits(s, 0, i) {
                None => {
                    return None;
                },
                Some(v) => v,
            };
            let fpv = match scan_digits(s, i + 1, n) {
                None => {
                    return None;
                },
                Some(v) => v,
            };
            proof {
                lemma_digits_value_small(s@.skip(i as int + 1));
                lemma_digits_value_nonneg(s@.take(i as int));
            }
            let scale: u32 = if flen <= 1 {
                100
            } else if flen == 2 {
                10
            } else {
                1
            };
            if ipv > 1 {
                return None;
            }
            let total: u32 = 1000 * ipv + scale * fpv;
            if total <= 1000 {
                Some(total as u16)
            } else {
                None
            }
        },
    }
}

} // verus!
