//! Verified decimal conversion for `i32`: parsing as `str::parse::<i32>` does
//! (an optional single leading sign, then one or more ASCII digits, rejected on
//! overflow), and formatting as the decimal digits that `i32`'s `Display`
//! prints.

use vstd::prelude::*;
use vstd::string::StrSliceExecFns;
use vstd::string::StringExecFns;

verus! {

pub open spec fn is_digit(c: char) -> bool {
    48 <= (c as u32) && (c as u32) <= 57
}

pub open spec fn digit_val(c: char) -> int {
    (c as u32) - 48
}

/// The value of a most-significant-first digit string.
pub open spec fn digits_to_int(s: Seq<char>) -> int
    decreases s.len(),
{
    if s.len() == 0 {
        0
    } else {
        digits_to_int(s.drop_last()) * 10 + digit_val(s.last())
    }
}

/// The digit part of a decimal literal: everything after one leading `+` or
/// `-`, or the whole string when there is no sign.
pub open spec fn digits_of(s: Seq<char>) -> Seq<char> {
    if s.len() > 0 && (s[0] == '-' || s[0] == '+') {
        s.skip(1)
    } else {
        s
    }
}

pub open spec fn is_negative_literal(s: Seq<char>) -> bool {
    s.len() > 0 && s[0] == '-'
}

pub open spec fn all_digits(s: Seq<char>) -> bool {
    s.len() > 0 && forall|m: int| 0 <= m < s.len() ==> is_digit(s[m])
}

/// What `str::parse::<i32>` returns: `Some` exactly for an optional single
/// sign followed by one or more ASCII digits whose value fits in `i32`.
pub open spec fn parse_i32_spec(s: Seq<char>) -> Option<i32> {
    let ds = digits_of(s);
    if !all_digits(ds) {
        None
    } else {
        let v = if is_negative_literal(s) {
            -digits_to_int(ds)
        } else {
            digits_to_int(ds)
        };
        if i32::MIN <= v <= i32::MAX {
            Some(v as i32)
        } else {
            None
        }
    }
}

proof fn lemma_digits_to_int_nonneg(s: Seq<char>)
    requires
        forall|m: int| 0 <= m < s.len() ==> is_digit(s[m]),
    ensures
        digits_to_int(s) >= 0,
    decreases s.len(),
{
    if s.len() > 0 {
        assert(forall|m: int| 0 <= m < s.drop_last().len() ==> is_digit(s.drop_last()[m]));
        lemma_digits_to_int_nonneg(s.drop_last());
    }
}

/// A digit string is worth at least any of its prefixes.
proof fn lemma_digits_to_int_prefix(s: Seq<char>, k: int)
    requires
        forall|m: int| 0 <= m < s.len() ==> is_digit(s[m]),
        0 <= k <= s.len(),
    ensures
        digits_to_int(s.take(k)) <= digits_to_int(s),
    decreases s.len() - k,
{
    if k == s.len() {
        assert(s.take(k) =~= s);
    } else {
        lemma_digits_to_int_prefix(s, k + 1);
        assert(s.take(k + 1).drop_last() =~= s.take(k));
        assert(s.take(k + 1).last() == s[k]);
        assert(forall|m: int| 0 <= m < s.take(k).len() ==> is_digit(s.take(k)[m]));
        lemma_digits_to_int_nonneg(s.take(k));
    }
}

/// `str::parse::<i32>`, written out over the characters.
#[verifier::loop_isolation(false)]
pub fn parse_i32(s: &str) -> (r: Option<i32>)
    ensures
        r == parse_i32_spec(s@),
{
    let n = s.unicode_len();
    if n == 0 {
        return None;
    }
    let c0 = s.get_char(0);
    let neg = c0 == '-';
    let has_sign = neg || c0 == '+';
    let start: usize = if has_sign {
        1
    } else {
        0
    };
    let ghost ds = digits_of(s@);
    proof {
        if has_sign {
            assert(ds =~= s@.skip(1));
        }
        assert(ds.len() == n - start);
        assert(forall|m: int| 0 <= m < ds.len() ==> ds[m] == s@[start + m]);
    }
    if start == n {
        return None;
    }
    let mut i = start;
    let mut acc: i64 = 0;
    proof {
        assert(s@.subrange(start as int, start as int) =~= Seq::<char>::empty());
    }
    while i < n
        invariant
            start <= i <= n,
            forall|m: int| start <= m < i ==> is_digit(s@[m]),
            acc == digits_to_int(s@.subrange(start as int, i as int)),
            0 <= acc <= 0x8000_0000,
        decreases n - i,
    {
        let c = s.get_char(i);
        let u = c as u32;
        if u < 48 || u > 57 {
            proof {
                assert(ds[i - start] == s@[i as int]);
                assert(!all_digits(ds));
            }
            return None;
        }
        let d = (u - 48) as i64;
        let na = acc * 10 + d;
        proof {
            assert(s@.subrange(start as int, i + 1).drop_last() =~= s@.subrange(
                start as int,
                i as int,
            ));
            assert(s@.subrange(start as int, i + 1).last() == s@[i as int]);
        }
        if na > 0x8000_0000 {
            proof {
                if all_digits(ds) {
                    let p = i + 1 - start;
                    assert(ds.take(p) =~= s@.subrange(start as int, i + 1));
                    assert(digits_to_int(ds.take(p)) == na);
                    lemma_digits_to_int_prefix(ds, p);
                    assert(digits_to_int(ds) > 0x8000_0000);
                }
            }
            return None;
        }
        acc = na;
        i += 1;
    }
    proof {
        assert(ds =~= s@.subrange(start as int, n as int));
        assert(all_digits(ds));
        assert(digits_to_int(ds) == acc);
    }
    if neg {
        let v = -acc;
        Some(v as i32)
    } else {
        if acc > 0x7fff_ffff {
            return None;
        }
        Some(acc as i32)
    }
}

// ---------- decimal formatting ----------

pub open spec fn dec_digit_char(d: int) -> char {
    if d == 0 {
        '0'
    } else if d == 1 {
        '1'
    } else if d == 2 {
        '2'
    } else if d == 3 {
        '3'
    } else if d == 4 {
        '4'
    } else if d == 5 {
        '5'
    } else if d == 6 {
        '6'
    } else if d == 7 {
        '7'
    } else if d == 8 {
        '8'
    } else {
        '9'
    }
}

/// The decimal digits of a non-negative integer, most significant first.
pub open spec fn dec_chars(n: int) -> Seq<char>
    decreases n,
{
    if n < 10 {
        seq![dec_digit_char(n)]
    } else {
        dec_chars(n / 10).push(dec_digit_char(n % 10))
    }
}

/// What formatting an `i32` in decimal prints: a `-` for a negative value,
/// then the digits of its magnitude.
pub open spec fn i32_dec_chars(n: i32) -> Seq<char> {
    if n < 0 {
        seq!['-'] + dec_chars(-(n as int))
    } else {
        dec_chars(n as int)
    }
}

/// The digit characters of a least-significant-first digit vector, read back
/// most significant first.
pub open spec fn rev_digit_chars(ds: Seq<u8>) -> Seq<char> {
    Seq::new(ds.len(), |i: int| dec_digit_char(ds[ds.len() - 1 - i] as int))
}

fn digit_str(d: u8) -> (r: &'static str)
    requires
        d < 10,
    ensures
        r@ == seq![dec_digit_char(d as int)],
{
    proof {
        reveal_strlit("0");
        reveal_strlit("1");
        reveal_strlit("2");
        reveal_strlit("3");
        reveal_strlit("4");
        reveal_strlit("5");
        reveal_strlit("6");
        reveal_strlit("7");
        reveal_strlit("8");
        reveal_strlit("9");
    }
    let r = match d {
        0 => "0",
        1 => "1",
        2 => "2",
        3 => "3",
        4 => "4",
        5 => "5",
        6 => "6",
        7 => "7",
        8 => "8",
        _ => "9",
    };
    proof {
        assert(r@ =~= seq![dec_digit_char(d as int)]);
    }
    r
}

/// Formats an `i32` in decimal, as `format!("{n}")` would.
#[verifier::loop_isolation(false)]
pub fn i32_to_dec_string(n: i32) -> (r: String)
    ensures
        r@ == i32_dec_chars(n),
{
    let neg = n < 0;
    let mut m: i64 = n as i64;
    if neg {
        m = -m;
    }
    let ghost m0 = m as int;
    let mut digits: Vec<u8> = Vec::new();
    let d0 = (m % 10) as u8;
    digits.push(d0);
    m = m / 10;
    proof {
        if m > 0 {
            assert(dec_chars(m0) =~= dec_chars(m as int) + rev_digit_chars(digits@));
        } else {
            assert(dec_chars(m0) =~= rev_digit_chars(digits@));
        }
    }
    while m > 0
        invariant
            0 <= m,
            digits@.len() >= 1,
            forall|k: int| 0 <= k < digits@.len() ==> digits@[k] < 10,
            dec_chars(m0) == (if m > 0 {
                dec_chars(m as int) + rev_digit_chars(digits@)
            } else {
                rev_digit_chars(digits@)
            }),
        decreases m,
    {
        let d = (m % 10) as u8;
        let ghost prevd = digits@;
        let ghost mprev = m as int;
        digits.push(d);
        m = m / 10;
        proof {
            assert(rev_digit_chars(digits@) =~= seq![dec_digit_char(d as int)] + rev_digit_chars(
                prevd,
            ));
            if m > 0 {
                assert(dec_chars(mprev) == dec_chars(m as int).push(dec_digit_char(mprev % 10)));
                assert(dec_chars(m as int) + rev_digit_chars(digits@) =~= (dec_chars(
                    m as int,
                ).push(dec_digit_char(d as int))) + rev_digit_chars(prevd));
            } else {
                assert(dec_chars(mprev) == seq![dec_digit_char(mprev)]);
                assert(seq![dec_digit_char(mprev)] + rev_digit_chars(prevd) =~= rev_digit_chars(
                    digits@,
                ));
            }
        }
    }
    let mut r = String::new();
    if neg {
        proof {
            reveal_strlit("-");
        }
        r.append("-");
    }
    let ghost sign: Seq<char> = if neg {
        seq!['-']
    } else {
        Seq::<char>::empty()
    };
    proof {
        assert(r@ =~= sign + rev_digit_chars(digits@).take(0));
    }
    let mut i = digits.len();
    while i > 0
        invariant
            i <= digits@.len(),
            r@ == sign + rev_digit_chars(digits@).take(digits@.len() - i),
        decreases i,
    {
        i -= 1;
        r.append(digit_str(digits[i]));
        proof {
            assert(rev_digit_chars(digits@).take(digits@.len() - i) =~= rev_digit_chars(
                digits@,
            ).take(digits@.len() - i - 1).push(dec_digit_char(digits@[i as int] as int)));
            assert(r@ =~= sign + rev_digit_chars(digits@).take(digits@.len() - i));
        }
    }
    proof {
        assert(rev_digit_chars(digits@).take(digits@.len() as int) =~= rev_digit_chars(digits@));
        assert(r@ =~= i32_dec_chars(n));
    }
    r
}

} // verus!
