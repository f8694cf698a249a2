//! Decimal text for the score displays.
//!
//! A score display always shows its value as a decimal string with no
//! leading zeros.  This module renders a number to that string, parses
//! such a string back, and proves the round trip: parsing the rendering
//! of `n` gives back exactly `n`.

use vstd::prelude::*;

verus! {

/// The decimal digit character for `d` (`0 <= d < 10`).
pub open spec fn digit_char(d: int) -> char
    recommends
        0 <= d < 10,
{
    if d == 0 {
        '0'
    } else if d == 1 {
        '1'
    } else if d == 2 {
        '2'
    } else if d == 3 {
        '3'
    } else if d == 4 {
        '4'
    } else if d == 5 {
        '5'
    } else if d == 6 {
        '6'
    } else if d == 7 {
        '7'
    } else if d == 8 {
        '8'
    } else {
        '9'
    }
}

/// The numeric value of a decimal digit character, `-1` for any other char.
pub open spec fn digit_value(c: char) -> int {
    if c == '0' {
        0
    } else if c == '1' {
        1
    } else if c == '2' {
        2
    } else if c == '3' {
        3
    } else if c == '4' {
        4
    } else if c == '5' {
        5
    } else if c == '6' {
        6
    } else if c == '7' {
        7
    } else if c == '8' {
        8
    } else if c == '9' {
        9
    } else {
        -1
    }
}

/// Whether every character of `s` is a decimal digit.
pub open spec fn all_digits(s: Seq<char>) -> bool {
    forall|i: int| 0 <= i < s.len() ==> digit_value(s[i]) >= 0
}

/// The number a nonempty digit string denotes.
pub open spec fn digits_value(s: Seq<char>) -> int
    recommends
        s.len() > 0,
        all_digits(s),
    decreases s.len(),
{
    if s.len() <= 1 {
        digit_value(s[0])
    } else {
        digits_value(s.drop_last()) * 10 + digit_value(s.last())
    }
}

/// The number a string denotes, or `None` where it is not a nonempty
/// digit string.
pub open spec fn parse_decimal_spec(s: Seq<char>) -> Option<int> {
    if s.len() > 0 && all_digits(s) {
        Some(digits_value(s))
    } else {
        None
    }
}

/// The decimal rendering of `n >= 0`, with no leading zeros.
pub open spec fn decimal_digits(n: int) -> Seq<char>
    recommends
        n >= 0,
    decreases n,
{
    if n < 10 {
        seq![digit_char(n)]
    } else {
        decimal_digits(n / 10).push(digit_char(n % 10))
    }
}

/// The one-character string for a decimal digit.
fn digit_str(d: u32) -> (s: &'static str)
    requires
        d < 10,
    ensures
        s@ =~= seq![digit_char(d as int)],
{
    proof {
        reveal_strlit("0");
        reveal_strlit("1");
        reveal_strlit("2");
        reveal_strlit("3");
        reveal_strlit("4");
        reveal_strlit("5");
        reveal_strlit("6");
        reveal_strlit("7");
        reveal_strlit("8");
        reveal_strlit("9");
    }
    if d == 0 {
        "0"
    } else if d == 1 {
        "1"
    } else if d == 2 {
        "2"
    } else if d == 3 {
        "3"
    } else if d == 4 {
        "4"
    } else if d == 5 {
        "5"
    } else if d == 6 {
        "6"
    } else if d == 7 {
        "7"
    } else if d == 8 {
        "8"
    } else {
        "9"
    }
}

/// Render `n` as its decimal string.
pub fn u32_to_decimal(n: u32) -> (s: String)
    ensures
        s@ == decimal_digits(n as int),
    decreases n,
{
    if n < 10 {
        String::from_str(digit_str(n))
    } else {
        let mut s = u32_to_decimal(n / 10);
        s.append(digit_str(n % 10));
        proof {
            assert(s@ =~= decimal_digits((n / 10) as int).push(digit_char((n % 10) as int)));
        }
        s
    }
}

/// Parse a decimal string back to a number.
///
/// Returns the denoted value where the string is a nonempty digit string
/// whose value fits a `u32`, and `None` otherwise.
pub fn parse_u32_decimal(s: &str) -> (r: Option<u32>)
    ensures
        match parse_decimal_spec(s@) {
            Some(v) => r == if v <= u32::MAX { Some(v as u32) } else { None::<u32> },
            None => r is None,
        },
{
    let n = s.unicode_len();
    if n == 0 {
        return None;
    }
    let mut acc: u32 = 0;
    let mut i: usize = 0;
    while i < n
        invariant
            0 < n == s@.len(),
            0 <= i <= n,
            i > 0 ==> all_digits(s@.subrange(0, i as int)) && acc == digits_value(
                s@.subrange(0, i as int),
            ),
            i == 0 ==> acc == 0,
        decreases n - i,
    {
        let c = s.get_char(i);
        let d: u32 = if c == '0' {
            0
        } else if c == '1' {
            1
        } else if c == '2' {
            2
        } else if c == '3' {
            3
        } else if c == '4' {
            4
        } else if c == '5' {
            5
        } else if c == '6' {
            6
        } else if c == '7' {
            7
        } else if c == '8' {
            8
        } else if c == '9' {
            9
        } else {
            return None;
        };
        assert(d == digit_value(s@[i as int]));
        if acc > (u32::MAX - d) / 10 {
            proof {
                let prefix = s@.subrange(0, i as int);
                let prefix1 = s@.subrange(0, i as int + 1);
                assert(i > 0);
                assert(prefix1.drop_last() =~= prefix);
                assert(prefix1.last() == s@[i as int]);
                assert(digits_value(prefix1) == digits_value(prefix) * 10 + d);
                assert(acc * 10 + d > u32::MAX) by {
                    vstd::arithmetic::div_mod::lemma_fundamental_div_mod(
                        u32::MAX - d,
                        10,
                    );
                }
                if all_digits(s@) {
                    lemma_digits_value_grows(s@, i as int + 1);
                }
            }
            return None;
        }
        let ghost prefix = s@.subrange(0, i as int);
        acc = acc * 10 + d;
        proof {
            let prefix1 = s@.subrange(0, i as int + 1);
            assert(prefix1.drop_last() =~= prefix);
            assert(prefix1.last() == s@[i as int]);
            if i > 0 {
                assert(digits_value(prefix1) == digits_value(prefix) * 10 + d);
            }
        }
        i = i + 1;
    }
    proof {
        assert(s@.subrange(0, n as int) =~= s@);
    }
    Some(acc)
}

/// A nonempty digit string denotes a nonnegative number.
proof fn lemma_digits_value_nonneg(s: Seq<char>)
    requires
        s.len() > 0,
        all_digits(s),
    ensures
        digits_value(s) >= 0,
    decreases s.len(),
{
    if s.len() > 1 {
        lemma_digits_value_nonneg(s.drop_last());
    }
}

/// Extending a digit prefix never shrinks its value: the value of the
/// whole string is at least the value of any nonempty digit prefix.
proof fn lemma_digits_value_grows(s: Seq<char>, k: int)
    requires
        0 < k <= s.len(),
        all_digits(s.subrange(0, k)),
        all_digits(s),
    ensures
        digits_value(s) >= digits_value(s.subrange(0, k)),
    decreases s.len() - k,
{
    if k < s.len() {
        let t = s.subrange(0, k + 1);
        assert(t.drop_last() =~= s.subrange(0, k));
        lemma_digits_value_nonneg(s.subrange(0, k));
        assert(digit_value(t.last()) >= 0);
        assert(digits_value(t) >= digits_value(s.subrange(0, k))) by {
            lemma_digits_value_nonneg(s.subrange(0, k));
        }
        lemma_digits_value_grows(s, k + 1);
        assert(s.subrange(0, s.len() as int) =~= s);
    } else {
        assert(s.subrange(0, k) =~= s);
    }
}

/// The round trip: parsing the decimal rendering of `n` yields `n` back.
pub proof fn lemma_decimal_round_trip(n: int)
    requires
        0 <= n,
    ensures
        parse_decimal_spec(decimal_digits(n)) == Some(n),
    decreases n,
{
    if n < 10 {
        assert(decimal_digits(n) =~= seq![digit_char(n)]);
        assert(digit_value(digit_char(n)) == n);
    } else {
        lemma_decimal_round_trip(n / 10);
        let s = decimal_digits(n);
        let p = decimal_digits(n / 10);
        assert(s == p.push(digit_char(n % 10)));
        assert(s.drop_last() =~= p);
        assert(s.last() == digit_char(n % 10));
        assert(forall|i: int|
            0 <= i < s.len() ==> digit_value(s[i]) >= 0) by {
            assert(forall|i: int| 0 <= i < p.len() ==> s[i] == p[i]);
        }
        assert(digits_value(s) == digits_value(p) * 10 + digit_value(digit_char(n % 10)));
        assert(digit_value(digit_char(n % 10)) == n % 10);
        assert(digits_value(p) * 10 + n % 10 == n) by {
            vstd::arithmetic::div_mod::lemma_fundamental_div_mod(n, 10);
        }
    }
}

} // verus!
