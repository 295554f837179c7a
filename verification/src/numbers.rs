//! Reading and writing unsigned numbers as text, in base ten and sixteen.

use vstd::prelude::*;

verus! {

/// The value of `c` as a digit of base `radix` (ten or sixteen), if it is one.
pub open spec fn digit_value(c: char, radix: int) -> Option<int> {
    let u = c as u32 as int;
    if 0x30 <= u <= 0x39 {
        Some(u - 0x30)
    } else if radix == 16 && 0x61 <= u <= 0x66 {
        Some(u - 0x61 + 10)
    } else if radix == 16 && 0x41 <= u <= 0x46 {
        Some(u - 0x41 + 10)
    } else {
        None
    }
}

/// The number that the digits `s` spell in base `radix`; `None` if one of the
/// characters is no digit. No digits spell zero.
pub open spec fn digits_value(s: Seq<char>, radix: int) -> Option<nat>
    decreases s.len(),
{
    if s.len() == 0 {
        Some(0)
    } else {
        match (digits_value(s.drop_last(), radix), digit_value(s.last(), radix)) {
            (Some(high), Some(d)) => Some((high * radix + d) as nat),
            _ => None,
        }
    }
}

/// What the standard library's parsers for unsigned integers accept: an
/// optional `+`, then one digit or more, nothing else, and a value of at most
/// `max`.
pub open spec fn parse_unsigned(s: Seq<char>, radix: int, max: nat) -> Option<nat> {
    let body = if s.len() > 0 && s[0] == '+' {
        s.skip(1)
    } else {
        s
    };
    if body.len() == 0 {
        None
    } else {
        match digits_value(body, radix) {
            Some(v) => if v <= max {
                Some(v)
            } else {
                None
            },
            None => None,
        }
    }
}

/// The character for a digit below sixteen, letters in upper case.
pub open spec fn digit_char(d: int) -> char {
    if d == 0 {
        '0'
    } else if d == 1 {
        '1'
    } else if d == 2 {
        '2'
    } else if d == 3 {
        '3'
    } else if d == 4 {
        '4'
    } else if d == 5 {
        '5'
    } else if d == 6 {
        '6'
    } else if d == 7 {
        '7'
    } else if d == 8 {
        '8'
    } else if d == 9 {
        '9'
    } else if d == 10 {
        'A'
    } else if d == 11 {
        'B'
    } else if d == 12 {
        'C'
    } else if d == 13 {
        'D'
    } else if d == 14 {
        'E'
    } else {
        'F'
    }
}

/// `n` written in base `radix` (ten or sixteen) without leading zeros; zero is
/// written `0`.
pub open spec fn number_text(n: nat, radix: int) -> Seq<char>
    decreases n,
{
    if radix == 16 {
        if n < 16 {
            seq![digit_char(n as int)]
        } else {
            number_text(n / 16, radix).push(digit_char((n % 16) as int))
        }
    } else {
        if n < 10 {
            seq![digit_char(n as int)]
        } else {
            number_text(n / 10, radix).push(digit_char((n % 10) as int))
        }
    }
}

/// A longer run of digits never spells a smaller number than its prefix.
pub proof fn lemma_digits_value_grows(s: Seq<char>, k: int, radix: int)
    requires
        0 <= k <= s.len(),
        radix == 10 || radix == 16,
        digits_value(s, radix) is Some,
    ensures
        digits_value(s.take(k), radix) is Some,
        digits_value(s.take(k), radix)->0 <= digits_value(s, radix)->0,
    decreases s.len() - k,
{
    if k == s.len() {
        assert(s.take(k) == s);
    } else {
        let t = s.drop_last();
        assert(t.take(k) == s.take(k));
        lemma_digits_value_grows(t, k, radix);
        let high = digits_value(t, radix)->0;
        let d = digit_value(s.last(), radix)->0;
        assert(high * radix + d >= high) by (nonlinear_arith)
            requires
                high >= 0,
                d >= 0,
                radix >= 1,
        ;
    }
}

/// Executable form of [`digit_value`].
pub fn digit_of(c: char, radix: u32) -> (r: Option<u64>)
    requires
        radix == 10 || radix == 16,
    ensures
        r is Some <==> digit_value(c, radix as int) is Some,
        r matches Some(d) ==> d == digit_value(c, radix as int)->0 && d < radix,
{
    let u: u32 = c as u32;
    if 0x30 <= u && u <= 0x39 {
        Some((u - 0x30) as u64)
    } else if radix == 16 && 0x61 <= u && u <= 0x66 {
        Some((u - 0x61 + 10) as u64)
    } else if radix == 16 && 0x41 <= u && u <= 0x46 {
        Some((u - 0x41 + 10) as u64)
    } else {
        None
    }
}

/// Parses `v[lo..hi)` as an unsigned number of base `radix` that is at most
/// `max`.
pub fn parse_number(v: &Vec<char>, lo: usize, hi: usize, radix: u32, max: u64) -> (r: Option<u64>)
    requires
        lo <= hi <= v.len(),
        radix == 10 || radix == 16,
    ensures
        r is Some <==> parse_unsigned(v@.subrange(lo as int, hi as int), radix as int, max as nat)
            is Some,
        r matches Some(n) ==> n == parse_unsigned(
            v@.subrange(lo as int, hi as int),
            radix as int,
            max as nat,
        )->0,
{
    let ghost s = v@.subrange(lo as int, hi as int);
    let start: usize = if lo < hi && v[lo] == '+' {
        lo + 1
    } else {
        lo
    };
    let ghost body = v@.subrange(start as int, hi as int);
    proof {
        if lo < hi {
            assert(s[0] == v@[lo as int]);
        }
        if start == lo + 1 {
            assert(s.skip(1) == body);
        } else {
            assert(s == body);
        }
    }
    if start == hi {
        return None;
    }
    let mut acc: u64 = 0;
    assert(body.take(0) == Seq::<char>::empty());
    let mut i: usize = start;
    while i < hi
        invariant
            start <= i <= hi <= v.len(),
            radix == 10 || radix == 16,
            s == v@.subrange(lo as int, hi as int),
            body == v@.subrange(start as int, hi as int),
            body.len() > 0,
            body == if s.len() > 0 && s[0] == '+' {
                s.skip(1)
            } else {
                s
            },
            digits_value(body.take(i - start), radix as int) == Some(acc as nat),
            acc <= max,
        decreases hi - i,
    {
        let ghost prefix = body.take(i - start);
        let ghost next = body.take(i + 1 - start);
        proof {
            assert(next.drop_last() == prefix);
            assert(next.last() == v@[i as int]);
            assert(body.take(body.len() as int) == body);
        }
        let d = match digit_of(v[i], radix) {
            Some(d) => d,
            None => {
                proof {
                    if digits_value(body, radix as int) is Some {
                        lemma_digits_value_grows(body, i + 1 - start, radix as int);
                    }
                }
                return None;
            },
        };
        let wide: u128 = acc as u128 * radix as u128 + d as u128;
        if wide > max as u128 {
            proof {
                if digits_value(body, radix as int) is Some {
                    lemma_digits_value_grows(body, i + 1 - start, radix as int);
                }
            }
            return None;
        }
        acc = wide as u64;
        i += 1;
    }
    proof {
        assert(body.take(body.len() as int) == body);
    }
    Some(acc)
}

/// The one-character text of a digit below sixteen.
fn digit_text(d: u8) -> (r: &'static str)
    requires
        d < 16,
    ensures
        r@ == seq![digit_char(d as int)],
{
    proof {
        reveal_strlit("0");
        reveal_strlit("1");
        reveal_strlit("2");
        reveal_strlit("3");
        reveal_strlit("4");
        reveal_strlit("5");
        reveal_strlit("6");
        reveal_strlit("7");
        reveal_strlit("8");
        reveal_strlit("9");
        reveal_strlit("A");
        reveal_strlit("B");
        reveal_strlit("C");
        reveal_strlit("D");
        reveal_strlit("E");
        reveal_strlit("F");
    }
    let r = if d == 0 {
        "0"
    } else if d == 1 {
        "1"
    } else if d == 2 {
        "2"
    } else if d == 3 {
        "3"
    } else if d == 4 {
        "4"
    } else if d == 5 {
        "5"
    } else if d == 6 {
        "6"
    } else if d == 7 {
        "7"
    } else if d == 8 {
        "8"
    } else if d == 9 {
        "9"
    } else if d == 10 {
        "A"
    } else if d == 11 {
        "B"
    } else if d == 12 {
        "C"
    } else if d == 13 {
        "D"
    } else if d == 14 {
        "E"
    } else {
        "F"
    };
    assert(r@ =~= seq![digit_char(d as int)]);
    r
}

/// The text of the digits `ds`, last one first.
pub open spec fn reversed_digits(ds: Seq<u8>) -> Seq<char> {
    Seq::new(ds.len(), |i: int| digit_char(ds[ds.len() - 1 - i] as int))
}

/// Writes `n` in base `radix`, most significant digit first, letters in upper
/// case.
pub fn format_number(n: u64, radix: u64) -> (r: String)
    requires
        radix == 10 || radix == 16,
    ensures
        r@ == number_text(n as nat, radix as int),
{
    // Collect the digits from the least significant one up.
    let mut digits: Vec<u8> = Vec::new();
    let mut rest: u64 = n;
    assert(reversed_digits(digits@) == Seq::<char>::empty());
    while rest >= radix
        invariant
            radix == 10 || radix == 16,
            number_text(n as nat, radix as int) == number_text(rest as nat, radix as int)
                + reversed_digits(digits@),
            forall|k: int| 0 <= k < digits.len() ==> #[trigger] digits@[k] < 16,
        decreases rest,
    {
        let d = (rest % radix) as u8;
        proof {
            let shorter = number_text((rest / radix) as nat, radix as int);
            let tails = reversed_digits(digits@);
            assert(number_text(rest as nat, radix as int) == shorter.push(digit_char(d as int)));
            assert(reversed_digits(digits@.push(d)) == seq![digit_char(d as int)] + tails);
            assert(shorter.push(digit_char(d as int)) + tails == shorter + (seq![
                digit_char(d as int),
            ] + tails));
        }
        digits.push(d);
        rest = rest / radix;
    }
    let mut out = digit_text(rest as u8).to_owned();
    let mut k: usize = digits.len();
    while k > 0
        invariant
            k <= digits.len(),
            forall|j: int| 0 <= j < digits.len() ==> #[trigger] digits@[j] < 16,
            out@ == number_text(rest as nat, radix as int) + reversed_digits(digits@).take(
                digits.len() - k,
            ),
            radix == 10 || radix == 16,
            rest < radix,
        decreases k,
    {
        k -= 1;
        out.append(digit_text(digits[k]));
        proof {
            let tails = reversed_digits(digits@);
            let idx = digits.len() - 1 - k;
            assert(tails[idx] == digit_char(digits@[k as int] as int));
            assert(tails.take(idx + 1) == tails.take(idx) + seq![tails[idx]]);
        }
    }
    proof {
        let tails = reversed_digits(digits@);
        assert(tails.take(tails.len() as int) == tails);
    }
    out
}

} // verus!
