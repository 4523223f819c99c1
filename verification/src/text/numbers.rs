//! Decimal numbers in text.

use vstd::prelude::*;

verus! {

/// Whether `c` is one of the ten ASCII digits.
pub open spec fn is_digit(c: char) -> bool {
    '0' <= c && c <= '9'
}

/// The number that the digit `c` stands for.
pub open spec fn digit_value(c: char) -> nat {
    (c as u32 - '0' as u32) as nat
}

/// Whether `s` holds digits only.
pub open spec fn all_digits(s: Seq<char>) -> bool {
    forall|i: int| 0 <= i < s.len() ==> is_digit(#[trigger] s[i])
}

/// The number that the digits of `s` write in base ten; 0 for the empty text.
pub open spec fn digits_value(s: Seq<char>) -> nat
    decreases s.len(),
{
    if s.len() == 0 {
        0
    } else {
        digits_value(s.drop_last()) * 10 + digit_value(s.last())
    }
}

/// The digits of a number in text: `s` itself, or what follows one leading
/// plus sign.
pub open spec fn unsigned_body(s: Seq<char>) -> Seq<char> {
    if s.len() > 0 && s[0] == '+' {
        s.drop_first()
    } else {
        s
    }
}

/// The number that `s` writes, if it is at most `max`: an optional plus sign
/// and then one or more digits, nothing before, between or after them.
pub open spec fn parse_unsigned(s: Seq<char>, max: nat) -> Option<nat> {
    let body = unsigned_body(s);
    if body.len() > 0 && all_digits(body) && digits_value(body) <= max {
        Some(digits_value(body))
    } else {
        None
    }
}

/// A longer run of digits writes no smaller number than its beginning.
pub proof fn lemma_digits_value_grows(s: Seq<char>, n: int)
    requires
        0 <= n <= s.len(),
    ensures
        digits_value(s.take(n)) <= digits_value(s),
    decreases s.len(),
{
    if n == s.len() {
        assert(s.take(n) == s);
    } else {
        assert(s.drop_last().take(n) == s.take(n));
        lemma_digits_value_grows(s.drop_last(), n);
    }
}

/// The number that `v[from..]` writes in digits, if there is a digit, there
/// are digits only and the number is at most `max`.
fn parse_digits(v: &Vec<char>, from: usize, max: u32) -> (r: Option<u32>)
    requires
        from <= v.len(),
    ensures
        ({
            let body = v@.skip(from as int);
            if body.len() > 0 && all_digits(body) && digits_value(body) <= max {
                r == Some(digits_value(body) as u32)
            } else {
                r is None
            }
        }),
{
    if from == v.len() {
        return None;
    }
    let ghost body = v@.skip(from as int);
    let mut acc: u64 = 0;
    let mut i: usize = from;
    assert(body.take(0) == Seq::<char>::empty());
    while i < v.len()
        invariant
            from <= i <= v.len(),
            body == v@.skip(from as int),
            all_digits(body.take(i - from)),
            acc == digits_value(body.take(i - from)),
            acc <= max,
        decreases v.len() - i,
    {
        let c = v[i];
        assert(body[i - from] == c);
        if !(c >= '0' && c <= '9') {
            assert(!is_digit(body[i - from]));
            return None;
        }
        let d: u64 = (c as u32 - '0' as u32) as u64;
        proof {
            assert(body.take(i - from + 1).drop_last() == body.take(i - from));
            assert(body.take(i - from + 1).last() == c);
            assert forall|k: int| 0 <= k < i - from + 1 implies is_digit(
                #[trigger] body.take(i - from + 1)[k],
            ) by {
                if k < i - from {
                    assert(body.take(i - from)[k] == body[k]);
                }
            }
        }
        let next: u64 = acc * 10 + d;
        if next > max as u64 {
            proof {
                lemma_digits_value_grows(body, i - from + 1);
            }
            return None;
        }
        acc = next;
        i += 1;
    }
    assert(body.take(i - from) == body);
    Some(acc as u32)
}

/// The number that `v` writes, if it fits 16 bits.
pub fn parse_u16(v: &Vec<char>) -> (r: Option<u16>)
    ensures
        match r {
            Some(n) => parse_unsigned(v@, 0xffff) == Some(n as nat),
            None => parse_unsigned(v@, 0xffff) is None,
        },
{
    let from: usize = if v.len() > 0 && v[0] == '+' {
        1
    } else {
        0
    };
    assert(v@.skip(from as int) == unsigned_body(v@));
    match parse_digits(v, from, 0xffff) {
        Some(n) => Some(n as u16),
        None => None,
    }
}

/// The number that `v` writes, if it fits 32 bits.
pub fn parse_u32(v: &Vec<char>) -> (r: Option<u32>)
    ensures
        match r {
            Some(n) => parse_unsigned(v@, 0xffff_ffff) == Some(n as nat),
            None => parse_unsigned(v@, 0xffff_ffff) is None,
        },
{
    let from: usize = if v.len() > 0 && v[0] == '+' {
        1
    } else {
        0
    };
    assert(v@.skip(from as int) == unsigned_body(v@));
    parse_digits(v, from, 0xffff_ffff)
}

/// The digit that writes `d`, for `d` below ten.
pub open spec fn digit_char(d: nat) -> char {
    (('0' as u32 + d) as u8) as char
}

/// `n` in base ten, without leading zeros.
pub open spec fn decimal(n: nat) -> Seq<char>
    decreases n,
{
    if n < 10 {
        seq![digit_char(n)]
    } else {
        decimal(n / 10).push(digit_char(n % 10))
    }
}

/// `n` in base ten.
pub fn decimal_chars(n: u32) -> (r: Vec<char>)
    ensures
        r@ == decimal(n as nat),
{
    let mut rev: Vec<char> = Vec::new();
    let mut m: u32 = n;
    // The digits from the last to the second.
    while m >= 10
        invariant
            decimal(n as nat) == decimal(m as nat) + rev@.reverse(),
        decreases m,
    {
        let d: u32 = m % 10;
        let c: char = ((48 + d) as u8) as char;
        assert(c == digit_char(d as nat));
        proof {
            let ghost before = rev@;
            assert(decimal(m as nat) == decimal((m / 10) as nat).push(c));
            assert(before.push(c).reverse() == seq![c] + before.reverse());
            assert(decimal((m / 10) as nat).push(c) + before.reverse() == decimal(
                (m / 10) as nat,
            ) + (seq![c] + before.reverse()));
        }
        rev.push(c);
        m = m / 10;
    }
    let c: char = ((48 + m) as u8) as char;
    assert(c == digit_char(m as nat));
    let mut r: Vec<char> = Vec::new();
    r.push(c);
    assert(r@ == decimal(m as nat));
    let mut i: usize = rev.len();
    assert(rev@.reverse().take(0) == Seq::<char>::empty());
    assert(r@ == decimal(m as nat) + rev@.reverse().take(0));
    while i > 0
        invariant
            i <= rev.len(),
            r@ == decimal(m as nat) + rev@.reverse().take(rev.len() - i),
        decreases i,
    {
        i -= 1;
        r.push(rev[i]);
        proof {
            let t = rev@.reverse();
            let k = rev.len() - i;
            assert(t.take(k) == t.take(k - 1).push(t[k - 1]));
            assert(t[k - 1] == rev@[i as int]);
            assert((decimal(m as nat) + t.take(k - 1)).push(rev@[i as int]) == decimal(m as nat)
                + t.take(k - 1).push(rev@[i as int]));
        }
    }
    assert(rev@.reverse().take(rev.len() as int) == rev@.reverse());
    r
}

} // verus!
