//! Numbers as text: digits in a base, and the decimal grammar of unsigned numbers.

use crate::text::{chars_of, text_of};
use vstd::prelude::*;

verus! {

/// The character of the digit `d`, below 16, with lower-case letters.
pub open spec fn digit_char(d: nat) -> char {
    if d < 10 {
        ('0' as u32 + d) as char
    } else {
        ('a' as u32 + d - 10) as char
    }
}

/// `n` written in `base`, most significant digit first, without leading zeros.
pub open spec fn digits(n: nat, base: nat) -> Seq<char>
    decreases n,
{
    if base < 2 || n < base {
        seq![digit_char(n)]
    } else {
        proof {
            assert(n / base < n) by (nonlinear_arith)
                requires
                    n >= base,
                    base >= 2,
            ;
        }
        digits(n / base, base).push(digit_char(n % base))
    }
}

/// `n` in decimal.
pub open spec fn decimal_text(n: nat) -> Seq<char> {
    digits(n, 10)
}

/// `n` in lower-case hexadecimal.
pub open spec fn hex_text(n: nat) -> Seq<char> {
    digits(n, 16)
}

/// An ASCII decimal digit.
pub open spec fn is_digit(c: char) -> bool {
    '0' <= c <= '9'
}

/// All characters are ASCII decimal digits.
pub open spec fn all_digits(s: Seq<char>) -> bool {
    forall|i: int| 0 <= i < s.len() ==> is_digit(#[trigger] s[i])
}

/// The number that a sequence of decimal digits writes.
pub open spec fn digits_value(s: Seq<char>) -> nat
    decreases s.len(),
{
    if s.len() == 0 {
        0
    } else {
        digits_value(s.drop_last()) * 10 + (s.last() as u32 - '0' as u32) as nat
    }
}

/// The digits of `s`: all of it, or what follows a leading `+`.
pub open spec fn unsigned_digits(s: Seq<char>) -> Seq<char> {
    if s.len() > 0 && s[0] == '+' {
        s.skip(1)
    } else {
        s
    }
}

/// The number not above `max` that `s` writes: an optional `+`, then at least one
/// digit and nothing else.
pub open spec fn parsed(s: Seq<char>, max: nat) -> Option<nat> {
    let d = unsigned_digits(s);
    if d.len() > 0 && all_digits(d) && digits_value(d) <= max {
        Some(digits_value(d))
    } else {
        None
    }
}

/// The character of a digit below 16.
fn digit(d: u128) -> (c: char)
    requires
        d < 16,
    ensures
        c == digit_char(d as nat),
{
    match d {
        0 => '0',
        1 => '1',
        2 => '2',
        3 => '3',
        4 => '4',
        5 => '5',
        6 => '6',
        7 => '7',
        8 => '8',
        9 => '9',
        10 => 'a',
        11 => 'b',
        12 => 'c',
        13 => 'd',
        14 => 'e',
        _ => 'f',
    }
}

/// The digits of `n` in `base`, as text.
fn render(n: u128, base: u128) -> (r: String)
    requires
        2 <= base <= 16,
    ensures
        r@ == digits(n as nat, base as nat),
{
    let mut backward: Vec<char> = Vec::new();
    let mut rest: u128 = n;
    while rest >= base
        invariant
            2 <= base <= 16,
            digits(n as nat, base as nat) == digits(rest as nat, base as nat)
                + backward@.reverse(),
        decreases rest,
    {
        let ghost before = backward@;
        backward.push(digit(rest % base));
        proof {
            let d = digit_char((rest % base) as nat);
            assert(backward@.reverse() =~= seq![d] + before.reverse());
            assert(digits((rest / base) as nat, base as nat).push(d) + before.reverse()
                =~= digits((rest / base) as nat, base as nat) + (seq![d] + before.reverse()));
            assert(rest / base < rest) by (nonlinear_arith)
                requires
                    rest >= base,
                    base >= 2,
            ;
        }
        rest = rest / base;
    }
    let ghost before = backward@;
    backward.push(digit(rest));
    let mut forward: Vec<char> = Vec::new();
    let mut i: usize = backward.len();
    while i > 0
        invariant
            i <= backward@.len(),
            forward@ == backward@.skip(i as int).reverse(),
        decreases i,
    {
        i = i - 1;
        forward.push(backward[i]);
        assert(backward@.skip(i as int).reverse() =~= backward@.skip(i + 1).reverse().push(
            backward@[i as int],
        ));
    }
    proof {
        assert(backward@.skip(0) =~= backward@);
        assert(backward@.reverse() =~= seq![digit_char(rest as nat)] + before.reverse());
    }
    text_of(&forward)
}

/// `n` in decimal.
pub fn decimal(n: u64) -> (r: String)
    ensures
        r@ == decimal_text(n as nat),
{
    render(n as u128, 10)
}

/// `n` in decimal.
pub fn decimal_wide(n: u128) -> (r: String)
    ensures
        r@ == decimal_text(n as nat),
{
    render(n, 10)
}

/// `n` in lower-case hexadecimal.
pub fn hexadecimal(n: u64) -> (r: String)
    ensures
        r@ == hex_text(n as nat),
{
    render(n as u128, 16)
}

/// The value of a prefix is no greater than the value of the whole.
proof fn lemma_value_grows(s: Seq<char>, i: int)
    requires
        all_digits(s),
        0 <= i <= s.len(),
    ensures
        digits_value(s.take(i)) <= digits_value(s),
    decreases s.len(),
{
    if i == s.len() {
        assert(s.take(i) =~= s);
    } else {
        let t = s.drop_last();
        assert(all_digits(t)) by {
            assert forall|j: int| 0 <= j < t.len() implies is_digit(#[trigger] t[j]) by {
                assert(t[j] == s[j]);
            }
        }
        lemma_value_grows(t, i);
        assert(t.take(i) =~= s.take(i));
        assert(is_digit(s[s.len() - 1]));
    }
}

/// The number not above `max` that the text writes.
pub fn parse_up_to(s: &str, max: u64) -> (r: Option<u64>)
    ensures
        match r {
            Some(n) => parsed(s@, max as nat) == Some(n as nat),
            None => parsed(s@, max as nat) is None,
        },
{
    let v = chars_of(s);
    let start: usize = if v.len() > 0 && v[0] == '+' {
        1
    } else {
        0
    };
    let ghost d = unsigned_digits(s@);
    assert(d =~= s@.skip(start as int));
    if start == v.len() {
        return None;
    }
    let mut n: u64 = 0;
    for i in start..v.len()
        invariant
            v@ == s@,
            start <= v@.len(),
            d == v@.skip(start as int),
            d == unsigned_digits(s@),
            d.len() > 0,
            all_digits(d.take(i - start)),
            n == digits_value(d.take(i - start)),
            n <= max,
    {
        let c = v[i];
        assert(c == d[i - start]);
        if c < '0' || c > '9' {
            assert(!is_digit(d[i - start]));
            return None;
        }
        let x: u64 = (c as u32 - '0' as u32) as u64;
        let ghost longer = d.take(i - start + 1);
        proof {
            assert(longer.drop_last() =~= d.take(i - start));
            assert(longer.last() == c);
            assert forall|j: int| 0 <= j < longer.len() implies is_digit(#[trigger] longer[j]) by {
                if j < i - start {
                    assert(longer[j] == d.take(i - start)[j]);
                }
            }
        }
        let wide: u128 = n as u128 * 10 + x as u128;
        if wide > max as u128 {
            proof {
                if all_digits(d) {
                    lemma_value_grows(d, i - start + 1);
                }
            }
            return None;
        }
        n = wide as u64;
    }
    assert(d.take(v@.len() - start) =~= d);
    Some(n)
}

/// `u64` from text.
pub fn parse_u64(s: &str) -> (r: Option<u64>)
    ensures
        match r {
            Some(n) => parsed(s@, u64::MAX as nat) == Some(n as nat),
            None => parsed(s@, u64::MAX as nat) is None,
        },
{
    parse_up_to(s, u64::MAX)
}

/// A written number has only digits, and reads back as itself.
pub proof fn lemma_decimal_reads_back(n: nat)
    ensures
        decimal_text(n).len() > 0,
        all_digits(decimal_text(n)),
        digits_value(decimal_text(n)) == n,
    decreases n,
{
    let s = decimal_text(n);
    if n < 10 {
        assert(s.drop_last() =~= Seq::<char>::empty());
        assert(digits_value(s.drop_last()) == 0);
        assert(is_digit(s[0]));
    } else {
        lemma_decimal_reads_back(n / 10);
        let t = decimal_text(n / 10);
        assert(s.drop_last() =~= t);
        assert forall|j: int| 0 <= j < s.len() implies is_digit(#[trigger] s[j]) by {
            if j < t.len() {
                assert(s[j] == t[j]);
            }
        }
    }
}

/// Different numbers are written differently.
pub proof fn lemma_decimal_is_injective(a: nat, b: nat)
    ensures
        decimal_text(a) == decimal_text(b) ==> a == b,
{
    lemma_decimal_reads_back(a);
    lemma_decimal_reads_back(b);
}

/// No digit is a hyphen.
pub proof fn lemma_digits_have_no_hyphen(n: nat, base: nat)
    requires
        2 <= base <= 16,
    ensures
        digits(n, base).len() > 0,
        !digits(n, base).contains('-'),
    decreases n,
{
    let s = digits(n, base);
    if n >= base {
        assert(n / base < n) by (nonlinear_arith)
            requires
                n >= base,
                base >= 2,
        ;
        assert(0 <= n % base < base) by (nonlinear_arith)
            requires
                base >= 2,
        ;
        let t = digits(n / base, base);
        lemma_digits_have_no_hyphen(n / base, base);
        assert forall|i: int| 0 <= i < s.len() implies s[i] != '-' by {
            if i < t.len() {
                assert(s[i] == t[i]);
                assert(t.contains(t[i]));
            }
        }
    }
}

/// Different digits are different characters.
proof fn lemma_digit_chars_differ(d: nat, e: nat)
    requires
        d < 16,
        e < 16,
        digit_char(d) == digit_char(e),
    ensures
        d == e,
{
    assert(('0' as u32 + d) as u32 as char as u32 == '0' as u32 + d);
    assert(('0' as u32 + e) as u32 as char as u32 == '0' as u32 + e);
    assert(('a' as u32 + d - 10) as char as u32 == 'a' as u32 + d - 10);
    assert(('a' as u32 + e - 10) as char as u32 == 'a' as u32 + e - 10);
}

/// In one base, different numbers are written differently.
#[verifier::spinoff_prover]
pub proof fn lemma_digits_are_injective(a: nat, b: nat, base: nat)
    requires
        2 <= base <= 16,
        digits(a, base) == digits(b, base),
    ensures
        a == b,
    decreases a,
{
    let s = digits(a, base);
    let t = digits(b, base);
    assert(s.last() == t.last());
    if a >= base {
        lemma_digits_have_no_hyphen(a / base, base);
    }
    if b >= base {
        lemma_digits_have_no_hyphen(b / base, base);
    }
    if a >= base && b >= base {
        assert(a / base < a) by (nonlinear_arith)
            requires
                a >= base,
                base >= 2,
        ;
        assert(0 <= a % base < base && 0 <= b % base < base) by (nonlinear_arith)
            requires
                base >= 2,
        ;
        assert(s.last() == digit_char(a % base));
        assert(t.last() == digit_char(b % base));
        lemma_digit_chars_differ(a % base, b % base);
        assert(s.drop_last() =~= digits(a / base, base));
        assert(t.drop_last() =~= digits(b / base, base));
        lemma_digits_are_injective(a / base, b / base, base);
        assert(a == b) by (nonlinear_arith)
            requires
                base >= 2,
                a / base == b / base,
                a % base == b % base,
        ;
    } else if a < base && b < base {
        assert(s.last() == digit_char(a));
        assert(t.last() == digit_char(b));
        lemma_digit_chars_differ(a, b);
    }
}

} // verus!
