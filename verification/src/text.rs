//! Building strings: decimal numerals and repeated runs of one character.

use vstd::prelude::*;

verus! {

/// The decimal digit `d` (0 to 9) as a character.
pub open spec fn digit_char(d: nat) -> char {
    ('0' as u32 + d) as char
}

/// The decimal numeral of `n`, most significant digit first, without leading zeros.
pub open spec fn decimal(n: nat) -> Seq<char>
    decreases n,
{
    if n < 10 {
        seq![digit_char(n)]
    } else {
        decimal(n / 10).push(digit_char(n % 10))
    }
}

/// The number of decimal digits of `n` (one for zero).
pub open spec fn spec_num_digits(n: nat) -> nat
    decreases n,
{
    if n < 10 {
        1
    } else {
        1 + spec_num_digits(n / 10)
    }
}

/// `n` copies of the character `c`.
pub open spec fn repeat_char(c: char, n: nat) -> Seq<char> {
    Seq::new(n, |i: int| c)
}

pub proof fn lemma_decimal_len(n: nat)
    ensures
        decimal(n).len() == spec_num_digits(n),
    decreases n,
{
    if n >= 10 {
        lemma_decimal_len(n / 10);
    }
}

/// More digits never come from a smaller number.
pub proof fn lemma_num_digits_monotone(a: nat, b: nat)
    requires
        a <= b,
    ensures
        spec_num_digits(a) <= spec_num_digits(b),
    decreases b,
{
    if a >= 10 {
        lemma_num_digits_monotone(a / 10, b / 10);
    }
}

/// A number of at least two has fewer digits than its value.
pub proof fn lemma_num_digits_lt_self(n: nat)
    requires
        n >= 2,
    ensures
        spec_num_digits(n) < n,
    decreases n,
{
    if n >= 10 {
        assert(spec_num_digits(n) == 1 + spec_num_digits(n / 10));
        if n / 10 >= 2 {
            lemma_num_digits_lt_self(n / 10);
        } else {
            assert(spec_num_digits(n / 10) == 1);
        }
    }
}

/// Appends one character to a string with `String::push`. Claimed, as std
/// documents it: afterwards the string holds its old characters followed by `c`.
#[verifier::external_body]
pub(crate) fn push_char(s: &mut String, c: char)
    ensures
        final(s)@ == old(s)@.push(c),
{
    s.push(c);
}

/// The number of decimal digits of `n`; zero has one digit.
pub fn count_digits(n: usize) -> (r: usize)
    ensures
        r == spec_num_digits(n as nat),
{
    let mut m = n;
    let mut count: usize = 1;
    proof {
        if n >= 1 {
            lemma_num_digits_le_self(n as nat);
        }
    }
    while m >= 10
        invariant
            count + spec_num_digits(m as nat) == 1 + spec_num_digits(n as nat),
            n >= 1 ==> spec_num_digits(n as nat) <= n,
            m <= n,
        decreases m,
    {
        assert(spec_num_digits(m as nat) == 1 + spec_num_digits((m / 10) as nat));
        m = m / 10;
        count = count + 1;
    }
    count
}

proof fn lemma_num_digits_le_self(n: nat)
    requires
        n >= 1,
    ensures
        spec_num_digits(n) <= n,
    decreases n,
{
    if n >= 10 {
        lemma_num_digits_le_self(n / 10);
    }
}

/// Appends the decimal numeral of `n` to `s`.
pub fn push_decimal(s: &mut String, n: usize)
    ensures
        final(s)@ == old(s)@ + decimal(n as nat),
    decreases n,
{
    if n >= 10 {
        push_decimal(s, n / 10);
    }
    let d = (n % 10) as u32;
    let c = char_from_digit(d);
    push_char(s, c);
    proof {
        if n >= 10 {
            assert(decimal(n as nat) == decimal((n / 10) as nat).push(digit_char((n % 10) as nat)));
        }
    }
}

fn char_from_digit(d: u32) -> (c: char)
    requires
        d < 10,
    ensures
        c == digit_char(d as nat),
{
    match d {
        0 => '0',
        1 => '1',
        2 => '2',
        3 => '3',
        4 => '4',
        5 => '5',
        6 => '6',
        7 => '7',
        8 => '8',
        _ => '9',
    }
}

/// Appends `n` copies of `c` to `s`.
pub fn push_repeat(s: &mut String, c: char, n: usize)
    ensures
        final(s)@ == old(s)@ + repeat_char(c, n as nat),
{
    let ghost start = s@;
    let mut i: usize = 0;
    while i < n
        invariant
            i <= n,
            s@ == start + repeat_char(c, i as nat),
        decreases n - i,
    {
        push_char(s, c);
        i = i + 1;
        assert(s@ =~= start + repeat_char(c, i as nat));
    }
}

} // verus!
