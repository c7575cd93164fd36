//! The exact value of a number literal, as decimal digits.

use vstd::prelude::*;

verus! {

/// Whether `c` is an ASCII decimal digit.
pub open spec fn is_digit(c: u8) -> bool {
    48 <= c <= 57
}

/// Whether every byte of `s` is an ASCII decimal digit.
pub open spec fn all_digits(s: Seq<u8>) -> bool {
    forall|i: int| 0 <= i < s.len() ==> is_digit(#[trigger] s[i])
}

/// `s` without its leading `'0'` bytes.
pub open spec fn strip_leading_zeros(s: Seq<u8>) -> Seq<u8>
    decreases s.len(),
{
    if s.len() > 0 && s[0] == 48u8 {
        strip_leading_zeros(s.drop_first())
    } else {
        s
    }
}

/// `s` without its trailing `'0'` bytes.
pub open spec fn strip_trailing_zeros(s: Seq<u8>) -> Seq<u8>
    decreases s.len(),
{
    if s.len() > 0 && s.last() == 48u8 {
        strip_trailing_zeros(s.drop_last())
    } else {
        s
    }
}

/// A decimal number: the digits before the point and the digits after it.
pub struct DecimalV {
    pub int_digits: Seq<u8>,
    pub frac_digits: Seq<u8>,
}

/// The canonical form of the number written `int.frac`: no leading zeros before
/// the point and no trailing zeros after it.
pub open spec fn canonical(int_digits: Seq<u8>, frac_digits: Seq<u8>) -> DecimalV {
    DecimalV { int_digits: strip_leading_zeros(int_digits), frac_digits: strip_trailing_zeros(frac_digits) }
}

/// A nonnegative decimal number held exactly: ASCII digits before and after the
/// point, in the canonical form that [`Decimal::new`] gives (zero has no digits at all).
#[derive(Debug, Clone, PartialEq, Eq)]
pub struct Decimal {
    int_digits: Vec<u8>,
    frac_digits: Vec<u8>,
}

impl View for Decimal {
    type V = DecimalV;

    closed spec fn view(&self) -> DecimalV {
        DecimalV { int_digits: self.int_digits@, frac_digits: self.frac_digits@ }
    }
}

/// `v` without its leading `'0'` bytes.
fn drop_leading_zeros(v: &Vec<u8>) -> (r: Vec<u8>)
    ensures
        r@ == strip_leading_zeros(v@),
{
    let mut i: usize = 0;
    assert(v@.skip(0) =~= v@);
    while i < v.len() && v[i] == 48u8
        invariant
            i <= v@.len(),
            strip_leading_zeros(v@) == strip_leading_zeros(v@.skip(i as int)),
        decreases v@.len() - i,
    {
        assert(v@.skip(i as int).drop_first() =~= v@.skip(i + 1));
        i = i + 1;
    }
    let mut r: Vec<u8> = Vec::new();
    let mut j = i;
    while j < v.len()
        invariant
            i <= j <= v@.len(),
            r@ == v@.subrange(i as int, j as int),
        decreases v@.len() - j,
    {
        r.push(v[j]);
        j = j + 1;
        assert(r@ =~= v@.subrange(i as int, j as int));
    }
    assert(r@ =~= v@.skip(i as int));
    r
}

/// `v` without its trailing `'0'` bytes.
fn drop_trailing_zeros(v: Vec<u8>) -> (r: Vec<u8>)
    ensures
        r@ == strip_trailing_zeros(v@),
{
    let mut v = v;
    let ghost orig = v@;
    while v.len() > 0 && v[v.len() - 1] == 48u8
        invariant
            strip_trailing_zeros(orig) == strip_trailing_zeros(v@),
        decreases v@.len(),
    {
        let ghost before = v@;
        v.pop();
        assert(v@ =~= before.drop_last());
    }
    v
}

impl Decimal {
    /// The number `int.frac`, given by the ASCII digits before and after the point,
    /// in canonical form.
    pub fn new(int_digits: Vec<u8>, frac_digits: Vec<u8>) -> (r: Decimal)
        requires
            all_digits(int_digits@),
            all_digits(frac_digits@),
        ensures
            r@ == canonical(int_digits@, frac_digits@),
    {
        let i = drop_leading_zeros(&int_digits);
        let f = drop_trailing_zeros(frac_digits);
        proof {
            lemma_strip_leading(int_digits@);
            lemma_strip_trailing(frac_digits@);
        }
        Decimal { int_digits: i, frac_digits: f }
    }

    /// A copy of this number.
    pub fn duplicate(&self) -> (r: Decimal)
        ensures
            r@ == self@,
    {
        let i = self.int_digits.clone();
        let f = self.frac_digits.clone();
        assert(i@ =~= self.int_digits@);
        assert(f@ =~= self.frac_digits@);
        Decimal { int_digits: i, frac_digits: f }
    }

    /// The ASCII digits before the point (none for numbers below one).
    pub fn int_digits(&self) -> (r: &Vec<u8>)
        ensures
            r@ == self@.int_digits,
    {
        &self.int_digits
    }

    /// The ASCII digits after the point (none for whole numbers).
    pub fn frac_digits(&self) -> (r: &Vec<u8>)
        ensures
            r@ == self@.frac_digits,
    {
        &self.frac_digits
    }
}

/// Stripping leading zeros keeps only digits, is idempotent, and leaves no
/// leading zero.
pub proof fn lemma_strip_leading(s: Seq<u8>)
    ensures
        strip_leading_zeros(strip_leading_zeros(s)) == strip_leading_zeros(s),
        all_digits(s) ==> all_digits(strip_leading_zeros(s)),
    decreases s.len(),
{
    if s.len() > 0 && s[0] == 48u8 {
        lemma_strip_leading(s.drop_first());
        assert(all_digits(s) ==> all_digits(s.drop_first())) by {
            if all_digits(s) {
                assert forall|i: int| 0 <= i < s.drop_first().len() implies is_digit(
                    #[trigger] s.drop_first()[i],
                ) by {
                    assert(s.drop_first()[i] == s[i + 1]);
                }
            }
        }
    }
}

/// Stripping trailing zeros keeps only digits and is idempotent.
pub proof fn lemma_strip_trailing(s: Seq<u8>)
    ensures
        strip_trailing_zeros(strip_trailing_zeros(s)) == strip_trailing_zeros(s),
        all_digits(s) ==> all_digits(strip_trailing_zeros(s)),
    decreases s.len(),
{
    if s.len() > 0 && s.last() == 48u8 {
        lemma_strip_trailing(s.drop_last());
        assert(all_digits(s) ==> all_digits(s.drop_last())) by {
            if all_digits(s) {
                assert forall|i: int| 0 <= i < s.drop_last().len() implies is_digit(
                    #[trigger] s.drop_last()[i],
                ) by {
                    assert(s.drop_last()[i] == s[i]);
                }
            }
        }
    }
}


/// `n` ASCII zeros.
pub open spec fn zeros(n: nat) -> Seq<u8> {
    Seq::new(n, |_i: int| 48u8)
}

/// The canonical form writes the same number: it only leaves out zeros before the
/// integer digits and after the fraction digits, and it has none left there; it is
/// its own canonical form.
pub proof fn law_canonical(int_digits: Seq<u8>, frac_digits: Seq<u8>)
    ensures
        ({
            let c = canonical(int_digits, frac_digits);
            &&& int_digits == zeros((int_digits.len() - c.int_digits.len()) as nat) + c.int_digits
            &&& frac_digits == c.frac_digits + zeros((frac_digits.len() - c.frac_digits.len()) as nat)
            &&& (c.int_digits.len() > 0 ==> c.int_digits[0] != 48u8)
            &&& (c.frac_digits.len() > 0 ==> c.frac_digits.last() != 48u8)
            &&& canonical(c.int_digits, c.frac_digits) == c
        }),
{
    lemma_leading_zeros(int_digits);
    lemma_trailing_zeros(frac_digits);
    lemma_strip_leading(int_digits);
    lemma_strip_trailing(frac_digits);
}

proof fn lemma_leading_zeros(s: Seq<u8>)
    ensures
        strip_leading_zeros(s).len() <= s.len(),
        s == zeros((s.len() - strip_leading_zeros(s).len()) as nat) + strip_leading_zeros(s),
        strip_leading_zeros(s).len() > 0 ==> strip_leading_zeros(s)[0] != 48u8,
    decreases s.len(),
{
    if s.len() > 0 && s[0] == 48u8 {
        lemma_leading_zeros(s.drop_first());
        let t = strip_leading_zeros(s);
        let n = (s.len() - t.len()) as nat;
        assert(zeros(n) =~= seq![48u8] + zeros((n - 1) as nat));
        assert(s =~= seq![48u8] + s.drop_first());
    } else {
        assert(zeros(0) + s =~= s);
    }
}

proof fn lemma_trailing_zeros(s: Seq<u8>)
    ensures
        strip_trailing_zeros(s).len() <= s.len(),
        s == strip_trailing_zeros(s) + zeros((s.len() - strip_trailing_zeros(s).len()) as nat),
        strip_trailing_zeros(s).len() > 0 ==> strip_trailing_zeros(s).last() != 48u8,
    decreases s.len(),
{
    if s.len() > 0 && s.last() == 48u8 {
        lemma_trailing_zeros(s.drop_last());
        let t = strip_trailing_zeros(s);
        let n = (s.len() - t.len()) as nat;
        assert(zeros(n) =~= zeros((n - 1) as nat).push(48u8));
        assert(s =~= s.drop_last().push(48u8));
    } else {
        assert(s + zeros(0) =~= s);
    }
}

} // verus!
