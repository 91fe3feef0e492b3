use vstd::prelude::*;
use crate::text::{ascii_chars, ascii_string, is_ascii_bytes};

verus! {

/// A decimal digit character.
pub open spec fn is_digit(c: char) -> bool {
    '0' <= c && c <= '9'
}

/// The numeric value of one digit character.
pub open spec fn digit_val(c: char) -> int {
    c as int - '0' as int
}

/// The digit character for a value below ten.
pub open spec fn digit_char(d: int) -> char {
    ((d + 48) as u8) as char
}

/// The decimal spelling of a non-negative number, most significant
/// digit first, with no leading zeros (a lone `0` for zero).
pub open spec fn dec_digits(n: int) -> Seq<char>
    recommends
        n >= 0,
    decreases n,
{
    if n < 10 {
        seq![digit_char(n)]
    } else {
        dec_digits(n / 10).push(digit_char(n % 10))
    }
}

/// The number that a sequence of digit characters spells out.
pub open spec fn dec_val(s: Seq<char>) -> int
    decreases s.len(),
{
    if s.len() == 0 {
        0
    } else {
        dec_val(s.drop_last()) * 10 + digit_val(s.last())
    }
}

/// Every character of the sequence is a decimal digit.
pub open spec fn all_digits(s: Seq<char>) -> bool {
    forall|i: int| 0 <= i < s.len() ==> is_digit(#[trigger] s[i])
}

/// A sequence of digits spells a non-negative number.
pub proof fn lemma_dec_val_nonneg(s: Seq<char>)
    requires
        all_digits(s),
    ensures
        dec_val(s) >= 0,
    decreases s.len(),
{
    if s.len() > 0 {
        assert(all_digits(s.drop_last())) by {
            assert(forall|i: int|
                0 <= i < s.len() - 1 ==> s.drop_last()[i] == #[trigger] s[i]);
        }
        lemma_dec_val_nonneg(s.drop_last());
        assert(is_digit(s.last()));
    }
}

/// Rendering a number gives digits only, and reading them back gives
/// the number again.
pub proof fn lemma_dec_digits_val(n: int)
    requires
        n >= 0,
    ensures
        all_digits(dec_digits(n)),
        dec_val(dec_digits(n)) == n,
        dec_digits(n).len() >= 1,
    decreases n,
{
    if n < 10 {
        let s = seq![digit_char(n)];
        assert(dec_digits(n) =~= s);
        assert(s.drop_last() =~= Seq::<char>::empty());
        assert(dec_val(s.drop_last()) == 0);
        assert(s.last() == digit_char(n));
        assert(((n + 48) as u8) as char as int == n + 48);
        assert(digit_val(digit_char(n)) == n);
    } else {
        lemma_dec_digits_val(n / 10);
        let s = dec_digits(n / 10).push(digit_char(n % 10));
        assert(s.drop_last() =~= dec_digits(n / 10));
        assert(s.last() == digit_char(n % 10));
        assert forall|i: int| 0 <= i < s.len() implies is_digit(#[trigger] s[i]) by {
            if i < s.len() - 1 {
                assert(s[i] == dec_digits(n / 10)[i]);
            }
        }
    }
}

/// Renders a number in decimal.
pub fn u128_to_dec(n: u128) -> (s: String)
    ensures
        s@ == dec_digits(n as int),
{
    let mut rev: Vec<u8> = Vec::new();
    let mut m: u128 = n;
    while m >= 10
        invariant
            is_ascii_bytes(rev@),
            dec_digits(n as int) == dec_digits(m as int) + ascii_chars(rev@).reverse(),
        decreases m,
    {
        let ghost prev = rev@;
        let d: u8 = (m % 10) as u8 + 48;
        rev.push(d);
        proof {
            assert(ascii_chars(rev@) =~= ascii_chars(prev).push(digit_char(m as int % 10)));
            assert(ascii_chars(rev@).reverse() =~= seq![digit_char(m as int % 10)]
                + ascii_chars(prev).reverse());
            assert(dec_digits(m as int) == dec_digits(m as int / 10).push(
                digit_char(m as int % 10),
            ));
            assert(dec_digits(m as int / 10).push(digit_char(m as int % 10))
                + ascii_chars(prev).reverse() =~= dec_digits(m as int / 10)
                + ascii_chars(rev@).reverse());
        }
        m = m / 10;
    }
    let ghost prev = rev@;
    let d: u8 = m as u8 + 48;
    rev.push(d);
    proof {
        assert(ascii_chars(rev@) =~= ascii_chars(prev).push(digit_char(m as int)));
        assert(ascii_chars(rev@).reverse() =~= seq![digit_char(m as int)]
            + ascii_chars(prev).reverse());
        assert(dec_digits(m as int) =~= seq![digit_char(m as int)]);
        assert(dec_digits(n as int) =~= ascii_chars(rev@).reverse());
    }
    let mut fwd: Vec<u8> = Vec::new();
    let mut i: usize = rev.len();
    while i > 0
        invariant
            i <= rev@.len(),
            is_ascii_bytes(rev@),
            is_ascii_bytes(fwd@),
            fwd@ =~= rev@.subrange(i as int, rev@.len() as int).reverse(),
        decreases i,
    {
        i = i - 1;
        let ghost prevf = fwd@;
        fwd.push(rev[i]);
        proof {
            assert(fwd@ =~= rev@.subrange(i as int, rev@.len() as int).reverse());
        }
    }
    proof {
        assert(rev@.subrange(0, rev@.len() as int) =~= rev@);
        assert(ascii_chars(fwd@) =~= ascii_chars(rev@).reverse());
    }
    ascii_string(&fwd)
}

} // verus!
