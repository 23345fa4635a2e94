//! The two numeral systems of A1 notation: bijective base-26 column letters
//! and one-based decimal row numbers.

use crate::chars::{
    digit_char, digit_of, digit_val, is_alpha_char, is_digit_char, letter_char, letter_of,
    letter_val, upper_char,
};
use crate::text::push_char;
use vstd::prelude::*;

verus! {

/// The letters that render a zero-based column index: `0` is `A`, `25` is
/// `Z`, `26` is `AA`.
pub open spec fn col_letters(x: nat) -> Seq<char>
    decreases x,
{
    if x < 26 {
        seq![letter_of(x as int)]
    } else {
        col_letters((x / 26 - 1) as nat).push(letter_of((x % 26) as int))
    }
}

/// The decimal digits of `n`, most significant first.
pub open spec fn dec_digits(n: nat) -> Seq<char>
    decreases n,
{
    if n < 10 {
        seq![digit_of(n as int)]
    } else {
        dec_digits(n / 10).push(digit_of((n % 10) as int))
    }
}

/// The one-based value of a run of letters read as a bijective base-26
/// numeral: `A` is 1, `Z` is 26, `AA` is 27. Case-insensitive.
pub open spec fn letters_val(s: Seq<char>) -> nat
    decreases s.len(),
{
    if s.len() == 0 {
        0
    } else {
        letters_val(s.drop_last()) * 26 + letter_val(s.last())
    }
}

/// The value of a run of digits read as a decimal numeral.
pub open spec fn digits_val(s: Seq<char>) -> nat
    decreases s.len(),
{
    if s.len() == 0 {
        0
    } else {
        digits_val(s.drop_last()) * 10 + digit_val(s.last())
    }
}

/// Reading the letters of a column index back as a numeral recovers the
/// index, shifted to one-based; the letters are always uppercase ASCII.
pub proof fn lemma_col_letters_val(x: nat)
    ensures
        letters_val(col_letters(x)) == x + 1,
        col_letters(x).len() >= 1,
        forall|i: int|
            0 <= i < col_letters(x).len() ==> 'A' <= #[trigger] col_letters(x)[i] && col_letters(
                x,
            )[i] <= 'Z',
    decreases x,
{
    if x < 26 {
        let s = seq![letter_of(x as int)];
        assert(col_letters(x) == s);
        assert(s.drop_last() =~= Seq::<char>::empty());
        assert(s.last() == letter_of(x as int));
        assert(letters_val(Seq::<char>::empty()) == 0);
        assert(letters_val(s) == 0 * 26 + letter_val(letter_of(x as int)));
    } else {
        let prev = col_letters((x / 26 - 1) as nat);
        lemma_col_letters_val((x / 26 - 1) as nat);
        assert(col_letters(x) == prev.push(letter_of((x % 26) as int)));
        assert(col_letters(x).drop_last() == prev);
        assert(col_letters(x).last() == letter_of((x % 26) as int));
        assert(letter_val(letter_of((x % 26) as int)) == x % 26 + 1);
        assert(letters_val(col_letters(x)) == (x / 26 - 1 + 1) * 26 + (x % 26 + 1));
        assert((x / 26) * 26 + x % 26 == x) by {
            vstd::arithmetic::div_mod::lemma_fundamental_div_mod(x as int, 26);
        }
    }
}

/// Reading the digits of `n` back as a decimal recovers `n`; the digits are
/// always ASCII digits.
pub proof fn lemma_dec_digits_val(n: nat)
    ensures
        digits_val(dec_digits(n)) == n,
        dec_digits(n).len() >= 1,
        forall|i: int|
            0 <= i < dec_digits(n).len() ==> '0' <= #[trigger] dec_digits(n)[i] && dec_digits(
                n,
            )[i] <= '9',
    decreases n,
{
    if n < 10 {
        let s = seq![digit_of(n as int)];
        assert(dec_digits(n) == s);
        assert(s.drop_last() =~= Seq::<char>::empty());
        assert(s.last() == digit_of(n as int));
        assert(digits_val(Seq::<char>::empty()) == 0);
        assert(digits_val(s) == 0 * 10 + digit_val(digit_of(n as int)));
    } else {
        let prev = dec_digits(n / 10);
        lemma_dec_digits_val(n / 10);
        assert(dec_digits(n) == prev.push(digit_of((n % 10) as int)));
        assert(dec_digits(n).drop_last() == prev);
        assert(dec_digits(n).last() == digit_of((n % 10) as int));
        assert(digit_val(digit_of((n % 10) as int)) == n % 10);
        assert((n / 10) * 10 + n % 10 == n) by {
            vstd::arithmetic::div_mod::lemma_fundamental_div_mod(n as int, 10);
        }
    }
}

/// A nonempty run of letters has a value of at least one.
pub proof fn lemma_letters_val_pos(s: Seq<char>)
    requires
        s.len() >= 1,
        forall|i: int| 0 <= i < s.len() ==> is_alpha_char(#[trigger] s[i]),
    ensures
        letters_val(s) >= 1,
{
    assert(is_alpha_char(s.last()));
    assert(letter_val(s.last()) >= 1);
}

/// Extending a run of letters on the right never lowers its value.
pub proof fn lemma_letters_val_prefix(s: Seq<char>, k: int)
    requires
        0 <= k <= s.len(),
    ensures
        letters_val(s.subrange(0, k)) <= letters_val(s),
    decreases s.len() - k,
{
    if k < s.len() {
        lemma_letters_val_prefix(s, k + 1);
        let a = s.subrange(0, k);
        let b = s.subrange(0, k + 1);
        assert(b.drop_last() == a);
        assert(letters_val(b) == letters_val(a) * 26 + letter_val(b.last()));
    } else {
        assert(s.subrange(0, k) == s);
    }
}

/// Extending a run of digits on the right never lowers its value.
pub proof fn lemma_digits_val_prefix(s: Seq<char>, k: int)
    requires
        0 <= k <= s.len(),
    ensures
        digits_val(s.subrange(0, k)) <= digits_val(s),
    decreases s.len() - k,
{
    if k < s.len() {
        lemma_digits_val_prefix(s, k + 1);
        let a = s.subrange(0, k);
        let b = s.subrange(0, k + 1);
        assert(b.drop_last() == a);
        assert(digits_val(b) == digits_val(a) * 10 + digit_val(b.last()));
    } else {
        assert(s.subrange(0, k) == s);
    }
}

/// Append the column letters for index `x` to `out`.
pub fn push_col_letters(out: &mut String, x: usize)
    ensures
        final(out)@ == old(out)@ + col_letters(x as nat),
    decreases x,
{
    if x >= 26 {
        push_col_letters(out, x / 26 - 1);
    }
    let ghost mid = out@;
    push_char(out, letter_char(x % 26));
    proof {
        if x < 26 {
            assert(old(out)@ + col_letters(x as nat) == old(out)@.push(letter_of(x as int)));
            assert(x as nat % 26 == x as nat);
        } else {
            assert(mid == old(out)@ + col_letters((x / 26 - 1) as nat));
            assert(old(out)@ + col_letters(x as nat) == (old(out)@ + col_letters(
                (x / 26 - 1) as nat,
            )).push(letter_of((x % 26) as int)));
        }
    }
}

/// Append the decimal digits of `n` to `out`.
pub fn push_dec_digits(out: &mut String, n: u128)
    ensures
        final(out)@ == old(out)@ + dec_digits(n as nat),
    decreases n,
{
    if n >= 10 {
        push_dec_digits(out, n / 10);
    }
    let ghost mid = out@;
    push_char(out, digit_char((n % 10) as usize));
    proof {
        if n < 10 {
            assert(old(out)@ + dec_digits(n as nat) == old(out)@.push(digit_of(n as int)));
            assert(n as nat % 10 == n as nat);
        } else {
            assert(mid == old(out)@ + dec_digits((n / 10) as nat));
            assert(old(out)@ + dec_digits(n as nat) == (old(out)@ + dec_digits(
                (n / 10) as nat,
            )).push(digit_of((n % 10) as int)));
        }
    }
}

} // verus!
