//! Canonical decimal rendering of port numbers, with its value function:
//! the text of a number has no sign, no leading zero, and reads back to the
//! number it came from.

use vstd::prelude::*;

verus! {

/// The character of one decimal digit.
pub open spec fn digit_char(d: int) -> char
    recommends
        0 <= d < 10,
{
    if d == 0 { '0' }
    else if d == 1 { '1' }
    else if d == 2 { '2' }
    else if d == 3 { '3' }
    else if d == 4 { '4' }
    else if d == 5 { '5' }
    else if d == 6 { '6' }
    else if d == 7 { '7' }
    else if d == 8 { '8' }
    else { '9' }
}

/// Whether `c` is a decimal digit.
pub open spec fn is_digit_char(c: char) -> bool {
    ||| c == '0' ||| c == '1' ||| c == '2' ||| c == '3' ||| c == '4'
    ||| c == '5' ||| c == '6' ||| c == '7' ||| c == '8' ||| c == '9'
}

/// The value of one decimal digit character.
pub open spec fn char_val(c: char) -> int
    recommends
        is_digit_char(c),
{
    if c == '0' { 0 }
    else if c == '1' { 1 }
    else if c == '2' { 2 }
    else if c == '3' { 3 }
    else if c == '4' { 4 }
    else if c == '5' { 5 }
    else if c == '6' { 6 }
    else if c == '7' { 7 }
    else if c == '8' { 8 }
    else { 9 }
}

/// The canonical decimal text of `n`: most significant digit first, no
/// leading zero except for `0` itself.
pub open spec fn dec_spec(n: int) -> Seq<char>
    recommends
        n >= 0,
    decreases n,
{
    if n < 10 {
        seq![digit_char(n)]
    } else {
        dec_spec(n / 10).push(digit_char(n % 10))
    }
}

/// The number a sequence of digit characters reads as.
pub open spec fn val_spec(ds: Seq<char>) -> int
    decreases ds.len(),
{
    if ds.len() == 0 {
        0
    } else {
        val_spec(ds.drop_last()) * 10 + char_val(ds.last())
    }
}

/// Every character of a canonical decimal text is a digit.
pub proof fn lemma_dec_all_digits(n: int)
    requires
        n >= 0,
    ensures
        forall|i: int| 0 <= i < dec_spec(n).len() ==> is_digit_char(#[trigger] dec_spec(n)[i]),
    decreases n,
{
    if n >= 10 {
        lemma_dec_all_digits(n / 10);
        assert forall|i: int| 0 <= i < dec_spec(n).len() implies is_digit_char(
            #[trigger] dec_spec(n)[i],
        ) by {
            if i < dec_spec(n / 10).len() {
                assert(dec_spec(n)[i] == dec_spec(n / 10)[i]);
            } else {
                assert(dec_spec(n)[i] == digit_char(n % 10));
            }
        }
    } else {
        assert(dec_spec(n)[0] == digit_char(n));
    }
}

/// Reading back a canonical decimal text yields the number it renders.
pub proof fn lemma_val_dec(n: int)
    requires
        n >= 0,
    ensures
        val_spec(dec_spec(n)) == n,
    decreases n,
{
    if n < 10 {
        assert(dec_spec(n) == seq![digit_char(n)]);
        assert(dec_spec(n).drop_last() =~= Seq::<char>::empty());
        assert(dec_spec(n).last() == digit_char(n));
        assert(val_spec(Seq::<char>::empty()) == 0);
        assert(char_val(digit_char(n)) == n);
    } else {
        lemma_val_dec(n / 10);
        assert(dec_spec(n) == dec_spec(n / 10).push(digit_char(n % 10)));
        assert(dec_spec(n).len() == dec_spec(n / 10).len() + 1);
        assert(dec_spec(n).drop_last() =~= dec_spec(n / 10));
        assert(dec_spec(n).last() == digit_char(n % 10));
        assert(char_val(digit_char(n % 10)) == n % 10);
        assert(val_spec(dec_spec(n)) == (n / 10) * 10 + n % 10);
        assert((n / 10) * 10 + n % 10 == n) by {
            vstd::arithmetic::div_mod::lemma_fundamental_div_mod(n, 10);
        }
    }
}

/// Canonical decimal rendering is injective: equal texts, equal numbers.
pub proof fn lemma_dec_injective(n1: int, n2: int)
    requires
        n1 >= 0,
        n2 >= 0,
        dec_spec(n1) == dec_spec(n2),
    ensures
        n1 == n2,
{
    lemma_val_dec(n1);
    lemma_val_dec(n2);
}

/// A number below 100000 renders in at most five digits.
pub proof fn lemma_dec_len5(n: int)
    requires
        0 <= n < 100000,
    ensures
        dec_spec(n).len() <= 5,
{
    if n >= 10 {
        lemma_dec_len4(n / 10);
    }
}

proof fn lemma_dec_len4(n: int)
    requires
        0 <= n < 10000,
    ensures
        dec_spec(n).len() <= 4,
{
    if n >= 10 {
        lemma_dec_len3(n / 10);
    }
}

proof fn lemma_dec_len3(n: int)
    requires
        0 <= n < 1000,
    ensures
        dec_spec(n).len() <= 3,
{
    if n >= 10 {
        lemma_dec_len2(n / 10);
    }
}

proof fn lemma_dec_len2(n: int)
    requires
        0 <= n < 100,
    ensures
        dec_spec(n).len() <= 2,
{
    if n >= 10 {
        assert(dec_spec(n / 10).len() == 1);
    }
}

/// Ten to the power `k`.
pub open spec fn pow10(k: nat) -> int
    decreases k,
{
    if k == 0 {
        1
    } else {
        10 * pow10((k - 1) as nat)
    }
}

/// A sequence of digit characters reads as a number below ten to its length.
pub proof fn lemma_val_bound(ds: Seq<char>)
    requires
        forall|i: int| 0 <= i < ds.len() ==> is_digit_char(#[trigger] ds[i]),
    ensures
        0 <= val_spec(ds) < pow10(ds.len()),
    decreases ds.len(),
{
    if ds.len() > 0 {
        assert(forall|i: int|
            0 <= i < ds.drop_last().len() ==> is_digit_char(#[trigger] ds.drop_last()[i]));
        lemma_val_bound(ds.drop_last());
        assert(is_digit_char(ds.last()));
        assert(0 <= char_val(ds.last()) <= 9);
        assert(pow10(ds.len()) == 10 * pow10(ds.drop_last().len()));
    }
}

/// At most five digit characters read as a number below 100000.
pub proof fn lemma_val_lt_100000(ds: Seq<char>)
    requires
        forall|i: int| 0 <= i < ds.len() ==> is_digit_char(#[trigger] ds[i]),
        ds.len() <= 5,
    ensures
        0 <= val_spec(ds) < 100000,
{
    lemma_val_bound(ds);
    assert(pow10(0) == 1);
    assert(pow10(1) == 10);
    assert(pow10(2) == 100);
    assert(pow10(3) == 1000);
    assert(pow10(4) == 10000);
    assert(pow10(5) == 100000);
    if ds.len() == 0 {
        assert(pow10(ds.len()) == 1);
    } else if ds.len() == 1 {
        assert(pow10(ds.len()) == 10);
    } else if ds.len() == 2 {
        assert(pow10(ds.len()) == 100);
    } else if ds.len() == 3 {
        assert(pow10(ds.len()) == 1000);
    } else if ds.len() == 4 {
        assert(pow10(ds.len()) == 10000);
    } else {
        assert(pow10(ds.len()) == 100000);
    }
}

/// The one-character text of one decimal digit.
pub fn digit_str(d: u16) -> (r: &'static str)
    requires
        d < 10,
    ensures
        r@ == seq![digit_char(d as int)],
{
    proof {
        reveal_strlit("0");
        reveal_strlit("1");
        reveal_strlit("2");
        reveal_strlit("3");
        reveal_strlit("4");
        reveal_strlit("5");
        reveal_strlit("6");
        reveal_strlit("7");
        reveal_strlit("8");
        reveal_strlit("9");
    }
    let r = if d == 0 { "0" }
    else if d == 1 { "1" }
    else if d == 2 { "2" }
    else if d == 3 { "3" }
    else if d == 4 { "4" }
    else if d == 5 { "5" }
    else if d == 6 { "6" }
    else if d == 7 { "7" }
    else if d == 8 { "8" }
    else { "9" };
    proof {
        assert(r@ =~= seq![digit_char(d as int)]);
    }
    r
}

/// Renders `n` as its canonical decimal text.
pub fn u16_to_dec(n: u16) -> (r: String)
    ensures
        r@ == dec_spec(n as int),
    decreases n,
{
    if n < 10 {
        digit_str(n).to_owned()
    } else {
        let mut s = u16_to_dec(n / 10);
        s.append(digit_str(n % 10));
        proof {
            assert(s@ =~= dec_spec(n as int / 10).push(digit_char(n as int % 10)));
        }
        s
    }
}

} // verus!
