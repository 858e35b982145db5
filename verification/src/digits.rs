//! Decimal numerals: the spec-level digit representation of a number, a
//! spec-level scanner for digit runs, and the lemmas connecting the two.

use vstd::prelude::*;
use vstd::string::StrSliceExecFns;

use crate::strutil::push_char;

verus! {

/// A decimal digit character.
pub open spec fn is_digit(c: char) -> bool {
    '0' <= c && c <= '9'
}

/// Numeric value of a digit character.
pub open spec fn digit_val(c: char) -> nat {
    ((c as u32) - ('0' as u32)) as nat
}

/// The digit character for a value below ten.
pub open spec fn digit_char(d: nat) -> char {
    if d == 0 {
        '0'
    } else if d == 1 {
        '1'
    } else if d == 2 {
        '2'
    } else if d == 3 {
        '3'
    } else if d == 4 {
        '4'
    } else if d == 5 {
        '5'
    } else if d == 6 {
        '6'
    } else if d == 7 {
        '7'
    } else if d == 8 {
        '8'
    } else {
        '9'
    }
}

/// Decimal representation of `n`, most significant digit first, without
/// leading zeros (except for `n == 0`, which is the single digit `0`).
pub open spec fn dec_rep(n: nat) -> Seq<char>
    decreases n,
{
    if n < 10 {
        seq![digit_char(n)]
    } else {
        dec_rep(n / 10).push(digit_char(n % 10))
    }
}

/// Scans a run of digit characters starting at `i`, accumulating their value
/// onto `acc`. Stops at the first non-digit (or the end) and reports the value
/// and the position after the run; reports nothing if the value ever exceeds
/// `usize::MAX`.
pub open spec fn parse_digits(s: Seq<char>, i: int, acc: nat) -> Option<(nat, int)>
    recommends
        0 <= i <= s.len(),
    decreases s.len() - i,
    when 0 <= i <= s.len()
{
    if i < s.len() && is_digit(s[i]) {
        let v = acc * 10 + digit_val(s[i]);
        if v > usize::MAX {
            None
        } else {
            parse_digits(s, i + 1, v)
        }
    } else {
        Some((acc, i))
    }
}

/// Scans a decimal numeral (at least one digit) starting at `i`; the value
/// must fit in `usize`.
pub open spec fn parse_numeral(s: Seq<char>, i: int) -> Option<(nat, int)> {
    if 0 <= i < s.len() && is_digit(s[i]) {
        parse_digits(s, i, 0)
    } else {
        None
    }
}

/// A digit scan never moves backwards nor past the end of the text.
pub proof fn lemma_parse_digits_bounds(s: Seq<char>, i: int, acc: nat)
    requires
        0 <= i <= s.len(),
    ensures
        parse_digits(s, i, acc) matches Some(vj) ==> i <= vj.1 <= s.len(),
    decreases s.len() - i,
{
    if i < s.len() && is_digit(s[i]) {
        let v = acc * 10 + digit_val(s[i]);
        if v <= usize::MAX {
            lemma_parse_digits_bounds(s, i + 1, v);
        }
    }
}

/// Ten to the power `k`.
pub open spec fn pow10(k: nat) -> nat
    decreases k,
{
    if k == 0 {
        1
    } else {
        10 * pow10((k - 1) as nat)
    }
}

/// The digit character of a value below ten scans as that value.
pub proof fn lemma_digit_char_val(d: nat)
    requires
        d < 10,
    ensures
        is_digit(digit_char(d)),
        digit_val(digit_char(d)) == d,
{
}

/// Every character of a decimal representation is a digit, and the
/// representation is never empty.
pub proof fn lemma_dec_rep_digits(n: nat)
    ensures
        dec_rep(n).len() >= 1,
        forall|k: int| 0 <= k < dec_rep(n).len() ==> is_digit(#[trigger] dec_rep(n)[k]),
    decreases n,
{
    if n < 10 {
        lemma_digit_char_val(n);
    } else {
        lemma_dec_rep_digits(n / 10);
        lemma_digit_char_val(n % 10);
    }
}

/// Scanning the decimal representation of `n` onto an accumulator multiplies
/// the accumulator by the representation's weight and adds `n`.
pub proof fn lemma_parse_digits_dec_rep(s: Seq<char>, i: int, acc: nat, n: nat)
    requires
        0 <= i,
        i + dec_rep(n).len() <= s.len(),
        s.subrange(i, i + dec_rep(n).len()) == dec_rep(n),
        acc * pow10(dec_rep(n).len()) + n <= usize::MAX,
    ensures
        parse_digits(s, i, acc) == parse_digits(
            s,
            i + dec_rep(n).len(),
            acc * pow10(dec_rep(n).len()) + n,
        ),
    decreases n,
{
    lemma_dec_rep_digits(n);
    if n < 10 {
        assert(s[i] == dec_rep(n)[0]);
        lemma_digit_char_val(n);
        assert(pow10(0) == 1);
        assert(pow10(1) == 10);
        assert(acc * 10 + n <= usize::MAX);
    } else {
        let m = n / 10;
        let d = n % 10;
        let rep_m = dec_rep(m);
        let l = rep_m.len() as int;
        assert(dec_rep(n) == rep_m.push(digit_char(d)));
        assert(dec_rep(n).len() == l + 1);
        lemma_dec_rep_digits(m);
        lemma_digit_char_val(d);
        vstd::arithmetic::div_mod::lemma_fundamental_div_mod(n as int, 10);
        assert(n == 10 * m + d);
        assert(pow10((l + 1) as nat) == 10 * pow10(l as nat));
        let acc2 = acc * pow10(l as nat) + m;
        assert(acc * pow10((l + 1) as nat) + n == acc2 * 10 + d) by (nonlinear_arith)
            requires
                pow10((l + 1) as nat) == 10 * pow10(l as nat),
                n == 10 * m + d,
                acc2 == acc * pow10(l as nat) + m,
        ;
        assert(s.subrange(i, i + l) == rep_m) by {
            assert forall|k: int| 0 <= k < l implies s.subrange(i, i + l)[k] == rep_m[k] by {
                assert(s.subrange(i, i + dec_rep(n).len())[k] == dec_rep(n)[k]);
            }
            assert(s.subrange(i, i + l) =~= rep_m);
        }
        lemma_parse_digits_dec_rep(s, i, acc, m);
        assert(s[i + l] == digit_char(d)) by {
            assert(s.subrange(i, i + dec_rep(n).len())[l] == dec_rep(n)[l]);
        }
        assert(parse_digits(s, i + l, acc2) == parse_digits(s, i + l + 1, acc2 * 10 + d));
    }
}

/// Scanning a numeral that is the decimal representation of `n`, followed by
/// the end of the text or a non-digit, yields exactly `n`.
pub proof fn lemma_parse_numeral_dec_rep(s: Seq<char>, i: int, n: nat)
    requires
        0 <= i,
        i + dec_rep(n).len() <= s.len(),
        s.subrange(i, i + dec_rep(n).len()) == dec_rep(n),
        n <= usize::MAX,
        i + dec_rep(n).len() == s.len() || !is_digit(s[i + dec_rep(n).len()]),
    ensures
        parse_numeral(s, i) == Some((n, i + dec_rep(n).len())),
{
    lemma_dec_rep_digits(n);
    assert(s[i] == dec_rep(n)[0]) by {
        assert(s.subrange(i, i + dec_rep(n).len())[0] == dec_rep(n)[0]);
    }
    assert(is_digit(s[i]));
    lemma_parse_digits_dec_rep(s, i, 0, n);
    assert(0 * pow10(dec_rep(n).len()) + n == n);
}

/// Whether a character is a decimal digit.
pub fn is_digit_exec(c: char) -> (r: bool)
    ensures
        r == is_digit(c),
{
    let u = c as u32;
    48 <= u && u <= 57
}

/// Numeric value of a digit character.
pub fn digit_val_exec(c: char) -> (r: usize)
    requires
        is_digit(c),
    ensures
        r == digit_val(c),
{
    ((c as u32) - 48) as usize
}

/// The digit character for a value below ten.
pub fn digit_char_exec(d: usize) -> (c: char)
    requires
        d < 10,
    ensures
        c == digit_char(d as nat),
{
    if d == 0 {
        '0'
    } else if d == 1 {
        '1'
    } else if d == 2 {
        '2'
    } else if d == 3 {
        '3'
    } else if d == 4 {
        '4'
    } else if d == 5 {
        '5'
    } else if d == 6 {
        '6'
    } else if d == 7 {
        '7'
    } else if d == 8 {
        '8'
    } else {
        '9'
    }
}

/// Appends the decimal representation of `n` to `out`.
pub fn push_dec(out: &mut String, n: usize)
    ensures
        final(out)@ == old(out)@ + dec_rep(n as nat),
    decreases n,
{
    if n < 10 {
        push_char(out, digit_char_exec(n));
        proof {
            assert(old(out)@.push(digit_char(n as nat)) =~= old(out)@ + dec_rep(n as nat));
        }
    } else {
        push_dec(out, n / 10);
        push_char(out, digit_char_exec(n % 10));
        proof {
            assert((old(out)@ + dec_rep((n / 10) as nat)).push(digit_char((n % 10) as nat))
                =~= old(out)@ + dec_rep(n as nat));
        }
    }
}

/// Scans a decimal numeral starting at `i`: at least one digit, value fitting
/// in `usize`. Reports the value and the position after the digit run.
pub fn scan_numeral(s: &str, i: usize) -> (r: Option<(usize, usize)>)
    requires
        i <= s@.len(),
    ensures
        match r {
            Some(vj) => parse_numeral(s@, i as int) == Some((vj.0 as nat, vj.1 as int))
                && i < vj.1 <= s@.len(),
            None => parse_numeral(s@, i as int) is None,
        },
{
    let n = s.unicode_len();
    if i >= n || !is_digit_exec(s.get_char(i)) {
        return None;
    }
    let mut j: usize = i;
    let mut acc: usize = 0;
    loop
        invariant
            i <= j <= n,
            n == s@.len(),
            j == i ==> acc == 0,
            parse_numeral(s@, i as int) == parse_digits(s@, j as int, acc as nat),
            is_digit(s@[i as int]),
        decreases n - j,
    {
        if j >= n {
            return Some((acc, j));
        }
        let c = s.get_char(j);
        if !is_digit_exec(c) {
            proof {
                if j == i {
                    assert(false);
                }
            }
            return Some((acc, j));
        }
        let dv = digit_val_exec(c);
        let wide: u128 = (acc as u128) * 10 + (dv as u128);
        if wide > usize::MAX as u128 {
            return None;
        }
        acc = wide as usize;
        j = j + 1;
    }
}

} // verus!

