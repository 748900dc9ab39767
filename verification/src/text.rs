//! Text helpers: decimal numerals, and the conversions between `str`,
//! `String` and character vectors that the rest of the crate works with.

use vstd::prelude::*;

verus! {

/// The character of a decimal digit.
pub open spec fn digit_char(d: nat) -> char {
    (48 + d) as char
}

/// The decimal representation of a natural number, without leading zeros.
pub open spec fn decimal_chars(n: nat) -> Seq<char>
    decreases n,
{
    if n < 10 {
        seq![digit_char(n)]
    } else {
        decimal_chars(n / 10).push(digit_char(n % 10))
    }
}

/// The decimal representation of an integer, with a leading `-` when negative.
pub open spec fn signed_decimal_chars(i: int) -> Seq<char> {
    if i < 0 {
        seq!['-'] + decimal_chars((-i) as nat)
    } else {
        decimal_chars(i as nat)
    }
}

/// Ten to the power `k`.
pub open spec fn pow10(k: nat) -> nat
    decreases k,
{
    if k == 0 {
        1
    } else {
        10 * pow10((k - 1) as nat)
    }
}

/// A number below `10^k` has at most `k` decimal digits.
pub proof fn lemma_decimal_len(n: nat, k: nat)
    requires
        1 <= k,
        n < pow10(k),
    ensures
        decimal_chars(n).len() <= k,
    decreases k,
{
    if n >= 10 {
        if k == 1 {
            assert(pow10(1) == 10) by {
                reveal_with_fuel(pow10, 2);
            }
        } else {
            let p = pow10((k - 1) as nat);
            assert(n / 10 < p) by (nonlinear_arith)
                requires
                    n < 10 * p,
            ;
            lemma_decimal_len(n / 10, (k - 1) as nat);
        }
    }
}

/// The decimal forms of 64-bit numbers have at most 20 characters.
pub proof fn lemma_decimal_len_64(n: nat)
    requires
        n <= 0x1_0000_0000_0000_0000,
    ensures
        decimal_chars(n).len() <= 20,
        signed_decimal_chars(n as int).len() <= 20,
        signed_decimal_chars(-(n as int)).len() <= 21,
{
    assert(pow10(20) == 100_000_000_000_000_000_000) by {
        reveal_with_fuel(pow10, 21);
    }
    lemma_decimal_len(n, 20);
}

/// Appends the decimal digits of `n` to `out`.
pub fn push_decimal(out: &mut Vec<char>, n: u128)
    ensures
        final(out)@ == old(out)@ + decimal_chars(n as nat),
    decreases n,
{
    if n >= 10 {
        push_decimal(out, n / 10);
    }
    let d: u8 = (n % 10) as u8;
    let c: char = (48u8 + d) as char;
    out.push(c);
    proof {
        assert(decimal_chars(n as nat) == (if n < 10 { seq![digit_char(n as nat)] } else {
            decimal_chars((n / 10) as nat).push(digit_char((n % 10) as nat))
        }));
    }
    assert(final(out)@ =~= old(out)@ + decimal_chars(n as nat));
}

/// Appends the decimal digits of `i`, with a `-` in front when it is negative.
pub fn push_signed_decimal(out: &mut Vec<char>, i: i128)
    ensures
        final(out)@ == old(out)@ + signed_decimal_chars(i as int),
{
    if i < 0 {
        out.push('-');
        let m: u128 = if i == i128::MIN {
            0x8000_0000_0000_0000_0000_0000_0000_0000u128
        } else {
            (-i) as u128
        };
        push_decimal(out, m);
        assert(final(out)@ =~= old(out)@ + signed_decimal_chars(i as int));
    } else {
        push_decimal(out, i as u128);
    }
}

/// Appends the characters of `s` to `out`.
pub fn push_chars(out: &mut Vec<char>, s: &Vec<char>)
    ensures
        final(out)@ == old(out)@ + s@,
{
    let mut k: usize = 0;
    while k < s.len()
        invariant
            k <= s.len(),
            out@ == old(out)@ + s@.subrange(0, k as int),
        decreases s.len() - k,
    {
        out.push(s[k]);
        k = k + 1;
        assert(out@ =~= old(out)@ + s@.subrange(0, k as int));
    }
    assert(s@.subrange(0, s.len() as int) =~= s@);
}

/// The characters of a string slice, in order.
pub fn str_chars(s: &str) -> (res: Vec<char>)
    ensures
        res@ == s@,
{
    broadcast use vstd::string::axiom_spec_iter;
    let mut out: Vec<char> = Vec::new();
    for c in iter: s.chars()
        invariant
            out@ == iter.seq().subrange(0, iter.index() as int),
    {
        out.push(c);
    }
    out
}

/// A `String` holding the given characters (`String::from_iter`).
#[verifier::external_body]
pub fn chars_to_string(cs: &Vec<char>) -> (res: String)
    ensures
        res@ == cs@,
{
    cs.iter().collect()
}

/// What the `Debug` form of a string slice (`format!("{:?}", s)`) holds.
pub uninterp spec fn str_debug(s: Seq<char>) -> Seq<char>;

/// A character that the `Debug` form of a string shows as itself:
/// printable ASCII other than `"` and `\`.
pub open spec fn shows_plainly(c: char) -> bool {
    ' ' <= c <= '~' && c != '"' && c != '\\'
}

/// The `Debug` form of a string slice, `format!("{:?}", s)`: the string in
/// double quotes, with some characters escaped. Which escapes are used is left
/// to the name `str_debug`; a string of plainly shown characters is quoted as is.
#[verifier::external_body]
pub fn debug_str(s: &str) -> (res: Vec<char>)
    ensures
        res@ == str_debug(s@),
        (forall|i: int| 0 <= i < s@.len() ==> shows_plainly(#[trigger] s@[i])) ==> res@ == seq![
            '"',
        ] + s@ + seq!['"'],
{
    format!("{:?}", s).chars().collect()
}

/// The number that decimal digits `cs` write, most significant first.
pub open spec fn digits_value(cs: Seq<char>) -> int
    decreases cs.len(),
{
    if cs.len() == 0 {
        0
    } else {
        digits_value(cs.drop_last()) * 10 + (cs.last() as int - 48)
    }
}

/// The decimal text of `n` is made of digits `'0'` to `'9'`, starts with a
/// digit other than `'0'` unless it is `"0"` itself, and writes `n`.
pub proof fn lemma_decimal_chars(n: nat)
    ensures
        decimal_chars(n).len() >= 1,
        forall|i: int| 0 <= i < decimal_chars(n).len() ==> '0' <= #[trigger] decimal_chars(n)[i] <= '9',
        n == 0 <==> decimal_chars(n) == seq!['0'],
        n != 0 ==> decimal_chars(n)[0] != '0',
        digits_value(decimal_chars(n)) == n,
    decreases n,
{
    if n >= 10 {
        lemma_decimal_chars(n / 10);
        let d = decimal_chars(n / 10);
        let c = decimal_chars(n);
        assert(c == d.push(digit_char(n % 10)));
        assert(c.drop_last() =~= d);
        assert forall|i: int| 0 <= i < c.len() implies '0' <= #[trigger] c[i] <= '9' by {
            if i < d.len() {
                assert(c[i] == d[i]);
            }
        }
        assert(c[0] == d[0]);
        assert(n == (n / 10) * 10 + n % 10);
        assert(c.len() >= 2);
        assert(c != seq!['0']) by {
            assert(seq!['0'].len() == 1);
        }
        assert(c.last() == digit_char(n % 10));
        assert(digit_char(n % 10) as int == 48 + n % 10);
        assert(digits_value(c) == digits_value(d) * 10 + (c.last() as int - 48));
        assert(digits_value(d) == n / 10);
        assert((n / 10) as int * 10 + n % 10 == n);
    } else {
        let c = decimal_chars(n);
        assert(c == seq![digit_char(n)]);
        assert(c.drop_last() =~= Seq::<char>::empty());
        assert(digit_char(n) as int == 48 + n);
        assert(digits_value(c.drop_last()) == 0);
        assert(digits_value(c) == digits_value(c.drop_last()) * 10 + (c.last() as int - 48));
        if c == seq!['0'] {
            assert(c[0] == '0');
        }
    }
}

/// The decimal text of a negative number is `-` followed by that of its
/// magnitude; that of any other number has no sign.
pub proof fn lemma_signed_decimal_chars(i: int)
    ensures
        i < 0 ==> signed_decimal_chars(i)[0] == '-' && signed_decimal_chars(i).subrange(1, signed_decimal_chars(i).len() as int)
            == decimal_chars((-i) as nat),
        i >= 0 ==> signed_decimal_chars(i) == decimal_chars(i as nat),
{
    if i < 0 {
        let d = decimal_chars((-i) as nat);
        assert((seq!['-'] + d).subrange(1, (seq!['-'] + d).len() as int) =~= d);
    }
}

} // verus!
