use crate::utils::{all_digits, digit_value, digits_value, is_digit, number_value, unsigned_value};
use vstd::prelude::*;

verus! {

/// The character that stands for a digit: `0` to `9`, then `A` to `Z`.
pub open spec fn digit_char(d: nat) -> char {
    if d < 10 {
        (0x30 + d) as char
    } else {
        (0x41 + (d - 10)) as char
    }
}

/// The numeral of `n` in the given radix, without leading zeros.
pub open spec fn numeral(n: nat, radix: nat) -> Seq<char>
    decreases n,
    via numeral_decreases
{
    if radix < 2 || n < radix {
        seq![digit_char(n)]
    } else {
        numeral(n / radix, radix).push(digit_char(n % radix))
    }
}

#[via_fn]
proof fn numeral_decreases(n: nat, radix: nat) {
    if !(radix < 2 || n < radix) {
        lemma_quotient_is_smaller(n, radix);
    }
}

/// Dividing by two or more makes a positive number smaller.
pub proof fn lemma_quotient_is_smaller(n: nat, radix: nat)
    requires
        radix >= 2,
        n >= radix,
    ensures
        1 <= n / radix < n,
{
    assert(1 <= n / radix < n) by (nonlinear_arith)
        requires
            radix >= 2,
            n >= radix,
    ;
}

/// `text` with zeros in front of it, as many as it falls short of `width`.
pub open spec fn padded(text: Seq<char>, width: nat) -> Seq<char> {
    if text.len() >= width {
        text
    } else {
        Seq::new((width - text.len()) as nat, |i: int| '0') + text
    }
}

/// A digit's character reads back as the digit.
pub proof fn lemma_digit_char(d: nat)
    requires
        d < 36,
    ensures
        digit_value(digit_char(d)) == Some(d),
{
}

/// A numeral is made of digits of its radix, at least one, and spells its number.
pub proof fn lemma_numeral(n: nat, radix: nat)
    requires
        2 <= radix <= 36,
    ensures
        numeral(n, radix).len() >= 1,
        numeral(n, radix).len() <= if n == 0 {
            1
        } else {
            n
        },
        all_digits(numeral(n, radix), radix),
        digits_value(numeral(n, radix), radix) == n,
    decreases n,
{
    let text = numeral(n, radix);
    if n < radix {
        lemma_digit_char(n);
        assert(text.drop_last() =~= Seq::<char>::empty());
        assert(digits_value(text.drop_last(), radix) == 0);
        assert(digits_value(text, radix) == 0 * radix + n);
    } else {
        let head = numeral(n / radix, radix);
        lemma_numeral(n / radix, radix);
        lemma_digit_char(n % radix);
        assert(text.drop_last() =~= head);
        assert(text.last() == digit_char(n % radix));
        assert forall|i: int| 0 <= i < text.len() implies is_digit(#[trigger] text[i], radix) by {
            if i < head.len() {
                assert(text[i] == head[i]);
            }
        }
        assert((n / radix) * radix + n % radix == n) by (nonlinear_arith)
            requires
                radix > 0,
        ;
        lemma_quotient_is_smaller(n, radix);
    }
}

/// A decimal numeral reads back as its number.
pub proof fn lemma_decimal_reads_back(n: u64)
    ensures
        number_value(numeral(n as nat, 10)) == Some(n),
{
    let text = numeral(n as nat, 10);
    lemma_numeral(n as nat, 10);
    assert(is_digit(text[0], 10));
    if text.len() >= 2 {
        assert(is_digit(text[1], 10));
    }
    assert(unsigned_value(text, 10) == Some(n));
}

/// A hexadecimal numeral behind `0x` reads back as its number.
pub proof fn lemma_hexadecimal_reads_back(n: u64)
    ensures
        number_value(seq!['0', 'x'] + numeral(n as nat, 16)) == Some(n),
{
    let digits = numeral(n as nat, 16);
    let text = seq!['0', 'x'] + digits;
    lemma_numeral(n as nat, 16);
    assert(text.skip(2) =~= digits);
    assert(is_digit(digits[0], 16));
    assert(unsigned_value(digits, 16) == Some(n));
}

/// Appends one character with std's `String::push`, which puts the
/// character at the end of the string and leaves the rest as it was.
#[verifier::external_body]
pub(crate) fn push_char(out: &mut String, c: char)
    ensures
        final(out)@ == old(out)@.push(c),
{
    out.push(c)
}

/// The number of characters in the numeral of `n`.
fn numeral_len(n: u64, radix: u64) -> (len: u64)
    requires
        2 <= radix <= 36,
    ensures
        len == numeral(n as nat, radix as nat).len(),
    decreases n,
{
    proof {
        lemma_numeral(n as nat, radix as nat);
    }
    if n < radix {
        1
    } else {
        proof {
            lemma_numeral((n / radix) as nat, radix as nat);
            lemma_quotient_is_smaller(n as nat, radix as nat);
        }
        numeral_len(n / radix, radix) + 1
    }
}

/// Appends the numeral of `n` in the given radix.
pub fn push_numeral(out: &mut String, n: u64, radix: u64)
    requires
        2 <= radix <= 36,
    ensures
        final(out)@ == old(out)@ + numeral(n as nat, radix as nat),
    decreases n,
{
    if n >= radix {
        proof {
            lemma_quotient_is_smaller(n as nat, radix as nat);
        }
        push_numeral(out, n / radix, radix);
    }
    let d = (n % radix) as u8;
    let c = if d < 10 {
        (0x30 + d) as char
    } else {
        (0x41 + (d - 10)) as char
    };
    assert(c == digit_char((n % radix) as nat));
    let ghost head = out@;
    push_char(out, c);
    proof {
        let text = numeral(n as nat, radix as nat);
        if n >= radix {
            assert(text == numeral((n / radix) as nat, radix as nat).push(c));
            assert(head == old(out)@ + numeral((n / radix) as nat, radix as nat));
        } else {
            assert(n % radix == n) by (nonlinear_arith)
                requires
                    0 <= n < radix,
            ;
            assert(text == seq![c]);
            assert(head == old(out)@);
        }
        assert(out@ =~= old(out)@ + text);
    }
}

/// Appends the numeral of `n`, with zeros in front up to the given width.
pub fn push_padded(out: &mut String, n: u64, radix: u64, width: u64)
    requires
        2 <= radix <= 36,
    ensures
        final(out)@ == old(out)@ + padded(numeral(n as nat, radix as nat), width as nat),
{
    let len = numeral_len(n, radix);
    let ghost text = numeral(n as nat, radix as nat);
    let mut k: u64 = len;
    while k < width
        invariant
            len <= k,
            k <= width || k == len,
            out@ == old(out)@ + Seq::new((k - len) as nat, |i: int| '0'),
        decreases width - k,
    {
        push_char(out, '0');
        k += 1;
        assert(out@ =~= old(out)@ + Seq::new((k - len) as nat, |i: int| '0'));
    }
    push_numeral(out, n, radix);
    assert(out@ =~= old(out)@ + padded(text, width as nat));
}

} // verus!
