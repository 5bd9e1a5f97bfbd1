use vstd::prelude::*;

verus! {

/// The value of `c` read as a digit: `0` to `9` count as themselves, and the
/// letters `a` to `z`, in either case, count from ten upwards.
pub open spec fn digit_value(c: char) -> Option<nat> {
    let u = c as u32;
    if 0x30 <= u <= 0x39 {
        Some((u - 0x30) as nat)
    } else if 0x61 <= u <= 0x7a {
        Some((u - 0x61 + 10) as nat)
    } else if 0x41 <= u <= 0x5a {
        Some((u - 0x41 + 10) as nat)
    } else {
        None
    }
}

/// Whether `c` is a digit of the given radix.
pub open spec fn is_digit(c: char, radix: nat) -> bool {
    digit_value(c) matches Some(d) && d < radix
}

/// Whether every character of `s` is a digit of the given radix.
pub open spec fn all_digits(s: Seq<char>, radix: nat) -> bool {
    forall|i: int| 0 <= i < s.len() ==> is_digit(#[trigger] s[i], radix)
}

/// The number that the digits of `s` spell in the given radix, most
/// significant digit first. A character that is no digit counts as zero.
pub open spec fn digits_value(s: Seq<char>, radix: nat) -> nat
    decreases s.len(),
{
    if s.len() == 0 {
        0
    } else {
        let last = match digit_value(s.last()) {
            Some(d) => d,
            None => 0,
        };
        digits_value(s.drop_last(), radix) * radix + last
    }
}

/// The unsigned number that `s` denotes in the given radix: an optional `+`,
/// then at least one digit and nothing else, with a value that fits in 64 bits.
pub open spec fn unsigned_value(s: Seq<char>, radix: nat) -> Option<u64> {
    let body = if s.len() > 0 && s[0] == '+' {
        s.skip(1)
    } else {
        s
    };
    if body.len() > 0 && all_digits(body, radix) && digits_value(body, radix) <= u64::MAX {
        Some(digits_value(body, radix) as u64)
    } else {
        None
    }
}

/// The number that a numeral denotes: hexadecimal after a leading `0x`,
/// decimal otherwise. `None` where the text is no numeral.
pub open spec fn number_value(s: Seq<char>) -> Option<u64> {
    if s.len() >= 2 && s[0] == '0' && s[1] == 'x' {
        unsigned_value(s.skip(2), 16)
    } else {
        unsigned_value(s, 10)
    }
}

/// Appending one character to a digit string shifts its value by one place.
pub proof fn lemma_digits_value_push(s: Seq<char>, k: int, radix: nat)
    requires
        0 <= k < s.len(),
    ensures
        digits_value(s.take(k + 1), radix) == digits_value(s.take(k), radix) * radix + (
        match digit_value(s[k]) {
            Some(d) => d,
            None => 0,
        }),
{
    assert(s.take(k + 1).drop_last() =~= s.take(k));
    assert(s.take(k + 1).last() == s[k]);
}

/// A prefix of a digit string never spells a larger number than the whole.
pub proof fn lemma_digits_value_prefix(s: Seq<char>, k: int, radix: nat)
    requires
        0 <= k <= s.len(),
        radix >= 1,
    ensures
        digits_value(s.take(k), radix) <= digits_value(s, radix),
    decreases s.len(),
{
    if k == s.len() {
        assert(s.take(k) =~= s);
    } else {
        assert(s.drop_last().take(k) =~= s.take(k));
        lemma_digits_value_prefix(s.drop_last(), k, radix);
        let rest = digits_value(s.drop_last(), radix);
        assert(rest <= rest * radix) by (nonlinear_arith)
            requires
                radix >= 1,
                rest >= 0,
        ;
    }
}

/// The characters of `s`, in order.
pub fn to_chars(s: &str) -> (v: Vec<char>)
    ensures
        v@ == s@,
{
    let mut v: Vec<char> = Vec::new();
    for c in it: s.chars()
        invariant
            v@ == it.seq().take(it.index() as int),
            it.seq() == s@,
    {
        v.push(c);
    }
    v
}

/// The digit that `c` stands for in the given radix, if it is one.
fn digit_of(c: char, radix: u32) -> (r: Option<u32>)
    requires
        radix <= 36,
    ensures
        r is Some <==> is_digit(c, radix as nat),
        r matches Some(d) ==> digit_value(c) == Some(d as nat) && d < radix,
{
    let u = c as u32;
    let d: u32 = if 0x30 <= u && u <= 0x39 {
        u - 0x30
    } else if 0x61 <= u && u <= 0x7a {
        u - 0x61 + 10
    } else if 0x41 <= u && u <= 0x5a {
        u - 0x41 + 10
    } else {
        return None;
    };
    if d < radix {
        Some(d)
    } else {
        None
    }
}

/// Reads the characters from `start` on as an unsigned number in the given radix.
fn parse_unsigned(chars: &Vec<char>, start: usize, radix: u32) -> (r: Option<u64>)
    requires
        start <= chars.len(),
        1 <= radix <= 36,
    ensures
        r == unsigned_value(chars@.skip(start as int), radix as nat),
{
    let ghost whole = chars@.skip(start as int);
    let mut first: usize = start;
    if first < chars.len() && chars[first] == '+' {
        first += 1;
    }
    let ghost body = chars@.skip(first as int);
    assert(body =~= if whole.len() > 0 && whole[0] == '+' {
        whole.skip(1)
    } else {
        whole
    });
    if first == chars.len() {
        return None;
    }
    let mut acc: u64 = 0;
    let mut i: usize = first;
    while i < chars.len()
        invariant
            first <= i <= chars.len(),
            1 <= radix <= 36,
            whole == chars@.skip(start as int),
            body == chars@.skip(first as int),
            body == if whole.len() > 0 && whole[0] == '+' {
                whole.skip(1)
            } else {
                whole
            },
            all_digits(body.take(i - first), radix as nat),
            acc == digits_value(body.take(i - first), radix as nat),
        decreases chars.len() - i,
    {
        let ghost k = (i - first) as int;
        proof {
            lemma_digits_value_push(body, k, radix as nat);
            lemma_digits_value_prefix(body, k + 1, radix as nat);
        }
        match digit_of(chars[i], radix) {
            None => {
                assert(!is_digit(body[k], radix as nat));
                return None;
            },
            Some(d) => {
                let shifted = match acc.checked_mul(radix as u64) {
                    Some(v) => v,
                    None => {
                        return None;
                    },
                };
                let next = match shifted.checked_add(d as u64) {
                    Some(v) => v,
                    None => {
                        return None;
                    },
                };
                assert forall|j: int| 0 <= j < k + 1 implies is_digit(
                    #[trigger] body.take(k + 1)[j],
                    radix as nat,
                ) by {
                    if j < k {
                        assert(body.take(k)[j] == body.take(k + 1)[j]);
                    }
                }
                acc = next;
                i += 1;
            },
        }
    }
    assert(body.take(i - first) =~= body);
    Some(acc)
}

/// Reads a numeral: hexadecimal after a leading `0x`, decimal otherwise.
/// Returns `None` where the text is no numeral or its value exceeds 64 bits.
pub fn parse_number(string: &str) -> (r: Option<u64>)
    ensures
        r == number_value(string@),
{
    let chars = to_chars(string);
    if chars.len() >= 2 && chars[0] == '0' && chars[1] == 'x' {
        parse_unsigned(&chars, 2, 16)
    } else {
        assert(chars@.skip(0) =~= chars@);
        parse_unsigned(&chars, 0, 10)
    }
}

/// The number that a numeral denotes, for text that is known to be one.
pub fn num_from_string_u64(string: &str) -> (n: u64)
    requires
        number_value(string@) is Some,
    ensures
        number_value(string@) == Some(n),
{
    parse_number(string).unwrap()
}

} // verus!
