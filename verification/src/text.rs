//! Numbers and bytes as text.

use vstd::prelude::*;

verus! {

/// The ASCII digit for `d`, a number below ten.
pub open spec fn digit_char(d: int) -> char {
    ('0' as int + d) as char
}

/// Whether `c` is one of the ten ASCII digits.
pub open spec fn is_digit(c: char) -> bool {
    '0' <= c <= '9'
}

/// `n` in decimal notation, without leading zeros.
pub open spec fn decimal(n: nat) -> Seq<char>
    decreases n,
{
    if n < 10 {
        seq![digit_char(n as int)]
    } else {
        decimal(n / 10).push(digit_char((n % 10) as int))
    }
}

/// The number that a row of decimal digits stands for.
pub open spec fn digits_value(digits: Seq<char>) -> nat
    decreases digits.len(),
{
    if digits.len() == 0 {
        0
    } else {
        10 * digits_value(digits.drop_last()) + (digits.last() as nat - '0' as nat) as nat
    }
}

/// `text` without the plus sign that may stand before a number.
pub open spec fn unsigned_part(text: Seq<char>) -> Seq<char> {
    if text.len() > 0 && text[0] == '+' {
        text.skip(1)
    } else {
        text
    }
}

/// The number that `text` denotes: an optional plus sign and then decimal
/// digits, at least one and nothing else, for a number of 64 bits.
pub open spec fn parsed_u64(text: Seq<char>) -> Option<u64> {
    let digits = unsigned_part(text);
    if digits.len() > 0 && (forall|i: int| 0 <= i < digits.len() ==> is_digit(#[trigger] digits[i]))
        && digits_value(digits) <= u64::MAX {
        Some(digits_value(digits) as u64)
    } else {
        None
    }
}

/// The lowercase hexadecimal digit for `d`, a number below sixteen.
pub open spec fn hex_char(d: int) -> char {
    if d < 10 {
        digit_char(d)
    } else {
        ('a' as int + d - 10) as char
    }
}

/// `bytes` in lowercase hexadecimal, two digits a byte, the high one first.
pub open spec fn hex_text(bytes: Seq<u8>) -> Seq<char> {
    Seq::new(
        2 * bytes.len(),
        |i: int|
            if i % 2 == 0 {
                hex_char(bytes[i / 2] as int / 16)
            } else {
                hex_char(bytes[i / 2] as int % 16)
            },
    )
}

/// The characters of `text`.
pub fn chars_of(text: &str) -> (chars: Vec<char>)
    ensures
        chars@ == text@,
{
    let mut chars: Vec<char> = Vec::new();
    for c in it: text.chars()
        invariant
            chars@ == text@.take(it.index()),
            it.seq() == text@,
    {
        chars.push(c);
    }
    chars
}

fn digit_text(d: u64) -> (text: &'static str)
    requires
        d < 10,
    ensures
        text@ == seq![digit_char(d as int)],
{
    proof {
        reveal_strlit("0");
        reveal_strlit("1");
        reveal_strlit("2");
        reveal_strlit("3");
        reveal_strlit("4");
        reveal_strlit("5");
        reveal_strlit("6");
        reveal_strlit("7");
        reveal_strlit("8");
        reveal_strlit("9");
    }
    match d {
        0 => "0",
        1 => "1",
        2 => "2",
        3 => "3",
        4 => "4",
        5 => "5",
        6 => "6",
        7 => "7",
        8 => "8",
        _ => "9",
    }
}

/// `n` in decimal notation.
pub fn decimal_text(n: u64) -> (text: String)
    ensures
        text@ == decimal(n as nat),
    decreases n,
{
    let mut text: String = if n < 10 {
        String::new()
    } else {
        decimal_text(n / 10)
    };
    text.append(digit_text(n % 10));
    text
}

proof fn lemma_digits_value_grows(digits: Seq<char>, n: int)
    requires
        0 <= n <= digits.len(),
    ensures
        digits_value(digits.take(n)) <= digits_value(digits),
    decreases digits.len(),
{
    if n < digits.len() {
        lemma_digits_value_grows(digits.drop_last(), n);
        assert(digits.drop_last().take(n) =~= digits.take(n));
    } else {
        assert(digits.take(n) =~= digits);
    }
}

proof fn lemma_decimal(n: nat)
    ensures
        decimal(n).len() > 0,
        forall|i: int| 0 <= i < decimal(n).len() ==> is_digit(#[trigger] decimal(n)[i]),
        digits_value(decimal(n)) == n,
    decreases n,
{
    if n < 10 {
        assert(decimal(n).drop_last() =~= Seq::<char>::empty());
        assert(digits_value(decimal(n).drop_last()) == 0);
    } else {
        lemma_decimal(n / 10);
        assert(decimal(n).drop_last() =~= decimal(n / 10));
    }
}

/// Decimal notation, place by place: the last digit is that of the remainder by
/// ten and what stands before it is the quotient, until there is one digit; only
/// zero starts with a zero.
pub proof fn lemma_decimal_places(n: nat)
    ensures
        decimal(n).len() > 0,
        decimal(n).last() == seq!['0', '1', '2', '3', '4', '5', '6', '7', '8', '9'][(n % 10) as int],
        n < 10 ==> decimal(n).len() == 1,
        n >= 10 ==> decimal(n).drop_last() == decimal(n / 10),
        n > 0 ==> decimal(n)[0] != '0',
    decreases n,
{
    lemma_decimal(n);
    if n >= 10 {
        assert(decimal(n).drop_last() =~= decimal(n / 10));
        lemma_decimal_places(n / 10);
        assert(decimal(n)[0] == decimal(n / 10)[0]);
    }
}

/// Zeros before a number.
pub open spec fn zeros(k: nat) -> Seq<char> {
    Seq::new(k, |i: int| '0')
}

/// What may stand before the digits of a number.
pub open spec fn sign(plus: bool) -> Seq<char> {
    if plus {
        seq!['+']
    } else {
        Seq::empty()
    }
}

proof fn lemma_value_after_zeros(k: nat, digits: Seq<char>)
    ensures
        digits_value(zeros(k) + digits) == digits_value(digits),
    decreases k + digits.len(),
{
    let all = zeros(k) + digits;
    if digits.len() > 0 {
        assert(all.drop_last() =~= zeros(k) + digits.drop_last());
        lemma_value_after_zeros(k, digits.drop_last());
    } else if k > 0 {
        assert(all.drop_last() =~= zeros((k - 1) as nat) + digits);
        lemma_value_after_zeros((k - 1) as nat, digits);
    } else {
        assert(all =~= digits);
    }
}

proof fn lemma_digits_are_decimal(digits: Seq<char>) -> (k: nat)
    requires
        digits.len() > 0,
        forall|i: int| 0 <= i < digits.len() ==> is_digit(#[trigger] digits[i]),
    ensures
        digits == zeros(k) + decimal(digits_value(digits)),
    decreases digits.len(),
{
    let rest = digits.drop_last();
    let last = digits.last();
    assert(is_digit(digits[digits.len() - 1]));
    if rest.len() == 0 {
        assert(digits_value(rest) == 0);
        assert(digits =~= zeros(0) + decimal(digits_value(digits)));
        0
    } else {
        assert forall|i: int| 0 <= i < rest.len() implies is_digit(#[trigger] rest[i]) by {
            assert(is_digit(digits[i]));
        }
        let k = lemma_digits_are_decimal(rest);
        let value = digits_value(rest);
        assert(digits =~= rest.push(last));
        if value == 0 {
            assert(decimal(0) =~= seq!['0']);
            assert(digits =~= zeros((k + 1) as nat) + decimal(digits_value(digits)));
            (k + 1) as nat
        } else {
            assert(digits_value(digits) / 10 == value);
            assert(digits =~= zeros(k) + decimal(digits_value(digits)));
            k
        }
    }
}

/// A number is read from its decimal notation, whether or not a plus sign and
/// zeros stand before it, and is refused where it does not fit in 64 bits.
pub proof fn lemma_parse_reads_numbers(plus: bool, k: nat, n: nat)
    ensures
        n <= u64::MAX ==> parsed_u64(sign(plus) + zeros(k) + decimal(n)) == Some(n as u64),
        n > u64::MAX ==> parsed_u64(sign(plus) + zeros(k) + decimal(n)) is None,
{
    let digits = zeros(k) + decimal(n);
    let text = sign(plus) + zeros(k) + decimal(n);
    lemma_decimal(n);
    lemma_value_after_zeros(k, decimal(n));
    assert forall|i: int| 0 <= i < digits.len() implies is_digit(#[trigger] digits[i]) by {
        if i >= k {
            assert(digits[i] == decimal(n)[i - k]);
        }
    }
    assert(is_digit(digits[0]));
    if plus {
        assert(text[0] == '+');
        assert(text.skip(1) =~= digits);
    } else {
        assert(text =~= digits);
        assert(text[0] != '+');
    }
    assert(unsigned_part(text) == digits);
}

/// Nothing else is read as a number: what is read as `n` is the decimal notation
/// of `n`, but for zeros and a plus sign before it.
pub proof fn lemma_parse_reads_nothing_else(text: Seq<char>) -> (found: (bool, nat))
    requires
        parsed_u64(text) is Some,
    ensures
        text == sign(found.0) + zeros(found.1) + decimal(parsed_u64(text)->0 as nat),
{
    let digits = unsigned_part(text);
    let k = lemma_digits_are_decimal(digits);
    if text[0] == '+' {
        assert(digits =~= text.skip(1));
        assert(text =~= seq!['+'] + digits);
        assert(text =~= sign(true) + zeros(k) + decimal(digits_value(digits)));
        (true, k)
    } else {
        assert(text =~= sign(false) + zeros(k) + decimal(digits_value(digits)));
        (false, k)
    }
}

/// A number that was written in decimal is read back as the same number.
pub proof fn lemma_parse_reads_decimal(n: u64)
    ensures
        parsed_u64(decimal(n as nat)) == Some(n),
{
    lemma_decimal(n as nat);
    assert(is_digit(decimal(n as nat)[0]));
}

/// No two numbers are written alike, and a number is written in digits only.
pub proof fn lemma_decimal_is_distinct(m: nat, n: nat)
    ensures
        decimal(m) == decimal(n) ==> m == n,
        forall|i: int| 0 <= i < decimal(n).len() ==> is_digit(#[trigger] decimal(n)[i]),
{
    lemma_decimal(m);
    lemma_decimal(n);
}

/// Hexadecimal text, byte by byte: two digits each, the high one first.
pub proof fn lemma_hex_digits(bytes: Seq<u8>)
    ensures
        hex_text(bytes).len() == 2 * bytes.len(),
        forall|i: int|
            #![trigger bytes[i]]
            0 <= i < bytes.len() ==> {
                let digits = seq![
                    '0',
                    '1',
                    '2',
                    '3',
                    '4',
                    '5',
                    '6',
                    '7',
                    '8',
                    '9',
                    'a',
                    'b',
                    'c',
                    'd',
                    'e',
                    'f',
                ];
                &&& hex_text(bytes)[2 * i] == digits[bytes[i] as int / 16]
                &&& hex_text(bytes)[2 * i + 1] == digits[bytes[i] as int % 16]
            },
{
}

/// No two rows of bytes have the same hexadecimal text.
pub proof fn lemma_hex_is_distinct(a: Seq<u8>, b: Seq<u8>)
    ensures
        hex_text(a) == hex_text(b) ==> a == b,
{
    if hex_text(a) == hex_text(b) {
        assert(hex_text(a).len() == 2 * a.len());
        assert(hex_text(b).len() == 2 * b.len());
        assert forall|i: int| 0 <= i < a.len() implies a[i] == b[i] by {
            assert(hex_text(a)[2 * i] == hex_char(a[i] as int / 16));
            assert(hex_text(b)[2 * i] == hex_char(b[i] as int / 16));
            assert(hex_text(a)[2 * i + 1] == hex_char(a[i] as int % 16));
            assert(hex_text(b)[2 * i + 1] == hex_char(b[i] as int % 16));
        }
        assert(a =~= b);
    }
}

/// Reads a number of 64 bits in decimal notation, with or without a plus sign;
/// `None` for any other text.
pub fn parse_u64(text: &[char]) -> (number: Option<u64>)
    ensures
        number == parsed_u64(text@),
{
    let start: usize = if text.len() > 0 && text[0] == '+' {
        1
    } else {
        0
    };
    let ghost digits = unsigned_part(text@);
    assert(digits =~= text@.skip(start as int));
    if start == text.len() {
        return None;
    }
    let mut value: u64 = 0;
    let mut i: usize = start;
    while i < text.len()
        invariant
            start <= i <= text.len(),
            digits == unsigned_part(text@),
            digits == text@.skip(start as int),
            value == digits_value(digits.take(i - start)),
            forall|j: int| 0 <= j < i - start ==> is_digit(#[trigger] digits[j]),
        decreases text.len() - i,
    {
        let c: char = text[i];
        assert(c == digits[i - start]);
        if !('0' <= c && c <= '9') {
            return None;
        }
        let d: u64 = (c as u32 - '0' as u32) as u64;
        proof {
            let read = digits.take(i - start + 1);
            assert(read.drop_last() =~= digits.take(i - start));
            assert(digits_value(read) == 10 * value + d);
            lemma_digits_value_grows(digits, i - start + 1);
        }
        if value > u64::MAX / 10 || value * 10 > u64::MAX - d {
            return None;
        }
        value = value * 10 + d;
        i = i + 1;
    }
    assert(digits.take(digits.len() as int) =~= digits);
    Some(value)
}

/// `hex::encode` on `bytes`. It writes each byte as two lowercase hexadecimal
/// digits, the high one first, and nothing else.
#[verifier::external_body]
pub(crate) fn hex_encode(bytes: &[u8]) -> (text: String)
    ensures
        text@ == hex_text(bytes@),
{
    hex::encode(bytes)
}

} // verus!
