//! Decimal notation, and the one `String` operation that the library needs
//! beyond those that vstd specifies.
use vstd::prelude::*;

verus! {

/// `String::push` appends one character at the end and changes nothing else.
pub assume_specification[ String::push ](text: &mut String, ch: char)
    ensures
        final(text)@ == old(text)@.push(ch),
;

/// The character that writes the digit `d`.
pub open spec fn digit_char(d: int) -> char
    recommends
        0 <= d < 10,
{
    (d + '0' as int) as char
}

/// Whether `c` is one of `0` to `9`.
pub open spec fn is_decimal_digit(c: char) -> bool {
    '0' <= c <= '9'
}

/// The number that the digit `c` writes.
pub open spec fn digit_value(c: char) -> int
    recommends
        is_decimal_digit(c),
{
    c as int - '0' as int
}

/// The decimal notation of `n`, without leading zeros.
pub open spec fn decimal_digits(n: nat) -> Seq<char>
    decreases n,
{
    if n < 10 {
        seq![digit_char(n as int)]
    } else {
        decimal_digits(n / 10).push(digit_char((n % 10) as int))
    }
}

/// The decimal notation of `v`, with a leading `-` when it is negative.
pub open spec fn decimal_text(v: int) -> Seq<char> {
    if v < 0 {
        seq!['-'] + decimal_digits((-v) as nat)
    } else {
        decimal_digits(v as nat)
    }
}

/// Whether every character of `text` is a decimal digit.
pub open spec fn all_decimal_digits(text: Seq<char>) -> bool {
    forall|i: int| 0 <= i < text.len() ==> is_decimal_digit(#[trigger] text[i])
}

/// The number that a sequence of decimal digits writes; the empty sequence
/// writes zero.
pub open spec fn decimal_value(text: Seq<char>) -> nat
    decreases text.len(),
{
    if text.len() == 0 {
        0
    } else {
        (decimal_value(text.drop_last()) * 10 + digit_value(text.last())) as nat
    }
}

/// Reading back what `decimal_digits` wrote gives the number again.
pub proof fn lemma_decimal_round_trip(n: nat)
    ensures
        all_decimal_digits(decimal_digits(n)),
        decimal_value(decimal_digits(n)) == n,
    decreases n,
{
    if n < 10 {
        let text = decimal_digits(n);
        assert(text.drop_last() =~= Seq::<char>::empty());
        assert(decimal_value(text.drop_last()) == 0);
    } else {
        lemma_decimal_round_trip(n / 10);
        let front = decimal_digits(n / 10);
        let text = decimal_digits(n);
        assert(text.drop_last() =~= front);
        assert(text.last() == digit_char((n % 10) as int));
    }
}

/// A longer digit sequence writes a number at least as large as any of
/// its prefixes.
pub proof fn lemma_decimal_value_grows(text: Seq<char>, k: int)
    requires
        all_decimal_digits(text),
        0 <= k <= text.len(),
    ensures
        decimal_value(text.take(k)) <= decimal_value(text),
    decreases text.len() - k,
{
    if k == text.len() {
        assert(text.take(k) =~= text);
    } else {
        lemma_decimal_value_grows(text, k + 1);
        let longer = text.take(k + 1);
        assert(longer.drop_last() =~= text.take(k));
        assert(is_decimal_digit(text[k]));
        assert(longer.last() == text[k]);
    }
}

/// Appends the decimal notation of `n` to `out`.
fn push_digits(out: &mut String, n: u64)
    ensures
        final(out)@ == old(out)@ + decimal_digits(n as nat),
    decreases n,
{
    if n >= 10 {
        push_digits(out, n / 10);
    }
    let digit: u8 = (n % 10) as u8;
    let ch: char = ('0' as u8 + digit) as char;
    assert(ch == digit_char((n % 10) as int));
    let ghost before = out@;
    out.push(ch);
    assert(out@ =~= old(out)@ + decimal_digits(n as nat));
}

/// Writes `v` in decimal notation.
pub fn decimal_string(v: i64) -> (text: String)
    ensures
        text@ == decimal_text(v as int),
{
    let mut text = String::new();
    if v < 0 {
        text.push('-');
        let magnitude: u64 = (-(v as i128)) as u64;
        push_digits(&mut text, magnitude);
        assert(text@ =~= decimal_text(v as int));
    } else {
        push_digits(&mut text, v as u64);
        assert(text@ =~= decimal_text(v as int));
    }
    text
}

/// Reads the characters `text[from..to]` as a decimal integer.
///
/// The result is the number written, where every character is a decimal
/// digit and the number fits in 64 signed bits, and `None` otherwise.
pub fn parse_decimal(text: &Vec<char>, from: usize, to: usize) -> (value: Option<i64>)
    requires
        from <= to <= text.len(),
    ensures
        match value {
            Some(v) => all_decimal_digits(text@.subrange(from as int, to as int)) && v
                == decimal_value(text@.subrange(from as int, to as int)),
            None => !all_decimal_digits(text@.subrange(from as int, to as int))
                || decimal_value(text@.subrange(from as int, to as int)) > i64::MAX,
        },
{
    let ghost digits = text@.subrange(from as int, to as int);
    let mut total: i64 = 0;
    let mut i: usize = from;
    while i < to
        invariant
            from <= i <= to <= text.len(),
            digits == text@.subrange(from as int, to as int),
            all_decimal_digits(digits.take(i - from)),
            total == decimal_value(digits.take(i - from)),
        decreases to - i,
    {
        let c = text[i];
        let ghost seen = digits.take(i - from);
        let ghost next = digits.take(i - from + 1);
        assert(next.drop_last() =~= seen);
        assert(next.last() == c);
        if !(c >= '0' && c <= '9') {
            assert(!is_decimal_digit(digits[i - from]));
            return None;
        }
        let digit: i64 = (c as u32 - '0' as u32) as i64;
        assert(digit == digit_value(c));
        if total > (i64::MAX - digit) / 10 {
            proof {
                if all_decimal_digits(digits) {
                    lemma_decimal_value_grows(digits, i - from + 1);
                }
            }
            return None;
        }
        total = total * 10 + digit;
        i += 1;
        assert(all_decimal_digits(digits.take(i - from))) by {
            assert forall|j: int| 0 <= j < next.len() implies is_decimal_digit(
                #[trigger] next[j],
            ) by {
                if j < seen.len() {
                    assert(seen[j] == next[j]);
                }
            }
        }
    }
    assert(digits.take(to - from) =~= digits);
    Some(total)
}

} // verus!
