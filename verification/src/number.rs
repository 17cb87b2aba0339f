//! Decimal text and the 64-bit integers it stands for.

use vstd::prelude::*;

verus! {

/// The byte of `+`.
const PLUS: u8 = 0x2b;

/// The byte of `-`.
const MINUS: u8 = 0x2d;

/// The byte of `0`.
const ZERO: u8 = 0x30;

/// The byte of `9`.
const NINE: u8 = 0x39;

/// Whether `c` is one of the ten ASCII digits.
pub open spec fn is_digit(c: char) -> bool {
    '0' <= c && c <= '9'
}

/// The number that the digit `c` stands for.
pub open spec fn digit_value(c: char) -> int {
    c as int - '0' as int
}

/// Whether `s` holds ASCII digits only.
pub open spec fn all_digits(s: Seq<char>) -> bool {
    forall|i: int| 0 <= i < s.len() ==> is_digit(#[trigger] s[i])
}

/// The number written by the digits of `s`, read from the left; 0 for no digits.
pub open spec fn digits_value(s: Seq<char>) -> int
    decreases s.len(),
{
    if s.len() == 0 {
        0
    } else {
        10 * digits_value(s.drop_last()) + digit_value(s.last())
    }
}

/// Whether `s` is decimal text: an optional sign, `+` or `-`, and then at
/// least one digit, with nothing before, between or after.
pub open spec fn is_decimal(s: Seq<char>) -> bool {
    if s.len() > 0 && (s[0] == '+' || s[0] == '-') {
        s.len() > 1 && all_digits(s.skip(1))
    } else {
        s.len() > 0 && all_digits(s)
    }
}

/// The integer that decimal text stands for.
pub open spec fn decimal_value(s: Seq<char>) -> int
    recommends
        is_decimal(s),
{
    if s[0] == '-' {
        -digits_value(s.skip(1))
    } else if s[0] == '+' {
        digits_value(s.skip(1))
    } else {
        digits_value(s)
    }
}

/// What a cell holds: the integer that its text stands for, if the text is
/// decimal and the integer fits in 64 bits with a sign; nothing otherwise.
pub open spec fn cell_value(s: Seq<char>) -> Option<i64> {
    if is_decimal(s) && i64::MIN <= decimal_value(s) <= i64::MAX {
        Some(decimal_value(s) as i64)
    } else {
        None
    }
}

/// For text made of digits, the number is not negative.
pub proof fn lemma_digits_value_nonnegative(s: Seq<char>)
    requires
        all_digits(s),
    ensures
        digits_value(s) >= 0,
    decreases s.len(),
{
    if s.len() > 0 {
        lemma_digits_value_nonnegative(s.drop_last());
    }
}

/// For text made of digits, the number written by a prefix is at most the
/// number written by the whole.
pub proof fn lemma_digits_value_prefix(s: Seq<char>, k: int)
    requires
        all_digits(s),
        0 <= k <= s.len(),
    ensures
        digits_value(s.take(k)) <= digits_value(s),
    decreases s.len(),
{
    if k == s.len() {
        assert(s.take(k) =~= s);
    } else {
        assert(s.drop_last().take(k) =~= s.take(k));
        lemma_digits_value_prefix(s.drop_last(), k);
        lemma_digits_value_nonnegative(s.drop_last());
    }
}

/// Decimal text is ASCII text.
pub proof fn lemma_decimal_is_ascii(s: Seq<char>)
    requires
        is_decimal(s),
    ensures
        vstd::utf8::is_ascii_chars(s),
{
    assert forall|i: int| 0 <= i < s.len() implies '\0' <= #[trigger] s[i] <= '\u{7f}' by {
        if s[0] == '+' || s[0] == '-' {
            if i > 0 {
                assert(is_digit(s.skip(1)[i - 1]));
            }
        } else {
        }
    }
}

/// Reads a cell: the integer that `text` stands for, or nothing where the
/// text is no decimal number or the number does not fit.
pub fn parse_cell(text: &str) -> (r: Option<i64>)
    ensures
        r == cell_value(text@),
{
    if !text.is_ascii() {
        proof {
            if is_decimal(text@) {
                lemma_decimal_is_ascii(text@);
            }
        }
        return None;
    }
    let bytes: &[u8] = text.as_bytes();
    proof {
        vstd::utf8::is_ascii_chars_encode_utf8(text@);
    }
    let n: usize = bytes.len();
    if n == 0 {
        return None;
    }
    let first: u8 = bytes[0];
    let negative: bool = first == MINUS;
    let start: usize = if first == MINUS || first == PLUS { 1 } else { 0 };
    if start == n {
        return None;
    }
    let limit: i128 = if negative { 9223372036854775808i128 } else { 9223372036854775807i128 };
    let ghost digits: Seq<char> = text@.skip(start as int);
    let mut acc: i128 = 0;
    let mut i: usize = start;
    while i < n
        invariant
            start <= 1,
            start <= i <= n,
            n == text@.len(),
            n == bytes@.len(),
            forall|j: int| 0 <= j < n ==> text@[j] as u8 == #[trigger] bytes@[j],
            vstd::utf8::is_ascii_chars(text@),
            digits == text@.skip(start as int),
            negative == (text@[0] == '-'),
            (start == 1) == (text@[0] == '+' || text@[0] == '-'),
            start == 0 ==> digits == text@,
            all_digits(digits.take(i - start)),
            acc == digits_value(digits.take(i - start)),
            limit == if negative { 9223372036854775808i128 } else { 9223372036854775807i128 },
            0 <= acc <= limit,
        decreases n - i,
    {
        let b: u8 = bytes[i];
        assert(digits[i - start] == text@[i as int]);
        if b < ZERO || b > NINE {
            return None;
        }
        assert(digits.take(i + 1 - start).drop_last() =~= digits.take(i - start));
        acc = acc * 10 + (b - ZERO) as i128;
        if acc > limit {
            proof {
                if is_decimal(text@) {
                    lemma_digits_value_prefix(digits, i + 1 - start);
                }
            }
            return None;
        }
        i = i + 1;
    }
    assert(digits.take(n - start) =~= digits);
    if negative {
        Some((-acc) as i64)
    } else {
        Some(acc as i64)
    }
}

/// The character that writes the digit `d`.
pub open spec fn digit_char(d: int) -> char
    recommends
        0 <= d <= 9,
{
    ((d + '0' as int) as u8) as char
}

/// The digits that write the natural number `n`, without leading zeros.
pub open spec fn natural_text(n: nat) -> Seq<char>
    decreases n,
{
    if n < 10 {
        seq![digit_char(n as int)]
    } else {
        natural_text(n / 10).push(digit_char((n % 10) as int))
    }
}

/// The decimal text of the integer `v`: its digits, after a `-` where it is
/// negative.
pub open spec fn decimal_text(v: int) -> Seq<char> {
    if v < 0 {
        seq!['-'] + natural_text((-v) as nat)
    } else {
        natural_text(v as nat)
    }
}

/// The digits of a natural number are digits, at least one, and write it.
pub proof fn lemma_natural_text(n: nat)
    ensures
        natural_text(n).len() >= 1,
        all_digits(natural_text(n)),
        digits_value(natural_text(n)) == n,
    decreases n,
{
    if n < 10 {
        assert(digits_value(natural_text(n).drop_last()) == 0);
    } else {
        lemma_natural_text(n / 10);
        assert(natural_text(n).drop_last() =~= natural_text(n / 10));
    }
}

/// Reading back what was written gives the same integer: the decimal text of
/// any integer is decimal text, and stands for that integer.
pub proof fn lemma_decimal_text_round_trip(v: int)
    ensures
        is_decimal(decimal_text(v)),
        decimal_value(decimal_text(v)) == v,
{
    if v < 0 {
        lemma_natural_text((-v) as nat);
        assert(decimal_text(v).skip(1) =~= natural_text((-v) as nat));
    } else {
        lemma_natural_text(v as nat);
    }
}

/// A cell that holds the decimal text of a 64-bit integer holds that integer.
pub proof fn lemma_cell_of_decimal_text(v: i64)
    ensures
        cell_value(decimal_text(v as int)) == Some(v),
{
    lemma_decimal_text_round_trip(v as int);
}

/// A cell that is empty, that is no decimal text, or whose number does not
/// fit in 64 bits with a sign holds the missing value.
pub proof fn lemma_cell_missing(s: Seq<char>)
    requires
        s.len() == 0 || !is_decimal(s) || decimal_value(s) < i64::MIN || decimal_value(s)
            > i64::MAX,
    ensures
        cell_value(s) == None::<i64>,
{
}

/// A cell of decimal text whose number fits holds that number, with or
/// without a `+`, and whatever zeros it begins with.
pub proof fn lemma_cell_of_decimal(s: Seq<char>)
    requires
        is_decimal(s),
        i64::MIN <= decimal_value(s) <= i64::MAX,
    ensures
        cell_value(s) == Some(decimal_value(s) as i64),
{
}

/// The one-character text of the digit `d`.
fn digit_str(d: u8) -> (r: &'static str)
    requires
        d <= 9,
    ensures
        r@ == seq![digit_char(d as int)],
{
    proof {
        reveal_strlit("0");
        reveal_strlit("1");
        reveal_strlit("2");
        reveal_strlit("3");
        reveal_strlit("4");
        reveal_strlit("5");
        reveal_strlit("6");
        reveal_strlit("7");
        reveal_strlit("8");
        reveal_strlit("9");
    }
    let r: &'static str = match d {
        0 => "0",
        1 => "1",
        2 => "2",
        3 => "3",
        4 => "4",
        5 => "5",
        6 => "6",
        7 => "7",
        8 => "8",
        _ => "9",
    };
    r
}

/// Appends the digits of `n` to `out`.
fn push_natural(n: u64, out: &mut String)
    ensures
        final(out)@ == old(out)@ + natural_text(n as nat),
    decreases n,
{
    if n >= 10 {
        push_natural(n / 10, out);
    }
    out.append(digit_str((n % 10) as u8));
}

/// Writes `v` as decimal text.
pub fn format_i64(v: i64) -> (text: String)
    ensures
        text@ == decimal_text(v as int),
{
    let mut text: String = String::new();
    if v < 0 {
        proof {
            reveal_strlit("-");
        }
        text.append("-");
        push_natural((-(v as i128)) as u64, &mut text);
    } else {
        push_natural(v as u64, &mut text);
    }
    text
}

} // verus!
