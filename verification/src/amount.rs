//! Fixed-point amounts as text: a count of ten-thousandths is written as a
//! decimal number with exactly four fractional digits.

use crate::account::ClientAccount;
use vstd::prelude::*;
use vstd::string::StringExecFns;

verus! {

/// The character of a decimal digit.
pub open spec fn digit_char(d: int) -> char {
    if d == 0 {
        '0'
    } else if d == 1 {
        '1'
    } else if d == 2 {
        '2'
    } else if d == 3 {
        '3'
    } else if d == 4 {
        '4'
    } else if d == 5 {
        '5'
    } else if d == 6 {
        '6'
    } else if d == 7 {
        '7'
    } else if d == 8 {
        '8'
    } else {
        '9'
    }
}

/// A natural number in decimal, without leading zeros.
pub open spec fn decimal_text(n: nat) -> Seq<char>
    decreases n,
{
    if n < 10 {
        seq![digit_char(n as int)]
    } else {
        decimal_text(n / 10).push(digit_char((n % 10) as int))
    }
}

/// The four fractional digits of a count below one unit.
pub open spec fn fraction_text(f: nat) -> Seq<char> {
    seq![
        digit_char((f / 1000) as int % 10),
        digit_char((f / 100) as int % 10),
        digit_char((f / 10) as int % 10),
        digit_char(f as int % 10),
    ]
}

/// The absolute value of a count.
pub open spec fn magnitude(v: int) -> nat {
    if v < 0 {
        (-v) as nat
    } else {
        v as nat
    }
}

/// An amount as text: a minus sign if it is negative, the whole units, a
/// point, and four fractional digits.
pub open spec fn amount_text(v: int) -> Seq<char> {
    let sign = if v < 0 {
        seq!['-']
    } else {
        Seq::<char>::empty()
    };
    sign + decimal_text(magnitude(v) / 10000) + seq!['.'] + fraction_text(magnitude(v) % 10000)
}

/// The one-character text of a decimal digit.
fn digit_str(d: u64) -> (s: &'static str)
    requires
        d < 10,
    ensures
        s@ == seq![digit_char(d as int)],
{
    proof {
        reveal_strlit("0");
        reveal_strlit("1");
        reveal_strlit("2");
        reveal_strlit("3");
        reveal_strlit("4");
        reveal_strlit("5");
        reveal_strlit("6");
        reveal_strlit("7");
        reveal_strlit("8");
        reveal_strlit("9");
    }
    let s = if d == 0 {
        "0"
    } else if d == 1 {
        "1"
    } else if d == 2 {
        "2"
    } else if d == 3 {
        "3"
    } else if d == 4 {
        "4"
    } else if d == 5 {
        "5"
    } else if d == 6 {
        "6"
    } else if d == 7 {
        "7"
    } else if d == 8 {
        "8"
    } else {
        "9"
    };
    assert(s@ =~= seq![digit_char(d as int)]);
    s
}

/// Appends a natural number in decimal.
fn push_decimal(n: u64, out: &mut String)
    ensures
        final(out)@ == old(out)@ + decimal_text(n as nat),
    decreases n,
{
    if n >= 10 {
        push_decimal(n / 10, out);
    }
    out.append(digit_str(n % 10));
    assert(final(out)@ =~= old(out)@ + decimal_text(n as nat));
}

/// Writes a natural number in decimal, as a client identifier is written.
pub fn format_count(n: u64) -> (text: String)
    ensures
        text@ == decimal_text(n as nat),
{
    let mut text = String::new();
    push_decimal(n, &mut text);
    assert(text@ =~= decimal_text(n as nat));
    text
}

/// Writes an amount with exactly four fractional digits.
pub fn format_amount(v: i64) -> (text: String)
    ensures
        text@ == amount_text(v as int),
{
    let mut text = String::new();
    let size: u64 = if v < 0 {
        proof {
            reveal_strlit("-");
        }
        text.append("-");
        (-(v + 1)) as u64 + 1
    } else {
        v as u64
    };
    assert(size == magnitude(v as int));
    push_decimal(size / 10000, &mut text);
    proof {
        reveal_strlit(".");
    }
    text.append(".");
    let f: u64 = size % 10000;
    text.append(digit_str(f / 1000 % 10));
    text.append(digit_str(f / 100 % 10));
    text.append(digit_str(f / 10 % 10));
    text.append(digit_str(f % 10));
    assert(text@ =~= amount_text(v as int));
    text
}

/// The column names of the account table.
pub fn header_row() -> (row: Vec<String>)
    ensures
        row@.len() == 5,
        row@[0]@ == "client"@,
        row@[1]@ == "available"@,
        row@[2]@ == "held"@,
        row@[3]@ == "total"@,
        row@[4]@ == "locked"@,
{
    let mut row: Vec<String> = Vec::new();
    row.push("client".to_owned());
    row.push("available".to_owned());
    row.push("held".to_owned());
    row.push("total".to_owned());
    row.push("locked".to_owned());
    row
}

/// One account as a row of the table: the client, the three balances with
/// four fractional digits each, and whether the account is locked.
pub fn account_row(account: &ClientAccount) -> (row: Vec<String>)
    ensures
        row@.len() == 5,
        row@[0]@ == decimal_text(account.client_id as nat),
        row@[1]@ == amount_text(account.available as int),
        row@[2]@ == amount_text(account.held as int),
        row@[3]@ == amount_text(account.total as int),
        row@[4]@ == if account.locked {
            "true"@
        } else {
            "false"@
        },
{
    let mut row: Vec<String> = Vec::new();
    row.push(format_count(account.client_id as u64));
    row.push(format_amount(account.available));
    row.push(format_amount(account.held));
    row.push(format_amount(account.total));
    if account.locked {
        row.push("true".to_owned());
    } else {
        row.push("false".to_owned());
    }
    row
}

/// Whether a byte is an ASCII decimal digit.
pub open spec fn is_digit(b: u8) -> bool {
    48 <= b <= 57
}

/// Every byte is a decimal digit.
pub open spec fn all_digits(s: Seq<u8>) -> bool {
    forall|i: int| 0 <= i < s.len() ==> is_digit(#[trigger] s[i])
}

/// The number that a string of decimal digits writes; zero for none.
pub open spec fn digits_value(s: Seq<u8>) -> nat
    decreases s.len(),
{
    if s.len() == 0 {
        0
    } else {
        digits_value(s.drop_last()) * 10 + (s.last() - 48) as nat
    }
}

/// How many decimal digits a text starts with.
pub open spec fn leading_digits(s: Seq<u8>) -> nat
    decreases s.len(),
{
    if s.len() == 0 || !is_digit(s[0]) {
        0
    } else {
        1 + leading_digits(s.drop_first())
    }
}

/// The count that up to four fractional digits stand for: the first digit
/// counts thousands of ten-thousandths, and so on.
pub open spec fn fraction_counts(frac: Seq<u8>) -> nat {
    if frac.len() == 0 {
        0
    } else if frac.len() == 1 {
        digits_value(frac) * 1000
    } else if frac.len() == 2 {
        digits_value(frac) * 100
    } else if frac.len() == 3 {
        digits_value(frac) * 10
    } else {
        digits_value(frac)
    }
}

/// The count that an unsigned decimal text stands for: one or more digits of
/// whole units, then optionally a point and at most four fractional digits.
/// Any other text stands for nothing.
pub open spec fn unsigned_counts(body: Seq<u8>) -> Option<nat> {
    let k = leading_digits(body) as int;
    let whole = body.take(k);
    let rest = body.skip(k);
    if k == 0 {
        None
    } else if rest.len() == 0 {
        Some(digits_value(whole) * 10000)
    } else if rest[0] == 46 && rest.len() <= 5 && all_digits(rest.drop_first()) {
        Some(digits_value(whole) * 10000 + fraction_counts(rest.drop_first()))
    } else {
        None
    }
}

/// The amount that a decimal text stands for: an optional minus sign, then
/// an unsigned decimal, if the count fits a signed 64-bit integer.
pub open spec fn amount_of_text(text: Seq<u8>) -> Option<i64> {
    let negative = text.len() > 0 && text[0] == 45;
    let body = if negative {
        text.drop_first()
    } else {
        text
    };
    match unsigned_counts(body) {
        None => None,
        Some(m) => {
            let v = if negative {
                -(m as int)
            } else {
                m as int
            };
            if i64::MIN <= v <= i64::MAX {
                Some(v as i64)
            } else {
                None
            }
        },
    }
}

/// The largest magnitude that an amount can have: that of the least `i64`.
pub const MAX_MAGNITUDE: u128 = 9223372036854775808;

/// A text whose first `k` bytes are digits and whose next byte, if any, is
/// not, starts with exactly `k` digits.
proof fn lemma_leading_digits(s: Seq<u8>, k: int)
    requires
        0 <= k <= s.len(),
        forall|j: int| 0 <= j < k ==> is_digit(#[trigger] s[j]),
        k == s.len() || !is_digit(s[k]),
    ensures
        leading_digits(s) == k,
    decreases k,
{
    if k > 0 {
        let t = s.drop_first();
        assert forall|j: int| 0 <= j < k - 1 implies is_digit(#[trigger] t[j]) by {
            assert(t[j] == s[j + 1]);
        }
        lemma_leading_digits(t, k - 1);
    }
}

/// Appending a digit multiplies the value by ten and adds the digit.
proof fn lemma_digits_value_step(text: Seq<u8>, from: int, to: int)
    requires
        0 <= from <= to < text.len(),
    ensures
        digits_value(text.subrange(from, to + 1)) == digits_value(text.subrange(from, to)) * 10 + (
        text[to] - 48) as nat,
{
    assert(text.subrange(from, to + 1).drop_last() =~= text.subrange(from, to));
}

fn is_digit_byte(b: u8) -> (r: bool)
    ensures
        r == is_digit(b),
{
    48 <= b && b <= 57
}

/// Reads an unsigned decimal that starts at `start`. Gives nothing where
/// the text is no such decimal or its count exceeds the largest magnitude.
fn parse_unsigned(text: &[u8], start: usize) -> (r: Option<u64>)
    requires
        start <= text.len(),
    ensures
        r == match unsigned_counts(text@.skip(start as int)) {
            Some(m) => if m <= MAX_MAGNITUDE {
                Some(m as u64)
            } else {
                None
            },
            None => None::<u64>,
        },
{
    let n = text.len();
    let ghost body = text@.skip(start as int);
    let mut i: usize = start;
    let mut whole: u128 = 0;
    let mut over = false;
    while i < n && is_digit_byte(text[i])
        invariant
            start <= i <= n,
            n == text.len(),
            forall|j: int| start <= j < i ==> is_digit(#[trigger] text@[j]),
            !over ==> whole == digits_value(text@.subrange(start as int, i as int)) && whole
                <= MAX_MAGNITUDE,
            over ==> digits_value(text@.subrange(start as int, i as int)) > MAX_MAGNITUDE,
        decreases n - i,
    {
        proof {
            lemma_digits_value_step(text@, start as int, i as int);
        }
        if !over {
            whole = whole * 10 + (text[i] - 48) as u128;
            if whole > MAX_MAGNITUDE {
                over = true;
            }
        }
        i += 1;
    }
    let ghost k = (i - start) as int;
    proof {
        assert forall|j: int| 0 <= j < k implies is_digit(#[trigger] body[j]) by {
            assert(body[j] == text@[start + j]);
        }
        lemma_leading_digits(body, k);
        assert(body.take(k) =~= text@.subrange(start as int, i as int));
        assert(body.skip(k) =~= text@.subrange(i as int, n as int));
    }
    if i == start {
        return None;
    }
    let mut fraction: u64 = 0;
    if i < n {
        if text[i] != 46 || n - i > 5 {
            return None;
        }
        let first: usize = i + 1;
        let ghost frac = text@.subrange(first as int, n as int);
        proof {
            assert(body.skip(k).drop_first() =~= frac);
        }
        let mut j: usize = first;
        while j < n
            invariant
                first <= j <= n,
                n == text.len(),
                n - first <= 4,
                frac == text@.subrange(first as int, n as int),
                start <= text.len(),
                unsigned_counts(text@.skip(start as int)) is Some ==> all_digits(frac),
                forall|x: int| first <= x < j ==> is_digit(#[trigger] text@[x]),
                fraction == digits_value(text@.subrange(first as int, j as int)),
                j - first == 0 ==> fraction == 0,
                j - first == 1 ==> fraction < 10,
                j - first == 2 ==> fraction < 100,
                j - first == 3 ==> fraction < 1000,
                j - first == 4 ==> fraction < 10000,
            decreases n - j,
        {
            if !is_digit_byte(text[j]) {
                proof {
                    assert(frac[j - first] == text@[j as int]);
                }
                return None;
            }
            proof {
                lemma_digits_value_step(text@, first as int, j as int);
            }
            fraction = fraction * 10 + (text[j] - 48) as u64;
            j += 1;
        }
        proof {
            assert(text@.subrange(first as int, j as int) =~= frac);
            assert forall|x: int| 0 <= x < frac.len() implies is_digit(#[trigger] frac[x]) by {
                assert(frac[x] == text@[first + x]);
            }
        }
        let digits: usize = n - first;
        if digits == 1 {
            fraction = fraction * 1000;
        } else if digits == 2 {
            fraction = fraction * 100;
        } else if digits == 3 {
            fraction = fraction * 10;
        }
        assert(fraction == fraction_counts(frac));
    }
    if over {
        return None;
    }
    let counts: u128 = whole * 10000 + fraction as u128;
    if counts > MAX_MAGNITUDE {
        None
    } else {
        Some(counts as u64)
    }
}

/// Reads an amount from decimal text, exactly: a text with more than four
/// fractional digits, or whose count does not fit, is refused rather than
/// rounded.
pub fn parse_amount(text: &[u8]) -> (r: Option<i64>)
    ensures
        r == amount_of_text(text@),
{
    let negative = text.len() > 0 && text[0] == 45;
    let start: usize = if negative {
        1
    } else {
        0
    };
    proof {
        assert(text@.skip(0) =~= text@);
    }
    match parse_unsigned(text, start) {
        None => None,
        Some(m) => {
            if negative {
                if m == 9223372036854775808 {
                    Some(i64::MIN)
                } else {
                    Some(-(m as i64))
                }
            } else if m <= 9223372036854775807 {
                Some(m as i64)
            } else {
                None
            }
        },
    }
}

/// A text of ASCII characters as bytes.
pub open spec fn ascii_bytes(text: Seq<char>) -> Seq<u8> {
    text.map_values(|c: char| c as u8)
}

/// The byte of a digit's character is 48 plus the digit.
proof fn lemma_digit_byte(d: int)
    requires
        0 <= d <= 9,
    ensures
        digit_char(d) as u8 == 48 + d,
{
}

/// The value of digits followed by one more digit.
proof fn lemma_digits_value_push(s: Seq<u8>, b: u8)
    ensures
        digits_value(s.push(b)) == digits_value(s) * 10 + (b - 48) as nat,
{
    assert(s.push(b).drop_last() =~= s);
}

/// The decimal text of a number consists of digits and has the number as
/// its value.
proof fn lemma_decimal_text_value(n: nat)
    ensures
        ascii_bytes(decimal_text(n)).len() >= 1,
        all_digits(ascii_bytes(decimal_text(n))),
        digits_value(ascii_bytes(decimal_text(n))) == n,
    decreases n,
{
    if n < 10 {
        lemma_digit_byte(n as int);
        let b = digit_char(n as int) as u8;
        assert(ascii_bytes(decimal_text(n)) =~= Seq::<u8>::empty().push(b));
        lemma_digits_value_push(Seq::<u8>::empty(), b);
    } else {
        lemma_decimal_text_value(n / 10);
        lemma_digit_byte((n % 10) as int);
        let front = ascii_bytes(decimal_text(n / 10));
        let b = digit_char((n % 10) as int) as u8;
        assert(ascii_bytes(decimal_text(n)) =~= front.push(b));
        lemma_digits_value_push(front, b);
    }
}

/// The four fractional digits of a count below one unit consist of digits
/// and have the count as their value.
proof fn lemma_fraction_text_value(f: nat)
    requires
        f < 10000,
    ensures
        ascii_bytes(fraction_text(f)).len() == 4,
        all_digits(ascii_bytes(fraction_text(f))),
        fraction_counts(ascii_bytes(fraction_text(f))) == f,
{
    let d3 = (f / 1000) as int % 10;
    let d2 = (f / 100) as int % 10;
    let d1 = (f / 10) as int % 10;
    let d0 = f as int % 10;
    lemma_digit_byte(d3);
    lemma_digit_byte(d2);
    lemma_digit_byte(d1);
    lemma_digit_byte(d0);
    let b3 = digit_char(d3) as u8;
    let b2 = digit_char(d2) as u8;
    let b1 = digit_char(d1) as u8;
    let b0 = digit_char(d0) as u8;
    let e = Seq::<u8>::empty();
    assert(ascii_bytes(fraction_text(f)) =~= e.push(b3).push(b2).push(b1).push(b0));
    lemma_digits_value_push(e, b3);
    lemma_digits_value_push(e.push(b3), b2);
    lemma_digits_value_push(e.push(b3).push(b2), b1);
    lemma_digits_value_push(e.push(b3).push(b2).push(b1), b0);
    assert(((d3 * 10 + d2) * 10 + d1) * 10 + d0 == f);
}

/// Reading back the text of an amount gives the amount: whatever
/// `format_amount` writes, `parse_amount` reads as the same count.
pub proof fn lemma_text_reads_back(v: i64)
    ensures
        amount_of_text(ascii_bytes(amount_text(v as int))) == Some(v),
{
    let m = magnitude(v as int);
    let whole = ascii_bytes(decimal_text(m / 10000));
    let frac = ascii_bytes(fraction_text(m % 10000));
    lemma_decimal_text_value(m / 10000);
    lemma_fraction_text_value(m % 10000);
    let body = whole + seq![46u8] + frac;
    let text = ascii_bytes(amount_text(v as int));
    if v < 0 {
        assert(text =~= seq![45u8] + body);
        assert(text.drop_first() =~= body);
    } else {
        assert(text =~= body);
        assert(text[0] == whole[0]);
    }
    let k = whole.len() as int;
    assert forall|j: int| 0 <= j < k implies is_digit(#[trigger] body[j]) by {
        assert(body[j] == whole[j]);
    }
    assert(body[k] == 46u8);
    lemma_leading_digits(body, k);
    assert(body.take(k) =~= whole);
    assert(body.skip(k).drop_first() =~= frac);
    assert(unsigned_counts(body) == Some(m));
}

} // verus!
