//! Decimal digits: how a number is written out, and how a weight literal of a
//! log file is read.

use vstd::prelude::*;
use vstd::string::*;

verus! {

/// The character that stands for a single decimal digit.
pub open spec fn digit_char(d: nat) -> char
    recommends
        d < 10,
{
    if d == 0 {
        '0'
    } else if d == 1 {
        '1'
    } else if d == 2 {
        '2'
    } else if d == 3 {
        '3'
    } else if d == 4 {
        '4'
    } else if d == 5 {
        '5'
    } else if d == 6 {
        '6'
    } else if d == 7 {
        '7'
    } else if d == 8 {
        '8'
    } else {
        '9'
    }
}

/// A natural number written in decimal, without leading zeros (zero is "0").
pub open spec fn decimal(n: nat) -> Seq<char>
    decreases n,
{
    if n < 10 {
        seq![digit_char(n)]
    } else {
        decimal(n / 10).push(digit_char(n % 10))
    }
}

/// Whether a character is one of '0' to '9'.
pub open spec fn is_digit(c: char) -> bool {
    '0' <= c <= '9'
}

/// The number that a digit character stands for.
pub open spec fn digit_value(c: char) -> nat
    recommends
        is_digit(c),
{
    (c as nat - '0' as nat) as nat
}

/// Whether a text holds digits only.
pub open spec fn all_digits(text: Seq<char>) -> bool {
    forall|i: int| 0 <= i < text.len() ==> is_digit(#[trigger] text[i])
}

/// The number that a run of digits denotes, leading zeros allowed; the empty
/// run denotes zero.
pub open spec fn digits_value(text: Seq<char>) -> nat
    recommends
        all_digits(text),
    decreases text.len(),
{
    if text.len() == 0 {
        0
    } else {
        digits_value(text.drop_last()) * 10 + digit_value(text.last())
    }
}

/// The tenths that a weight literal denotes. A literal gives kilograms as one
/// or more digits, which may be followed by a point and exactly one more
/// digit; anything else, a second fractional digit included, is no literal.
pub open spec fn literal_tenths(text: Seq<char>) -> Option<nat> {
    if text.len() >= 1 && all_digits(text) {
        Some(digits_value(text) * 10)
    } else if text.len() >= 3 && text[text.len() - 2] == '.' && all_digits(
        text.take(text.len() - 2),
    ) && is_digit(text.last()) {
        Some(digits_value(text.take(text.len() - 2)) * 10 + digit_value(text.last()))
    } else {
        None
    }
}

/// What a run of digits denotes with one more digit behind it: ten times
/// what it denoted, and the digit.
proof fn lemma_digits_value_step(text: Seq<char>, i: int)
    requires
        0 <= i < text.len(),
    ensures
        digits_value(text.take(i + 1)) == digits_value(text.take(i)) * 10 + digit_value(text[i]),
{
    assert(text.take(i + 1).drop_last() =~= text.take(i));
}

/// A number written in decimal is a run of digits that denotes that number.
pub proof fn lemma_decimal_is_read_back(n: nat)
    ensures
        decimal(n).len() >= 1,
        all_digits(decimal(n)),
        digits_value(decimal(n)) == n,
    decreases n,
{
    if n < 10 {
        assert(decimal(n).drop_last() =~= Seq::<char>::empty());
        assert(digits_value(decimal(n).drop_last()) == 0);
    } else {
        lemma_decimal_is_read_back(n / 10);
        assert(decimal(n).drop_last() =~= decimal(n / 10));
    }
}

/// How an ASCII character and its byte tell the same digit, or the point.
proof fn lemma_ascii_digit(c: char, b: u8)
    requires
        (c as nat) < 128,
        b == c as u8,
    ensures
        is_digit(c) <==> 48 <= b <= 57,
        is_digit(c) ==> digit_value(c) == b - 48,
        c == '.' <==> b == 46,
{
    let x = c as u32;
    assert(x < 128 ==> x as u8 == x) by (bit_vector);
}

fn digit_text(d: u32) -> (text: &'static str)
    requires
        d < 10,
    ensures
        text@ == seq![digit_char(d as nat)],
{
    proof {
        reveal_strlit("0");
        reveal_strlit("1");
        reveal_strlit("2");
        reveal_strlit("3");
        reveal_strlit("4");
        reveal_strlit("5");
        reveal_strlit("6");
        reveal_strlit("7");
        reveal_strlit("8");
        reveal_strlit("9");
    }
    let text = if d == 0 {
        "0"
    } else if d == 1 {
        "1"
    } else if d == 2 {
        "2"
    } else if d == 3 {
        "3"
    } else if d == 4 {
        "4"
    } else if d == 5 {
        "5"
    } else if d == 6 {
        "6"
    } else if d == 7 {
        "7"
    } else if d == 8 {
        "8"
    } else {
        "9"
    };
    assert(text@ =~= seq![digit_char(d as nat)]);
    text
}

/// Appends the decimal form of `n` to `out`.
pub fn push_decimal(out: &mut String, n: u32)
    ensures
        final(out)@ == old(out)@ + decimal(n as nat),
    decreases n,
{
    if n >= 10 {
        push_decimal(out, n / 10);
    }
    out.append(digit_text(n % 10));
    assert(out@ =~= old(out)@ + decimal(n as nat));
}

/// Reads a weight literal: the tenths it denotes, or `None` where the text is
/// no literal or denotes more than fits.
pub fn parse_tenths(text: &str) -> (tenths: Option<u32>)
    ensures
        tenths == match literal_tenths(text@) {
            Some(t) => if t <= u32::MAX {
                Some(t as u32)
            } else {
                None
            },
            None => None,
        },
{
    if !text.is_ascii() {
        assert(literal_tenths(text@) is None) by {
            if literal_tenths(text@) is Some {
                let n = text@.len() as int;
                assert forall|i: int| 0 <= i < n implies '\0' <= #[trigger] text@[i] <= '\u{7f}' by {
                    if all_digits(text@) {
                    } else if i < n - 2 {
                        assert(text@.take(n - 2)[i] == text@[i]);
                    }
                }
            }
        }
        return None;
    }
    let bytes = text.as_bytes();
    let n = bytes.len();
    proof {
        is_ascii_spec_bytes(text);
        vstd::utf8::is_ascii_chars_nat_bound(text@);
    }
    assert(n == text@.len());
    assert(forall|i: int| 0 <= i < n ==> bytes@[i] == text@[i] as u8);
    // The integer part is everything but a final ".d".
    let whole: usize = if n >= 3 && bytes[n - 2] == 46u8 {
        n - 2
    } else {
        n
    };
    let ghost pointed = n >= 3 && text@[n - 2] == '.';
    proof {
        if n >= 3 {
            lemma_ascii_digit(text@[n - 2], bytes@[n - 2]);
        }
    }
    if whole == 0 {
        return None;
    }
    let limit: u64 = 0x1_0000_0000;
    let mut acc: u64 = 0;
    let mut i: usize = 0;
    while i < whole
        invariant
            0 <= i <= whole <= n,
            n == text@.len(),
            n == bytes@.len(),
            pointed == (n >= 3 && text@[n - 2] == '.'),
            pointed ==> whole == n - 2,
            !pointed ==> whole == n,
            limit == 0x1_0000_0000,
            forall|k: int| 0 <= k < n ==> bytes@[k] == text@[k] as u8,
            forall|k: int| 0 <= k < n ==> (text@[k] as nat) < 128,
            all_digits(text@.take(i as int)),
            acc <= limit,
            acc < limit ==> acc == digits_value(text@.take(i as int)),
            acc == limit ==> digits_value(text@.take(i as int)) >= limit,
        decreases whole - i,
    {
        let b = bytes[i];
        if b < 48u8 || b > 57u8 {
            proof {
                let c = text@[i as int];
                lemma_ascii_digit(c, b);
                assert(literal_tenths(text@) is None) by {
                    if all_digits(text@) {
                    } else if pointed && all_digits(text@.take(n - 2)) {
                        assert(text@.take(n - 2)[i as int] == c);
                    }
                }
            }
            return None;
        }
        proof {
            lemma_digits_value_step(text@, i as int);
            lemma_ascii_digit(text@[i as int], b);
            assert forall|k: int| 0 <= k < i + 1 implies is_digit(
                #[trigger] text@.take(i + 1)[k],
            ) by {
                if k < i {
                    assert(text@.take(i as int)[k] == text@[k]);
                }
            }
        }
        let d: u64 = (b - 48u8) as u64;
        if acc < limit {
            acc = acc * 10 + d;
            if acc > limit {
                acc = limit;
            }
        }
        i = i + 1;
    }
    assert(text@.take(n as int) =~= text@);
    if whole == n {
        if acc * 10 > 0xffff_ffff {
            None
        } else {
            Some((acc * 10) as u32)
        }
    } else {
        let b = bytes[n - 1];
        proof {
            lemma_ascii_digit(text@[n - 1], b);
        }
        if b < 48u8 || b > 57u8 {
            return None;
        }
        assert(!all_digits(text@)) by {
            assert(!is_digit(text@[n - 2]));
        }
        let d: u64 = (b - 48u8) as u64;
        if acc * 10 + d > 0xffff_ffff {
            None
        } else {
            Some((acc * 10 + d) as u32)
        }
    }
}

} // verus!
