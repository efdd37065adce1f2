//! Decimal text of unsigned 32-bit integers.
//!
//! Writing produces the shortest decimal numeral of a number. Reading accepts
//! what Rust's own integer parsing accepts: an optional `+` sign followed by
//! one or more ASCII digits whose value fits the type. Leading zeros are
//! accepted; whitespace, `-`, `_` and an empty digit run are not.
use vstd::prelude::*;
use vstd::string::StringExecFns;

verus! {

/// Whether `c` is one of the ASCII digits `0` to `9`.
pub open spec fn is_digit(c: char) -> bool {
    '0' <= c && c <= '9'
}

/// The number that the digit `c` stands for.
pub open spec fn digit_value(c: char) -> nat
    recommends
        is_digit(c),
{
    (c as int - '0' as int) as nat
}

/// The digit that stands for `d`.
pub open spec fn digit_char(d: nat) -> char
    recommends
        d < 10,
{
    (d + '0' as nat) as char
}

/// Whether every character of `s` is a digit.
pub open spec fn all_digits(s: Seq<char>) -> bool {
    forall|i: int| 0 <= i < s.len() ==> is_digit(#[trigger] s[i])
}

/// The shortest decimal numeral of `n`, most significant digit first.
pub open spec fn decimal_text(n: nat) -> Seq<char>
    decreases n,
{
    if n < 10 {
        seq![digit_char(n)]
    } else {
        decimal_text(n / 10).push(digit_char(n % 10))
    }
}

/// The number that a run of digits writes, most significant digit first.
/// The empty run writes zero.
pub open spec fn digits_value(s: Seq<char>) -> nat
    decreases s.len(),
{
    if s.len() == 0 {
        0
    } else {
        10 * digits_value(s.drop_last()) + digit_value(s.last())
    }
}

/// The length of the optional sign in front of a numeral: 1 where `s` starts
/// with `+`, else 0.
pub open spec fn sign_len(s: Seq<char>) -> int {
    if s.len() > 0 && s[0] == '+' {
        1
    } else {
        0
    }
}

/// The `u32` that the text `s` denotes, if it denotes one: an optional `+`,
/// then at least one digit and nothing but digits, with a value of at most
/// `u32::MAX`.
pub open spec fn parse_u32(s: Seq<char>) -> Option<u32> {
    let digits = s.skip(sign_len(s));
    if digits.len() > 0 && all_digits(digits) && digits_value(digits) <= u32::MAX {
        Some(digits_value(digits) as u32)
    } else {
        None
    }
}

/// Appending a digit multiplies the value by ten and adds the digit.
pub proof fn lemma_digits_value_push(s: Seq<char>, c: char)
    ensures
        digits_value(s.push(c)) == 10 * digits_value(s) + digit_value(c),
{
    assert(s.push(c).drop_last() =~= s);
}

/// A run of digits is worth at least as much as any of its prefixes.
pub proof fn lemma_digits_value_prefix(s: Seq<char>, k: int)
    requires
        0 <= k <= s.len(),
    ensures
        digits_value(s.take(k)) <= digits_value(s),
    decreases s.len() - k,
{
    if k < s.len() {
        lemma_digits_value_prefix(s, k + 1);
        assert(s.take(k + 1).drop_last() =~= s.take(k));
    } else {
        assert(s.take(k) =~= s);
    }
}

/// The numeral of `n` is a non-empty run of digits that writes `n`.
pub proof fn lemma_decimal_text(n: nat)
    ensures
        decimal_text(n).len() > 0,
        all_digits(decimal_text(n)),
        digits_value(decimal_text(n)) == n,
    decreases n,
{
    if n < 10 {
        let s = seq![digit_char(n)];
        assert(s.drop_last() =~= Seq::<char>::empty());
        assert(digits_value(s.drop_last()) == 0);
    } else {
        lemma_decimal_text(n / 10);
        lemma_digits_value_push(decimal_text(n / 10), digit_char(n % 10));
    }
}

/// A numeral holds no character that is not a digit.
pub proof fn lemma_decimal_text_lacks(n: nat, c: char)
    requires
        !is_digit(c),
    ensures
        !decimal_text(n).contains(c),
{
    let text = decimal_text(n);
    lemma_decimal_text(n);
    assert forall|j: int| 0 <= j < text.len() implies text[j] != c by {
        assert(is_digit(text[j]));
    }
}

/// Reading the numeral of a `u32` gives the number back.
pub proof fn lemma_parse_decimal_text(n: u32)
    ensures
        parse_u32(decimal_text(n as nat)) == Some(n),
{
    let s = decimal_text(n as nat);
    lemma_decimal_text(n as nat);
    assert(is_digit(s[0]));
    assert(sign_len(s) == 0);
    assert(s.skip(0) =~= s);
}

/// The one-character text of the digit `d`.
fn digit_str(d: u32) -> (s: &'static str)
    requires
        d < 10,
    ensures
        s@ == seq![digit_char(d as nat)],
{
    proof {
        reveal_strlit("0");
        reveal_strlit("1");
        reveal_strlit("2");
        reveal_strlit("3");
        reveal_strlit("4");
        reveal_strlit("5");
        reveal_strlit("6");
        reveal_strlit("7");
        reveal_strlit("8");
        reveal_strlit("9");
    }
    let s = match d {
        0 => "0",
        1 => "1",
        2 => "2",
        3 => "3",
        4 => "4",
        5 => "5",
        6 => "6",
        7 => "7",
        8 => "8",
        _ => "9",
    };
    assert(s@ =~= seq![digit_char(d as nat)]);
    s
}

/// Appends the decimal numeral of `n` to `out`.
pub fn write_u32(out: &mut String, n: u32)
    ensures
        final(out)@ == old(out)@ + decimal_text(n as nat),
    decreases n,
{
    if n >= 10 {
        write_u32(out, n / 10);
    }
    out.append(digit_str(n % 10));
    proof {
        if n >= 10 {
            assert(old(out)@ + decimal_text((n / 10) as nat) + seq![digit_char((n % 10) as nat)]
                =~= old(out)@ + decimal_text(n as nat));
        }
    }
}

/// The decimal numeral of `n`.
pub fn format_u32(n: u32) -> (text: String)
    ensures
        text@ == decimal_text(n as nat),
{
    let mut text = String::new();
    write_u32(&mut text, n);
    assert(Seq::<char>::empty() + decimal_text(n as nat) =~= decimal_text(n as nat));
    text
}

/// The number of a digit character, `None` for any other character.
pub fn digit_of(c: char) -> (d: Option<u32>)
    ensures
        d == (if is_digit(c) {
            Some(digit_value(c) as u32)
        } else {
            None
        }),
{
    if '0' <= c && c <= '9' {
        Some(c as u32 - '0' as u32)
    } else {
        None
    }
}

/// Reads `text` as a `u32`: `Some` of the number it denotes, `None` where it
/// denotes none.
pub fn read_u32(text: &str) -> (r: Option<u32>)
    ensures
        r == parse_u32(text@),
{
    let ghost sign = sign_len(text@);
    let ghost digits = text@.skip(sign);
    let mut acc: u32 = 0;
    let mut first = true;
    let mut empty = true;
    for c in it: text.chars()
        invariant
            it.seq() == text@,
            sign == sign_len(text@),
            digits == text@.skip(sign),
            first == (it.index() == 0),
            !first ==> it.index() >= sign,
            empty == (it.index() <= sign),
            it.index() >= sign ==> all_digits(text@.subrange(sign, it.index() as int)),
            it.index() >= sign ==> acc == digits_value(text@.subrange(sign, it.index() as int)),
            it.index() < sign ==> acc == 0,
    {
        let ghost i = it.index() as int;
        assert(c == text@[i]);
        if first && c == '+' {
            first = false;
            assert(text@.subrange(1, 1) =~= Seq::<char>::empty());
        } else {
            first = false;
            assert(i >= sign);
            let ghost seen = text@.subrange(sign, i);
            assert(seen.push(c) =~= text@.subrange(sign, i + 1));
            assert(digits.take(i + 1 - sign) =~= seen.push(c));
            match digit_of(c) {
                Some(d) => {
                    proof {
                        lemma_digits_value_push(seen, c);
                    }
                    let next: u64 = acc as u64 * 10 + d as u64;
                    if next > u32::MAX as u64 {
                        proof {
                            lemma_digits_value_prefix(digits, i + 1 - sign);
                        }
                        return None;
                    }
                    acc = next as u32;
                    empty = false;
                },
                None => {
                    assert(digits[i - sign] == c);
                    return None;
                },
            }
        }
    }
    assert(text@.subrange(sign, text@.len() as int) =~= digits);
    if empty {
        None
    } else {
        Some(acc)
    }
}

} // verus!
