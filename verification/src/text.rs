//! Text that the library writes: decimal numbers, and the input of the
//! problem reader with its typographic symbols replaced by ASCII ones.

use vstd::prelude::*;

verus! {

/// The decimal digit `d` as a character.
pub open spec fn digit_char(d: nat) -> char {
    (48 + d) as char
}

/// The decimal representation of `n`, without sign or leading zeros.
pub open spec fn decimal_text(n: nat) -> Seq<char>
    decreases n,
{
    if n < 10 {
        seq![digit_char(n)]
    } else {
        decimal_text(n / 10).push(digit_char(n % 10))
    }
}

fn digit_str(d: u128) -> (text: &'static str)
    requires
        d < 10,
    ensures
        text@ == seq![digit_char(d as nat)],
{
    proof {
        reveal_strlit("0");
        reveal_strlit("1");
        reveal_strlit("2");
        reveal_strlit("3");
        reveal_strlit("4");
        reveal_strlit("5");
        reveal_strlit("6");
        reveal_strlit("7");
        reveal_strlit("8");
        reveal_strlit("9");
    }
    if d == 0 {
        "0"
    } else if d == 1 {
        "1"
    } else if d == 2 {
        "2"
    } else if d == 3 {
        "3"
    } else if d == 4 {
        "4"
    } else if d == 5 {
        "5"
    } else if d == 6 {
        "6"
    } else if d == 7 {
        "7"
    } else if d == 8 {
        "8"
    } else {
        "9"
    }
}

/// Appends the decimal representation of `n` to `text`.
pub fn push_decimal(text: &mut String, n: u128)
    ensures
        final(text)@ == old(text)@ + decimal_text(n as nat),
    decreases n,
{
    if n < 10 {
        text.append(digit_str(n));
    } else {
        push_decimal(text, n / 10);
        text.append(digit_str(n % 10));
    }
}

/// The decimal representation of `n`.
pub fn decimal(n: u128) -> (text: String)
    ensures
        text@ == decimal_text(n as nat),
{
    let mut text = String::new();
    push_decimal(&mut text, n);
    assert(text@ =~= decimal_text(n as nat));
    text
}

/// What a character of the input becomes before the problem is read: the
/// minus sign and the dashes become `-`, and `≤` and `≥` become `<=` and
/// `>=`.
pub open spec fn ascii_replacement(c: char) -> Seq<char> {
    if c == '\u{2212}' || c == '\u{2013}' || c == '\u{2014}' {
        seq!['-']
    } else if c == '\u{2264}' {
        seq!['<', '=']
    } else if c == '\u{2265}' {
        seq!['>', '=']
    } else {
        seq![c]
    }
}

/// The input with each character replaced by `ascii_replacement`.
pub open spec fn normalized_input(input: Seq<char>) -> Seq<char>
    decreases input.len(),
{
    if input.len() == 0 {
        Seq::empty()
    } else {
        normalized_input(input.drop_last()) + ascii_replacement(input.last())
    }
}

/// Replaces the typographic minus, the dashes and the signs `≤` and `≥` of
/// the input with the ASCII text that the reader understands.
pub fn normalize_parser_input(input: &str) -> (normalized: String)
    ensures
        normalized@ == normalized_input(input@),
{
    let mut normalized = String::new();
    let length = input.unicode_len();
    let mut index: usize = 0;
    let mut copied_from: usize = 0;
    while index < length
        invariant
            length == input@.len(),
            copied_from <= index <= length,
            normalized@ + input@.subrange(copied_from as int, index as int) == normalized_input(
                input@.take(index as int),
            ),
        decreases length - index,
    {
        let c = input.get_char(index);
        assert(input@.take(index + 1).drop_last() =~= input@.take(index as int));
        assert(input@.take(index + 1).last() == c);
        let ghost before = normalized@;
        let ghost previous = normalized_input(input@.take(index as int));
        assert(normalized_input(input@.take(index + 1)) == previous + ascii_replacement(c));
        let is_dash = c == '\u{2212}' || c == '\u{2013}' || c == '\u{2014}';
        if is_dash || c == '\u{2264}' || c == '\u{2265}' {
            let pending = input.substring_char(copied_from, index);
            normalized.append(pending);
            let ghost with_pending = normalized@;
            if is_dash {
                normalized.append("-");
                proof {
                    reveal_strlit("-");
                }
                assert("-"@ =~= ascii_replacement(c));
            } else if c == '\u{2264}' {
                normalized.append("<=");
                proof {
                    reveal_strlit("<=");
                }
                assert("<="@ =~= ascii_replacement(c));
            } else {
                normalized.append(">=");
                proof {
                    reveal_strlit(">=");
                }
                assert(">="@ =~= ascii_replacement(c));
            }
            assert(normalized@ == with_pending + ascii_replacement(c));
            assert(normalized@ == before + input@.subrange(copied_from as int, index as int)
                + ascii_replacement(c));
            copied_from = index + 1;
            assert(input@.subrange(copied_from as int, index + 1) =~= Seq::<char>::empty());
            assert(normalized@ + input@.subrange(copied_from as int, index + 1) =~= normalized@);
        } else {
            assert(input@.subrange(copied_from as int, index + 1) =~= input@.subrange(
                copied_from as int,
                index as int,
            ).push(c));
            assert(ascii_replacement(c) == seq![c]);
            assert(normalized@ + input@.subrange(copied_from as int, index + 1) =~= before
                + input@.subrange(copied_from as int, index as int) + seq![c]);
        }
        index = index + 1;
    }
    let rest = input.substring_char(copied_from, length);
    normalized.append(rest);
    assert(input@.take(length as int) =~= input@);
    normalized
}

} // verus!
