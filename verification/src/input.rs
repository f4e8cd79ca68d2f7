//! Reading the answers that a user typed.

use vstd::prelude::*;
use crate::text::trimmed;

verus! {

/// `line` without one line feed at its end, and then without one carriage
/// return at its end.
pub open spec fn without_line_ending(line: Seq<char>) -> Seq<char> {
    let a = if line.len() > 0 && line.last() == '\n' {
        line.drop_last()
    } else {
        line
    };
    if a.len() > 0 && a.last() == '\r' {
        a.drop_last()
    } else {
        a
    }
}

/// `s` without its last character, if that is `c`.
fn strip_last(s: &str, c: char) -> (out: &str)
    ensures
        out@ == if s@.len() > 0 && s@.last() == c {
            s@.drop_last()
        } else {
            s@
        },
{
    let n = s.unicode_len();
    if n > 0 && s.get_char(n - 1) == c {
        s.substring_char(0, n - 1)
    } else {
        s
    }
}

/// Takes the line ending off a line that was read.
pub fn strip_line_ending(line: &str) -> (out: String)
    ensures
        out@ == without_line_ending(line@),
{
    let a = strip_last(line, '\n');
    let b = strip_last(a, '\r');
    String::from_str(b)
}

/// Whether `answer` says yes: it is the letter y, in either case.
pub fn is_yes(answer: &str) -> (out: bool)
    ensures
        out == (answer@ == seq!['y'] || answer@ == seq!['Y']),
{
    if answer.unicode_len() != 1 {
        return false;
    }
    let c = answer.get_char(0);
    assert(answer@ =~= seq![c]);
    c == 'y' || c == 'Y'
}

/// The name of the output file when none is given.
pub open spec fn default_output_name() -> Seq<char> {
    "scraped_data.csv"@
}

/// The name of the output file: `answer` as it is, or the default name
/// where `answer` holds nothing but whitespace.
pub fn output_filename(answer: String) -> (out: String)
    ensures
        out@ == if trimmed(answer@).len() == 0 {
            default_output_name()
        } else {
            answer@
        },
{
    if answer.as_str().trim().is_empty() {
        String::from_str("scraped_data.csv")
    } else {
        answer
    }
}

/// The value of the decimal digit `c`, if it is one.
pub open spec fn digit_value(c: char) -> Option<nat> {
    if '0' <= c && c <= '9' {
        Some((c as u32 - '0' as u32) as nat)
    } else {
        None
    }
}

/// The number that the decimal digits `digits` write, if they all are digits.
pub open spec fn digits_value(digits: Seq<char>) -> Option<nat>
    decreases digits.len(),
{
    if digits.len() == 0 {
        Some(0)
    } else {
        match (digits_value(digits.drop_last()), digit_value(digits.last())) {
            (Some(v), Some(d)) => Some(v * 10 + d),
            _ => None,
        }
    }
}

/// The count that `s` writes: an optional plus sign, then at least one
/// decimal digit and nothing else, for a number that fits the machine word.
pub open spec fn parsed_count(s: Seq<char>) -> Option<usize> {
    let digits = if s.len() > 0 && s[0] == '+' {
        s.drop_first()
    } else {
        s
    };
    if digits.len() == 0 {
        None
    } else {
        match digits_value(digits) {
            Some(v) => if v <= usize::MAX {
                Some(v as usize)
            } else {
                None
            },
            None => None,
        }
    }
}

/// A prefix of digits writes a number no larger than the whole does.
proof fn lemma_digits_grow(digits: Seq<char>, k: int)
    requires
        0 <= k <= digits.len(),
        digits_value(digits) is Some,
    ensures
        digits_value(digits.take(k)) is Some,
        digits_value(digits.take(k))->0 <= digits_value(digits)->0,
    decreases digits.len(),
{
    if k == digits.len() {
        assert(digits.take(k) =~= digits);
    } else {
        assert(digits.drop_last().take(k) =~= digits.take(k));
        lemma_digits_grow(digits.drop_last(), k);
    }
}

/// A text with a character that is no digit writes no number.
proof fn lemma_digits_invalid(digits: Seq<char>, k: int)
    requires
        0 <= k < digits.len(),
        digit_value(digits[k]) is None,
    ensures
        digits_value(digits) is None,
    decreases digits.len(),
{
    if k < digits.len() - 1 {
        lemma_digits_invalid(digits.drop_last(), k);
    }
}

/// Reads a count.
pub fn parse_count(s: &str) -> (out: Option<usize>)
    ensures
        out == parsed_count(s@),
{
    let n = s.unicode_len();
    let start: usize = if n > 0 && s.get_char(0) == '+' {
        1
    } else {
        0
    };
    let ghost digits = s@.subrange(start as int, n as int);
    assert(digits =~= if start == 1 {
        s@.drop_first()
    } else {
        s@
    });
    if start == n {
        return None;
    }
    let mut value: usize = 0;
    let mut i: usize = start;
    assert(digits.take(0) =~= Seq::<char>::empty());
    while i < n
        invariant
            start <= i <= n,
            n == s@.len(),
            digits == s@.subrange(start as int, n as int),
            digits.len() > 0,
            digits == if s@.len() > 0 && s@[0] == '+' {
                s@.drop_first()
            } else {
                s@
            },
            digits_value(digits.take(i - start)) == Some(value as nat),
        decreases n - i,
    {
        let c = s.get_char(i);
        proof {
            assert(digits[i - start] == c);
            assert(digits.take(i - start + 1).drop_last() =~= digits.take(i - start));
            assert(digits.take(i - start + 1).last() == c);
        }
        if c < '0' || c > '9' {
            proof {
                lemma_digits_invalid(digits, i - start);
            }
            return None;
        }
        let d: usize = (c as u32 - '0' as u32) as usize;
        if value > (usize::MAX - d) / 10 {
            proof {
                if digits_value(digits) is Some {
                    lemma_digits_grow(digits, i - start + 1);
                }
            }
            return None;
        }
        value = value * 10 + d;
        i += 1;
    }
    assert(digits.take(n - start) =~= digits);
    Some(value)
}

} // verus!
