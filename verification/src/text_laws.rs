//! What holds of numbers and parts of texts.
use vstd::prelude::*;

use crate::text::{
    after_plus, decimal, digit, digits_value, is_digit, joined, lemma_decimal_digits,
    parsed_unsigned, stripped, stripped_end, stripped_start,
};

verus! {

/// A number in decimal reads back as the number, exactly if it is not too large.
pub proof fn law_numbers_read_back(n: nat, max: int)
    ensures
        parsed_unsigned(decimal(n), max) == (if n <= max {
            Some(n as int)
        } else {
            None
        }),
{
    lemma_decimal_digits(n);
    lemma_digits_of(n);
    let s = decimal(n);
    assert(s.contains(s[0]));
    assert(after_plus(s) =~= s);
    assert forall|i: int| 0 <= i < s.len() implies is_digit(#[trigger] s[i]) by {
        assert(s.contains(s[i]));
    }
}

proof fn lemma_digits_of(n: nat)
    ensures
        digits_value(decimal(n)) == n,
    decreases n,
{
    let s = decimal(n);
    if n < 10 {
        assert(s.drop_last() =~= Seq::<char>::empty());
        assert(digits_value(Seq::<char>::empty()) == 0);
        assert(s.last() == digit(n as int));
        assert(crate::text::digit_value(digit(n as int)) == n);
    } else {
        lemma_digits_of(n / 10);
        assert(s.drop_last() =~= decimal(n / 10));
        assert(s.last() == digit((n % 10) as int));
        assert(crate::text::digit_value(digit((n % 10) as int)) == n % 10);
        assert(n == (n / 10) * 10 + n % 10);
    }
}

/// Only digits write a number, but for a plus sign in front: a text that reads as a number has
/// nothing else, is not empty, and reads as a number that is not too large.
pub proof fn law_only_digits_write_numbers(s: Seq<char>, max: int, i: int)
    requires
        parsed_unsigned(s, max) is Some,
    ensures
        0 <= parsed_unsigned(s, max)->0 <= max,
        s.len() > 0,
        0 <= i < s.len() ==> ('0' <= s[i] && s[i] <= '9') || (i == 0 && s[i] == '+' && s.len() > 1),
{
    let digits = after_plus(s);
    lemma_digits_are_positive(digits);
    if 0 <= i < s.len() {
        if s[0] == '+' {
            if i > 0 {
                assert(digits[i - 1] == s[i]);
            }
        } else {
            assert(digits[i] == s[i]);
        }
    }
}

proof fn lemma_digits_are_positive(s: Seq<char>)
    requires
        forall|i: int| 0 <= i < s.len() ==> is_digit(#[trigger] s[i]),
    ensures
        0 <= digits_value(s),
    decreases s.len(),
{
    if s.len() > 0 {
        assert(is_digit(s.last()));
        assert forall|i: int| 0 <= i < s.drop_last().len() implies is_digit(
            #[trigger] s.drop_last()[i],
        ) by {
            assert(s.drop_last()[i] == s[i]);
        }
        lemma_digits_are_positive(s.drop_last());
    }
}

/// Parts that are joined stand one after the other, with the separator between them.
pub proof fn law_joined_parts_stand_in_order(
    first: Seq<Seq<char>>,
    last: Seq<char>,
    separator: Seq<char>,
)
    ensures
        joined(Seq::empty(), separator) == Seq::<char>::empty(),
        joined(seq![last], separator) == last,
        first.len() > 0 ==> joined(first.push(last), separator) == joined(first, separator)
            + separator + last,
{
    assert(first.push(last).drop_last() =~= first);
    assert(seq![last].drop_last() =~= Seq::<Seq<char>>::empty());
    assert(joined(seq![last], separator) =~= last);
}

/// Stripping takes the character from the ends and nothing else.
pub proof fn law_stripping_takes_only_the_character(s: Seq<char>, c: char)
    ensures
        exists|from: int, to: int|
            {
                &&& 0 <= from <= to <= s.len()
                &&& #[trigger] s.subrange(from, to) == stripped(s, c)
                &&& forall|i: int| 0 <= i < from ==> #[trigger] s[i] == c
                &&& forall|i: int| to <= i < s.len() ==> #[trigger] s[i] == c
            },
        stripped(s, c).len() > 0 ==> stripped(s, c)[0] != c && stripped(s, c).last() != c,
{
    let t = stripped_start(s, c);
    lemma_stripped_start(s, c);
    lemma_stripped_end(t, c);
    let from = s.len() - t.len();
    let to = from + stripped_end(t, c).len();
    assert(s.subrange(from, to) =~= stripped(s, c));
    assert forall|i: int| to <= i < s.len() implies #[trigger] s[i] == c by {
        assert(t[i - from] == s[i]);
    }
    if stripped(s, c).len() > 0 {
        assert(stripped(s, c)[0] == t[0]);
    }
}

proof fn lemma_stripped_start(s: Seq<char>, c: char)
    ensures
        stripped_start(s, c).len() <= s.len(),
        stripped_start(s, c) == s.skip(s.len() - stripped_start(s, c).len()),
        forall|i: int| 0 <= i < s.len() - stripped_start(s, c).len() ==> #[trigger] s[i] == c,
        stripped_start(s, c).len() > 0 ==> stripped_start(s, c)[0] != c,
    decreases s.len(),
{
    if s.len() > 0 && s[0] == c {
        let rest = s.skip(1);
        lemma_stripped_start(rest, c);
        assert(stripped_start(s, c) =~= s.skip(s.len() - stripped_start(s, c).len()));
        assert forall|i: int|
            0 <= i < s.len() - stripped_start(s, c).len() implies #[trigger] s[i] == c by {
            if i > 0 {
                assert(rest[i - 1] == s[i]);
            }
        }
    } else {
        assert(s.skip(0) =~= s);
    }
}

proof fn lemma_stripped_end(s: Seq<char>, c: char)
    ensures
        stripped_end(s, c).len() <= s.len(),
        stripped_end(s, c) == s.take(stripped_end(s, c).len() as int),
        forall|i: int| stripped_end(s, c).len() <= i < s.len() ==> #[trigger] s[i] == c,
        stripped_end(s, c).len() > 0 ==> stripped_end(s, c).last() != c,
    decreases s.len(),
{
    if s.len() > 0 && s.last() == c {
        let rest = s.drop_last();
        lemma_stripped_end(rest, c);
        assert(stripped_end(s, c) =~= s.take(stripped_end(s, c).len() as int));
        assert forall|i: int|
            stripped_end(s, c).len() <= i < s.len() implies #[trigger] s[i] == c by {
            if i < rest.len() {
                assert(rest[i] == s[i]);
            }
        }
    } else {
        assert(s.take(s.len() as int) =~= s);
    }
}

/// Among the ASCII characters, the blank and the characters from tab to carriage return are
/// white space, and no other is.
pub proof fn law_ascii_white_space(c: char)
    requires
        c as u32 <= 0x7f,
    ensures
        crate::text::white_space(c) <==> c == ' ' || (0x9 <= c as u32 && c as u32 <= 0xd),
{
}

} // verus!
