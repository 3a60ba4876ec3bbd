//! What trimming, reading numbers, comparing and ordering come to, character by character.

use vstd::arithmetic::power;
use vstd::prelude::*;

use crate::text;

verus! {

/// Of the characters that can be seen in ASCII none is white space; a space, a tab and the
/// ends of lines are.
pub proof fn law_visible_ascii_is_no_white_space(c: char)
    ensures
        '!' <= c <= '~' ==> !text::white_space(c),
        c == ' ' || c == '\t' || c == '\n' || c == '\r' ==> text::white_space(c),
{
}

/// Whether a text from one place up to another is what is left of it, with nothing but white
/// space around, and none at the ends of what is left.
pub open spec fn left_between(whole: Seq<char>, left: Seq<char>, from: int, to: int) -> bool {
    &&& 0 <= from <= to <= whole.len()
    &&& left == whole.subrange(from, to)
    &&& forall|k: int| 0 <= k < from ==> text::white_space(#[trigger] whole[k])
    &&& forall|k: int| to <= k < whole.len() ==> text::white_space(#[trigger] whole[k])
    &&& from < to ==> !text::white_space(whole[from]) && !text::white_space(whole[to - 1])
}

proof fn lemma_trimmed_between(whole: Seq<char>) -> (ends: (int, int))
    ensures
        left_between(whole, text::trimmed(whole), ends.0, ends.1),
    decreases whole.len(),
{
    if whole.len() > 0 && text::white_space(whole.first()) {
        let rest = whole.drop_first();
        let (from, to) = lemma_trimmed_between(rest);
        assert(rest.subrange(from, to) =~= whole.subrange(from + 1, to + 1));
        assert forall|k: int| 0 <= k < from + 1 implies text::white_space(#[trigger] whole[k]) by {
            if k > 0 {
                assert(text::white_space(rest[k - 1]));
            }
        }
        assert forall|k: int| to + 1 <= k < whole.len() implies text::white_space(
            #[trigger] whole[k],
        ) by {
            assert(text::white_space(rest[k - 1]));
        }
        (from + 1, to + 1)
    } else if whole.len() > 0 && text::white_space(whole.last()) {
        let rest = whole.drop_last();
        let (from, to) = lemma_trimmed_between(rest);
        assert(rest.subrange(from, to) =~= whole.subrange(from, to));
        assert forall|k: int| 0 <= k < from implies text::white_space(#[trigger] whole[k]) by {
            assert(text::white_space(rest[k]));
        }
        assert forall|k: int| to <= k < whole.len() implies text::white_space(
            #[trigger] whole[k],
        ) by {
            if k < rest.len() {
                assert(text::white_space(rest[k]));
            }
        }
        (from, to)
    } else {
        assert(whole.subrange(0, whole.len() as int) =~= whole);
        (0, whole.len() as int)
    }
}

/// Trimming takes off the white space at the two ends of a text and nothing else: what is
/// left is one piece of the text, all before and after it is white space, and it neither
/// begins nor ends with any.
pub proof fn law_trimming_takes_off_white_space_alone(whole: Seq<char>)
    ensures
        exists|from: int, to: int| #[trigger]
            left_between(whole, text::trimmed(whole), from, to),
{
    let (from, to) = lemma_trimmed_between(whole);
    assert(left_between(whole, text::trimmed(whole), from, to));
}

/// A text without white space at its ends stays whole, however long.
pub proof fn law_trimming_leaves_a_trim_text_whole(whole: Seq<char>)
    requires
        whole.len() > 0 ==> !text::white_space(whole.first()) && !text::white_space(whole.last()),
    ensures
        text::trimmed(whole) == whole,
{
}

/// White space around a text makes no difference to what is left of it.
pub proof fn law_white_space_around_makes_no_difference(
    before: Seq<char>,
    whole: Seq<char>,
    after: Seq<char>,
)
    requires
        forall|k: int| 0 <= k < before.len() ==> text::white_space(#[trigger] before[k]),
        forall|k: int| 0 <= k < after.len() ==> text::white_space(#[trigger] after[k]),
    ensures
        text::trimmed(before + whole + after) == text::trimmed(whole),
{
    let all = before + whole + after;
    let (from, to) = lemma_trimmed_between(whole);
    let (a, b) = lemma_trimmed_between(all);
    let n = before.len();
    if from < to {
        assert(all[n + from] == whole[from]);
        assert(all[n + to - 1] == whole[to - 1]);
        if a < n {
            assert(all[a] == before[a]);
        } else if a < n + from {
            assert(all[a] == whole[a - n]);
        }
        if b > n + whole.len() {
            assert(all[b - 1] == after[b - 1 - n - whole.len()]);
        } else if b > n + to {
            assert(all[b - 1] == whole[b - 1 - n]);
        }
        assert(all.subrange(a, b) =~= whole.subrange(from, to));
    } else if a < b {
        if a < n {
            assert(all[a] == before[a]);
        } else if a < n + whole.len() {
            assert(all[a] == whole[a - n]);
        } else {
            assert(all[a] == after[a - n - whole.len()]);
        }
    } else {
        assert(all.subrange(a, b) =~= whole.subrange(from, to));
    }
}

/// Two texts are the same but for case just where they are of one length and hold, at each
/// place, the same character, or the small and the capital form of one ASCII letter.
pub proof fn law_case_of_ascii_letters_alone_is_ignored(a: Seq<char>, b: Seq<char>)
    ensures
        text::same_but_for_case(a, b) <==> a.len() == b.len() && forall|i: int|
            #![trigger a[i]]
            #![trigger b[i]]
            0 <= i < a.len() ==> {
                ||| a[i] == b[i]
                ||| 'A' <= a[i] <= 'Z' && b[i] as int == a[i] as int + 32
                ||| 'A' <= b[i] <= 'Z' && a[i] as int == b[i] as int + 32
            },
{
    if text::same_but_for_case(a, b) {
        assert forall|i: int|
            #![trigger a[i]]
            #![trigger b[i]]
            0 <= i < a.len() implies {
            ||| a[i] == b[i]
            ||| 'A' <= a[i] <= 'Z' && b[i] as int == a[i] as int + 32
            ||| 'A' <= b[i] <= 'Z' && a[i] as int == b[i] as int + 32
        } by {
            assert(text::folded(a[i]) == text::folded(b[i]));
        }
    }
}

/// A digit writes its own value, and a row of digits behind another moves that one up by as
/// many places.
pub proof fn law_digits_count_by_their_place(a: Seq<char>, b: Seq<char>, c: char)
    ensures
        text::decimal(seq![c]) == c as int - '0' as int,
        text::decimal(a + b) == text::decimal(a) * power::pow(10, b.len()) + text::decimal(b),
    decreases b.len(),
{
    reveal(power::pow);
    reveal_with_fuel(text::decimal, 2);
    assert(seq![c].drop_last() =~= Seq::<char>::empty());
    if b.len() == 0 {
        assert(a + b =~= a);
    } else {
        let rest = b.drop_last();
        assert((a + b).drop_last() =~= a + rest);
        law_digits_count_by_their_place(a, rest, c);
        let x = text::decimal(a);
        let p = power::pow(10, rest.len());
        assert(power::pow(10, b.len()) == 10 * p);
        assert(10 * (x * p) == x * (10 * p)) by (nonlinear_arith);
    }
}

/// A row of digits writes a number that has no more places than the row.
proof fn lemma_decimal_is_below(digits: Seq<char>)
    requires
        text::all_digits(digits),
    ensures
        0 <= text::decimal(digits) < power::pow(10, digits.len()),
    decreases digits.len(),
{
    reveal(power::pow);
    if digits.len() > 0 {
        lemma_decimal_is_below(digits.drop_last());
        assert(text::digit(digits[digits.len() - 1]));
    }
}

/// Whether a text is a row of ASCII digits and nothing else, at least one, whose number fits
/// in 64 bits.
pub open spec fn fits(digits: Seq<char>) -> bool {
    &&& digits.len() > 0
    &&& forall|i: int| 0 <= i < digits.len() ==> '0' <= #[trigger] digits[i] <= '9'
    &&& text::decimal(digits) <= 0xffff_ffff_ffff_ffff
}

/// A text is a number just where it is a row of digits that fits, alone or behind one plus
/// sign.
pub proof fn law_numbers_are_rows_of_digits(whole: Seq<char>)
    ensures
        text::number(whole) <==> fits(whole) || exists|digits: Seq<char>| #[trigger]
            fits(digits) && whole == seq!['+'] + digits,
{
    if text::number(whole) {
        if whole[0] == '+' {
            let digits = whole.drop_first();
            assert forall|i: int| 0 <= i < digits.len() implies '0' <= #[trigger] digits[i]
                <= '9' by {
                assert(text::digit(digits[i]));
            }
            assert(fits(digits));
            assert(whole =~= seq!['+'] + digits);
        } else {
            assert forall|i: int| 0 <= i < whole.len() implies '0' <= #[trigger] whole[i]
                <= '9' by {
                assert(text::digit(whole[i]));
            }
        }
    }
    if exists|digits: Seq<char>| #[trigger] fits(digits) && whole == seq!['+'] + digits {
        let digits = choose|digits: Seq<char>| #[trigger]
            fits(digits) && whole == seq!['+'] + digits;
        assert(whole[0] == '+');
        assert(whole.drop_first() =~= digits);
    }
}

/// Every row of up to nineteen digits is a number.
pub proof fn law_short_rows_of_digits_are_numbers(whole: Seq<char>)
    requires
        1 <= whole.len() <= 19,
        forall|i: int| 0 <= i < whole.len() ==> '0' <= #[trigger] whole[i] <= '9',
    ensures
        text::number(whole),
{
    assert(text::all_digits(whole));
    lemma_decimal_is_below(whole);
    power::lemma_pow_increases(10, whole.len(), 19);
    assert(power::pow(10, 19) == 10_000_000_000_000_000_000) by {
        reveal_with_fuel(power::pow, 20);
    }
    assert('0' <= whole[0] <= '9');
}

/// Digits of nothing in front of a number make no difference.
pub proof fn law_leading_zeros_make_no_difference(whole: Seq<char>)
    requires
        whole.len() > 0,
        whole[0] != '+',
    ensures
        text::number(seq!['0'] + whole) == text::number(whole),
{
    let longer = seq!['0'] + whole;
    law_digits_count_by_their_place(seq!['0'], whole, '0');
    assert(longer[0] == '0');
    assert(0 * power::pow(10, whole.len()) == 0);
    if text::all_digits(whole) {
        assert forall|i: int| 0 <= i < longer.len() implies text::digit(#[trigger] longer[i]) by {
            if i > 0 {
                assert(text::digit(whole[i - 1]));
            }
        }
    }
    if text::all_digits(longer) {
        assert forall|i: int| 0 <= i < whole.len() implies text::digit(#[trigger] whole[i]) by {
            assert(text::digit(longer[i + 1]));
        }
    }
}

/// Whether two texts are the same up to a place where the first of them ends or has the
/// smaller character.
pub open spec fn parts_at(a: Seq<char>, b: Seq<char>, i: int) -> bool {
    &&& 0 <= i <= a.len()
    &&& i < b.len()
    &&& forall|k: int| 0 <= k < i ==> a[k] == b[k]
    &&& i == a.len() || a[i] < b[i]
}

/// One text comes before another just where it is a beginning of it, or has the smaller
/// character at the first place where they differ.
pub proof fn law_order_is_decided_at_the_first_difference(a: Seq<char>, b: Seq<char>)
    ensures
        text::precedes(a, b) <==> exists|i: int| #[trigger] parts_at(a, b, i),
    decreases a.len(),
{
    if b.len() > 0 && a.len() > 0 && a[0] == b[0] {
        let x = a.drop_first();
        let y = b.drop_first();
        law_order_is_decided_at_the_first_difference(x, y);
        if text::precedes(a, b) {
            let i = choose|i: int| #[trigger] parts_at(x, y, i);
            assert forall|k: int| 0 <= k < i + 1 implies a[k] == b[k] by {
                if k > 0 {
                    assert(x[k - 1] == y[k - 1]);
                }
            }
            assert(parts_at(a, b, i + 1));
        }
        if exists|i: int| #[trigger] parts_at(a, b, i) {
            let i = choose|i: int| #[trigger] parts_at(a, b, i);
            assert forall|k: int| 0 <= k < i - 1 implies x[k] == y[k] by {
                assert(a[k + 1] == b[k + 1]);
            }
            assert(parts_at(x, y, i - 1));
        }
    } else if text::precedes(a, b) {
        assert(parts_at(a, b, 0));
    } else if exists|i: int| #[trigger] parts_at(a, b, i) {
        let i = choose|i: int| #[trigger] parts_at(a, b, i);
        if i > 0 {
            assert(a[0] == b[0]);
        }
    }
}

} // verus!
