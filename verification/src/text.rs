//! Text as a sequence of characters: comparing, ordering, trimming and reading numbers.

use vstd::prelude::*;
use vstd::string::*;

verus! {

/// A row of strings as a row of texts.
pub open spec fn texts(strings: Seq<String>) -> Seq<Seq<char>> {
    Seq::new(strings.len(), |i: int| strings[i]@)
}

/// The text of an optional string.
pub open spec fn optional_text(string: Option<String>) -> Option<Seq<char>> {
    match string {
        Some(s) => Some(s@),
        None => None,
    }
}

/// The text of an optional text slice.
pub open spec fn optional_slice(slice: Option<&str>) -> Option<Seq<char>> {
    match slice {
        Some(s) => Some(s@),
        None => None,
    }
}

/// The characters of a text, in order.
pub fn characters(text: &str) -> (chars: Vec<char>)
    ensures
        chars@ == text@,
{
    let mut chars: Vec<char> = Vec::new();
    for c in it: text.chars()
        invariant
            chars@ == it.seq().take(it.index() as int),
            it.seq() == text@,
    {
        proof {
            assert(it.seq().take(it.index() as int + 1) =~= it.seq().take(it.index() as int).push(c));
        }
        chars.push(c);
    }
    proof {
        assert(text@.take(text@.len() as int) =~= text@);
    }
    chars
}

/// Whether two texts hold the same characters.
pub fn same_text(a: &str, b: &str) -> (same: bool)
    ensures
        same == (a@ == b@),
{
    let x = characters(a);
    let y = characters(b);
    if x.len() != y.len() {
        return false;
    }
    let mut i: usize = 0;
    while i < x.len()
        invariant
            x@ == a@,
            y@ == b@,
            x@.len() == y@.len(),
            i <= x@.len(),
            forall|k: int| 0 <= k < i ==> x@[k] == y@[k],
        decreases x@.len() - i,
    {
        if x[i] != y[i] {
            return false;
        }
        i += 1;
    }
    proof {
        assert(x@ =~= y@);
    }
    true
}

/// Whether a text begins with a given prefix.
pub fn starts_with(text: &str, prefix: &str) -> (found: bool)
    ensures
        found == prefix@.is_prefix_of(text@),
{
    let x = characters(text);
    let y = characters(prefix);
    if x.len() < y.len() {
        return false;
    }
    let mut i: usize = 0;
    while i < y.len()
        invariant
            x@ == text@,
            y@ == prefix@,
            y@.len() <= x@.len(),
            i <= y@.len(),
            forall|k: int| 0 <= k < i ==> x@[k] == y@[k],
        decreases y@.len() - i,
    {
        if x[i] != y[i] {
            proof {
                assert(text@.subrange(0, prefix@.len() as int)[i as int] != prefix@[i as int]);
            }
            return false;
        }
        i += 1;
    }
    proof {
        assert(y@ =~= x@.subrange(0, y@.len() as int));
    }
    true
}

/// Whether a character has the Unicode property White_Space.
pub open spec fn white_space(c: char) -> bool {
    let code = c as u32;
    ||| 0x09 <= code <= 0x0d
    ||| code == 0x20
    ||| code == 0x85
    ||| code == 0xa0
    ||| code == 0x1680
    ||| 0x2000 <= code <= 0x200a
    ||| code == 0x2028
    ||| code == 0x2029
    ||| code == 0x202f
    ||| code == 0x205f
    ||| code == 0x3000
}

/// Whether a character has the Unicode property White_Space.
pub fn is_white_space(c: char) -> (white: bool)
    ensures
        white == white_space(c),
{
    let code: u32 = c as u32;
    (0x09 <= code && code <= 0x0d) || code == 0x20 || code == 0x85 || code == 0xa0 || code == 0x1680
        || (0x2000 <= code && code <= 0x200a) || code == 0x2028 || code == 0x2029 || code == 0x202f
        || code == 0x205f || code == 0x3000
}

/// A text without the white space at its two ends.
pub open spec fn trimmed(text: Seq<char>) -> Seq<char>
    decreases text.len(),
{
    if text.len() > 0 && white_space(text.first()) {
        trimmed(text.drop_first())
    } else if text.len() > 0 && white_space(text.last()) {
        trimmed(text.drop_last())
    } else {
        text
    }
}

/// Nothing is left of a text without the white space at its ends just where it is all white
/// space; what is left has none at its ends.
pub proof fn law_trimmed_text_ends_in_no_white_space(text: Seq<char>)
    ensures
        trimmed(text).len() == 0 <==> forall|i: int|
            0 <= i < text.len() ==> white_space(#[trigger] text[i]),
        trimmed(text).len() > 0 ==> !white_space(trimmed(text).first()) && !white_space(
            trimmed(text).last(),
        ),
    decreases text.len(),
{
    if text.len() > 0 && white_space(text.first()) {
        let rest = text.drop_first();
        law_trimmed_text_ends_in_no_white_space(rest);
        assert(forall|i: int| 0 <= i < rest.len() ==> #[trigger] rest[i] == text[i + 1]);
        assert forall|i: int| 0 <= i < text.len() && trimmed(text).len() == 0 implies white_space(
            #[trigger] text[i],
        ) by {
            if i > 0 {
                assert(white_space(rest[i - 1]));
            }
        }
    } else if text.len() > 0 && white_space(text.last()) {
        let rest = text.drop_last();
        law_trimmed_text_ends_in_no_white_space(rest);
        assert(forall|i: int| 0 <= i < rest.len() ==> #[trigger] rest[i] == text[i]);
        assert forall|i: int| 0 <= i < text.len() && trimmed(text).len() == 0 implies white_space(
            #[trigger] text[i],
        ) by {
            if i < rest.len() {
                assert(white_space(rest[i]));
            }
        }
    }
}

/// The part of a text that is left without the white space at its two ends.
pub fn trim(text: &str) -> (rest: &str)
    ensures
        rest@ == trimmed(text@),
{
    let chars = characters(text);
    let mut from: usize = 0;
    let mut to: usize = chars.len();
    proof {
        assert(text@.subrange(0, text@.len() as int) =~= text@);
    }
    while from < to && is_white_space(chars[from])
        invariant
            chars@ == text@,
            from <= to == text@.len(),
            trimmed(text@.subrange(from as int, to as int)) == trimmed(text@),
        decreases to - from,
    {
        proof {
            assert(text@.subrange(from as int, to as int).drop_first() =~= text@.subrange(
                from + 1,
                to as int,
            ));
        }
        from += 1;
    }
    while from < to && is_white_space(chars[to - 1])
        invariant
            chars@ == text@,
            from <= to <= text@.len(),
            from < to ==> !white_space(chars@[from as int]),
            trimmed(text@.subrange(from as int, to as int)) == trimmed(text@),
        decreases to - from,
    {
        proof {
            assert(text@.subrange(from as int, to as int).drop_last() =~= text@.subrange(
                from as int,
                to - 1,
            ));
        }
        to -= 1;
    }
    text.substring_char(from, to)
}

fn code_point(c: char) -> (code: u32)
    ensures
        code == c as int,
{
    c as u32
}

/// A character's code with the ASCII capitals moved onto the small letters.
pub open spec fn folded(c: char) -> int {
    if 'A' <= c <= 'Z' {
        c as int + 32
    } else {
        c as int
    }
}

/// Whether two texts differ at most in the case of ASCII letters.
pub open spec fn same_but_for_case(a: Seq<char>, b: Seq<char>) -> bool {
    &&& a.len() == b.len()
    &&& forall|i: int| 0 <= i < a.len() ==> folded(#[trigger] a[i]) == folded(b[i])
}

fn fold(c: char) -> (code: u32)
    ensures
        code == folded(c),
{
    let code: u32 = code_point(c);
    if 0x41 <= code && code <= 0x5a {
        code + 32
    } else {
        code
    }
}

/// Whether two texts differ at most in the case of ASCII letters.
pub fn equal_but_for_case(a: &str, b: &str) -> (equal: bool)
    ensures
        equal == same_but_for_case(a@, b@),
{
    let x = characters(a);
    let y = characters(b);
    if x.len() != y.len() {
        return false;
    }
    let mut i: usize = 0;
    while i < x.len()
        invariant
            x@ == a@,
            y@ == b@,
            x@.len() == y@.len(),
            i <= x@.len(),
            forall|k: int| 0 <= k < i ==> folded(#[trigger] x@[k]) == folded(y@[k]),
        decreases x@.len() - i,
    {
        if fold(x[i]) != fold(y[i]) {
            return false;
        }
        i += 1;
    }
    true
}

/// Whether a character is one of the ten ASCII digits.
pub open spec fn digit(c: char) -> bool {
    '0' <= c <= '9'
}

/// The number that a row of digits writes in base ten.
pub open spec fn decimal(digits: Seq<char>) -> int
    decreases digits.len(),
{
    if digits.len() == 0 {
        0
    } else {
        10 * decimal(digits.drop_last()) + (digits.last() as int - '0' as int)
    }
}

/// Whether a text is a row of digits and nothing else.
pub open spec fn all_digits(text: Seq<char>) -> bool {
    forall|i: int| 0 <= i < text.len() ==> digit(#[trigger] text[i])
}

/// Whether a text is a row of digits, at least one, whose number fits in 64 bits.
pub open spec fn unsigned(text: Seq<char>) -> bool {
    text.len() > 0 && all_digits(text) && decimal(text) <= u64::MAX
}

/// Whether a text is a row of digits whose number fits in 64 bits, perhaps behind a plus
/// sign.
pub open spec fn number(text: Seq<char>) -> bool {
    if text.len() > 0 && text[0] == '+' {
        unsigned(text.drop_first())
    } else {
        unsigned(text)
    }
}

/// A row of digits writes no smaller a number than any of its beginnings.
proof fn lemma_decimal_grows(digits: Seq<char>, n: int)
    requires
        0 <= n <= digits.len(),
        all_digits(digits),
    ensures
        0 <= decimal(digits.take(n)) <= decimal(digits),
    decreases digits.len(),
{
    if n == digits.len() {
        assert(digits.take(n) =~= digits);
        if n > 0 {
            assert(digits.drop_last() =~= digits.take(n - 1));
            lemma_decimal_grows(digits.drop_last(), n - 1);
            assert(digits.drop_last().take(n - 1) =~= digits.drop_last());
            assert(digit(digits[n - 1]));
        }
    } else {
        let shorter = digits.drop_last();
        lemma_decimal_grows(shorter, n);
        assert(shorter.take(n) =~= digits.take(n));
        assert(digit(digits[digits.len() - 1]));
    }
}

/// Whether a text is a row of digits whose number fits in 64 bits, perhaps behind a plus
/// sign.
pub fn is_number(text: &str) -> (found: bool)
    ensures
        found == number(text@),
{
    let chars = characters(text);
    let start: usize = if chars.len() > 0 && chars[0] == '+' {
        1
    } else {
        0
    };
    let ghost digits = text@.skip(start as int);
    proof {
        assert(text@.skip(0) =~= text@);
        if text@.len() > 0 {
            assert(text@.skip(1) =~= text@.drop_first());
        }
    }
    if start == chars.len() {
        return false;
    }
    let mut value: u64 = 0;
    let mut i: usize = start;
    while i < chars.len()
        invariant
            chars@ == text@,
            start <= i <= text@.len(),
            start < text@.len(),
            digits == text@.skip(start as int),
            number(text@) == unsigned(digits),
            forall|k: int| 0 <= k < i - start ==> digit(#[trigger] digits[k]),
            value == decimal(digits.take(i - start)),
        decreases text@.len() - i,
    {
        let code: u32 = code_point(chars[i]);
        let ghost k: int = i - start;
        proof {
            assert(digits[k] == chars@[i as int]);
            assert(digits.take(k + 1).drop_last() =~= digits.take(k));
            if all_digits(digits) {
                lemma_decimal_grows(digits, k + 1);
            }
        }
        if code < 48 || code > 57 {
            proof {
                assert(!digit(digits[k]));
            }
            return false;
        }
        let units: u64 = (code - 48) as u64;
        if value > (u64::MAX - units) / 10 {
            return false;
        }
        value = value * 10 + units;
        i += 1;
    }
    proof {
        assert(digits.take(digits.len() as int) =~= digits);
    }
    true
}

/// Whether one text comes before another, character by character from the left.
pub open spec fn precedes(a: Seq<char>, b: Seq<char>) -> bool
    decreases a.len(),
{
    if b.len() == 0 {
        false
    } else if a.len() == 0 {
        true
    } else if a[0] != b[0] {
        a[0] < b[0]
    } else {
        precedes(a.drop_first(), b.drop_first())
    }
}

/// Of two different texts one comes before the other; of equal ones neither does.
pub proof fn lemma_precedes_is_total(a: Seq<char>, b: Seq<char>)
    ensures
        a == b <==> !precedes(a, b) && !precedes(b, a),
        !(precedes(a, b) && precedes(b, a)),
    decreases a.len(),
{
    if a.len() == 0 {
        assert(b.len() == 0 ==> a =~= b);
    } else if b.len() > 0 && a[0] == b[0] {
        lemma_precedes_is_total(a.drop_first(), b.drop_first());
        assert(a =~= seq![a[0]] + a.drop_first());
        assert(b =~= seq![b[0]] + b.drop_first());
    }
}

/// A text that comes before a second comes before all that the second comes before.
pub proof fn lemma_precedes_is_transitive(a: Seq<char>, b: Seq<char>, c: Seq<char>)
    requires
        precedes(a, b),
        precedes(b, c),
    ensures
        precedes(a, c),
    decreases a.len(),
{
    if a.len() > 0 && a[0] == b[0] && b[0] == c[0] {
        lemma_precedes_is_transitive(a.drop_first(), b.drop_first(), c.drop_first());
    }
}

/// Whether one text comes before another, character by character from the left.
pub fn comes_before(a: &str, b: &str) -> (before: bool)
    ensures
        before == precedes(a@, b@),
{
    let x = characters(a);
    let y = characters(b);
    let mut i: usize = 0;
    proof {
        assert(a@.skip(0) =~= a@);
        assert(b@.skip(0) =~= b@);
    }
    while i < x.len() && i < y.len()
        invariant
            x@ == a@,
            y@ == b@,
            i <= x@.len(),
            i <= y@.len(),
            precedes(a@, b@) == precedes(a@.skip(i as int), b@.skip(i as int)),
        decreases x@.len() - i,
    {
        if x[i] != y[i] {
            return code_point(x[i]) < code_point(y[i]);
        }
        proof {
            assert(a@.skip(i as int).drop_first() =~= a@.skip(i + 1));
            assert(b@.skip(i as int).drop_first() =~= b@.skip(i + 1));
        }
        i += 1;
    }
    i < y.len()
}

} // verus!
