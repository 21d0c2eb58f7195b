//! Small pieces of text handling shared by the parsers. A text is read as
//! the sequence of its characters.

use vstd::prelude::*;

verus! {

/// The text that Rust's `Debug` formatting of a string produces: the string in
/// double quotes, with quotes, backslashes and control characters escaped.
pub uninterp spec fn debug_quoted(s: Seq<char>) -> Seq<char>;

/// Formats `s` as `{:?}` does (`<str as core::fmt::Debug>::fmt`). The result
/// is only named, not spelled out: it depends on nothing but the characters
/// of `s`.
#[verifier::external_body]
pub(crate) fn debug_quote(s: &str) -> (quoted: String)
    ensures
        quoted@ == debug_quoted(s@),
{
    format!("{s:?}")
}

/// `String::push` appends one character.
pub assume_specification[ String::push ](text: &mut String, ch: char)
    ensures
        final(text)@ == old(text)@.push(ch),
;

/// Whether two texts hold the same characters.
pub fn same_text(a: &str, b: &str) -> (same: bool)
    ensures
        same == (a@ == b@),
{
    a.to_owned() == b.to_owned()
}

/// The characters of a text.
pub fn chars_of(text: &str) -> (chars: Vec<char>)
    ensures
        chars@ == text@,
{
    let mut chars: Vec<char> = Vec::new();
    for c in it: text.chars()
        invariant
            it.seq() == text@,
            chars@ == it.seq().take(it.index() as int),
    {
        chars.push(c);
    }
    chars
}

/// The text made of the characters from `from` up to `to`.
pub fn text_between(chars: &Vec<char>, from: usize, to: usize) -> (text: String)
    requires
        from <= to <= chars.len(),
    ensures
        text@ == chars@.subrange(from as int, to as int),
{
    let mut text = String::new();
    let mut at: usize = from;
    while at < to
        invariant
            from <= at <= to <= chars.len(),
            text@ == chars@.subrange(from as int, at as int),
        decreases to - at,
    {
        text.push(chars[at]);
        at += 1;
    }
    text
}

/// White space as Unicode defines it (the property `White_Space`).
pub open spec fn is_space(c: char) -> bool {
    ||| '\u{9}' <= c <= '\u{d}'
    ||| c == ' '
    ||| c == '\u{85}'
    ||| c == '\u{a0}'
    ||| c == '\u{1680}'
    ||| '\u{2000}' <= c <= '\u{200a}'
    ||| c == '\u{2028}'
    ||| c == '\u{2029}'
    ||| c == '\u{202f}'
    ||| c == '\u{205f}'
    ||| c == '\u{3000}'
}

/// Whether a character is white space.
pub fn is_whitespace(c: char) -> (space: bool)
    ensures
        space == is_space(c),
{
    ('\u{9}' <= c && c <= '\u{d}') || c == ' ' || c == '\u{85}' || c == '\u{a0}' || c
        == '\u{1680}' || ('\u{2000}' <= c && c <= '\u{200a}') || c == '\u{2028}' || c
        == '\u{2029}' || c == '\u{202f}' || c == '\u{205f}' || c == '\u{3000}'
}

/// The text without the white space at its start.
pub open spec fn trimmed_start(s: Seq<char>) -> Seq<char>
    decreases s.len(),
{
    if s.len() > 0 && is_space(s[0]) {
        trimmed_start(s.drop_first())
    } else {
        s
    }
}

/// The text without the white space at its end.
pub open spec fn trimmed_end(s: Seq<char>) -> Seq<char>
    decreases s.len(),
{
    if s.len() > 0 && is_space(s.last()) {
        trimmed_end(s.drop_last())
    } else {
        s
    }
}

/// The text without the white space at either end.
pub open spec fn trimmed(s: Seq<char>) -> Seq<char> {
    trimmed_end(trimmed_start(s))
}

/// Whether a text is white space throughout.
pub open spec fn all_space(s: Seq<char>) -> bool {
    forall|i: int| 0 <= i < s.len() ==> is_space(#[trigger] s[i])
}

proof fn lemma_trimmed_start_of_space(space: Seq<char>, s: Seq<char>)
    requires
        all_space(space),
    ensures
        trimmed_start(space + s) == trimmed_start(s),
    decreases space.len(),
{
    if space.len() > 0 {
        assert((space + s)[0] == space[0]);
        assert((space + s).drop_first() =~= space.drop_first() + s);
        assert forall|i: int| 0 <= i < space.drop_first().len() implies is_space(
            #[trigger] space.drop_first()[i],
        ) by {
            assert(space.drop_first()[i] == space[i + 1]);
        }
        lemma_trimmed_start_of_space(space.drop_first(), s);
    } else {
        assert(space + s =~= s);
    }
}

proof fn lemma_trimmed_end_of_space(s: Seq<char>, space: Seq<char>)
    requires
        all_space(space),
    ensures
        trimmed_end(s + space) == trimmed_end(s),
    decreases space.len(),
{
    if space.len() > 0 {
        assert((s + space).last() == space.last());
        assert((s + space).drop_last() =~= s + space.drop_last());
        assert forall|i: int| 0 <= i < space.drop_last().len() implies is_space(
            #[trigger] space.drop_last()[i],
        ) by {
            assert(space.drop_last()[i] == space[i]);
        }
        lemma_trimmed_end_of_space(s, space.drop_last());
    } else {
        assert(s + space =~= s);
    }
}

proof fn lemma_trimmed_start_before(s: Seq<char>, rest: Seq<char>)
    ensures
        trimmed_start(s).len() > 0 ==> trimmed_start(s + rest) == trimmed_start(s) + rest,
        trimmed_start(s).len() == 0 ==> all_space(s),
    decreases s.len(),
{
    if s.len() > 0 && is_space(s[0]) {
        let tail = s.drop_first();
        lemma_trimmed_start_before(tail, rest);
        assert((s + rest)[0] == s[0]);
        assert((s + rest).drop_first() =~= tail + rest);
        if trimmed_start(s).len() == 0 {
            assert forall|i: int| 0 <= i < s.len() implies is_space(#[trigger] s[i]) by {
                if i > 0 {
                    assert(s[i] == tail[i - 1]);
                }
            }
        }
    } else if s.len() > 0 {
        assert((s + rest)[0] == s[0]);
    }
}

/// White space around a text does not change what is left of it when it is
/// trimmed.
pub proof fn trimmed_ignores_space_around(before: Seq<char>, s: Seq<char>, after: Seq<char>)
    requires
        all_space(before),
        all_space(after),
    ensures
        trimmed(before + s + after) == trimmed(s),
{
    assert(before + s + after =~= before + (s + after));
    lemma_trimmed_start_of_space(before, s + after);
    lemma_trimmed_start_before(s, after);
    if trimmed_start(s).len() > 0 {
        lemma_trimmed_end_of_space(trimmed_start(s), after);
    } else {
        assert forall|i: int| 0 <= i < (s + after).len() implies is_space(
            #[trigger] (s + after)[i],
        ) by {
            if i < s.len() {
                assert((s + after)[i] == s[i]);
            } else {
                assert((s + after)[i] == after[i - s.len()]);
            }
        }
        lemma_trimmed_start_of_space(s + after, Seq::<char>::empty());
        assert(s + after + Seq::<char>::empty() =~= s + after);
        assert(trimmed_start(Seq::<char>::empty()) =~= Seq::<char>::empty());
    }
}

/// The bounds of the part between `from` and `to` that is left when the
/// white space at either end is taken away.
pub fn trim_between(chars: &Vec<char>, from: usize, to: usize) -> (bounds: (usize, usize))
    requires
        from <= to <= chars.len(),
    ensures
        from <= bounds.0 <= bounds.1 <= to,
        chars@.subrange(bounds.0 as int, bounds.1 as int) == trimmed(
            chars@.subrange(from as int, to as int),
        ),
{
    let mut start: usize = from;
    while start < to && is_whitespace(chars[start])
        invariant
            from <= start <= to <= chars.len(),
            trimmed_start(chars@.subrange(from as int, to as int)) == trimmed_start(
                chars@.subrange(start as int, to as int),
            ),
        decreases to - start,
    {
        assert(chars@.subrange(start as int, to as int).drop_first() =~= chars@.subrange(
            start + 1,
            to as int,
        ));
        start += 1;
    }
    let mut end: usize = to;
    while start < end && is_whitespace(chars[end - 1])
        invariant
            start <= end <= to <= chars.len(),
            trimmed_end(chars@.subrange(start as int, to as int)) == trimmed_end(
                chars@.subrange(start as int, end as int),
            ),
        decreases end - start,
    {
        assert(chars@.subrange(start as int, end as int).drop_last() =~= chars@.subrange(
            start as int,
            end - 1,
        ));
        end -= 1;
    }
    (start, end)
}

/// The place of the first `c` in a text, if it holds one.
pub open spec fn first_index(s: Seq<char>, c: char) -> Option<int>
    decreases s.len(),
{
    if s.len() == 0 {
        None
    } else if s[0] == c {
        Some(0)
    } else {
        match first_index(s.drop_first(), c) {
            Some(i) => Some(i + 1),
            None => None,
        }
    }
}

/// `first_index` finds a `c` before which there is none, and finds none only
/// where there is none.
pub proof fn first_index_is_first(s: Seq<char>, c: char)
    ensures
        match first_index(s, c) {
            Some(i) => 0 <= i < s.len() && s[i] == c && forall|j: int| 0 <= j < i ==> s[j] != c,
            None => forall|j: int| 0 <= j < s.len() ==> s[j] != c,
        },
    decreases s.len(),
{
    if s.len() > 0 && s[0] != c {
        let rest = s.drop_first();
        first_index_is_first(rest, c);
        match first_index(rest, c) {
            Some(i) => {
                assert forall|j: int| 0 <= j < i + 1 implies s[j] != c by {
                    if j > 0 {
                        assert(s[j] == rest[j - 1]);
                    }
                }
            },
            None => {
                assert forall|j: int| 0 <= j < s.len() implies s[j] != c by {
                    if j > 0 {
                        assert(s[j] == rest[j - 1]);
                    }
                }
            },
        }
    }
}

/// A `c` before which there is none is the one that `first_index` finds.
pub proof fn first_index_unique(s: Seq<char>, c: char, at: int)
    requires
        0 <= at <= s.len(),
        forall|j: int| 0 <= j < at ==> s[j] != c,
        at < s.len() ==> s[at] == c,
    ensures
        first_index(s, c) == (if at < s.len() {
            Some(at)
        } else {
            None
        }),
{
    first_index_is_first(s, c);
}

/// The place of the first `c` between `from` and `to`, counted from the
/// start of `chars`.
pub fn find_between(chars: &Vec<char>, from: usize, to: usize, c: char) -> (found: Option<usize>)
    requires
        from <= to <= chars.len(),
    ensures
        match found {
            Some(at) => from <= at < to && first_index(
                chars@.subrange(from as int, to as int),
                c,
            ) == Some(at - from),
            None => first_index(chars@.subrange(from as int, to as int), c) is None,
        },
{
    let ghost part = chars@.subrange(from as int, to as int);
    let mut at: usize = from;
    while at < to
        invariant
            from <= at <= to <= chars.len(),
            part == chars@.subrange(from as int, to as int),
            forall|j: int| 0 <= j < at - from ==> part[j] != c,
        decreases to - at,
    {
        if chars[at] == c {
            proof {
                first_index_unique(part, c, at - from);
            }
            return Some(at);
        }
        at += 1;
    }
    proof {
        first_index_unique(part, c, part.len() as int);
    }
    None
}

/// The pieces of a text between the occurrences of `sep`; a text without
/// `sep` is one piece.
pub open spec fn split_on(s: Seq<char>, sep: char) -> Seq<Seq<char>>
    decreases s.len(),
    via split_on_decreases
{
    match first_index(s, sep) {
        Some(i) => seq![s.take(i)] + split_on(s.skip(i + 1), sep),
        None => seq![s],
    }
}

#[via_fn]
proof fn split_on_decreases(s: Seq<char>, sep: char) {
    first_index_is_first(s, sep);
}

/// The value of a decimal digit; `None` for any other character.
pub open spec fn digit_of(c: char) -> Option<int> {
    if '0' <= c <= '9' {
        Some(c as u32 - '0' as u32)
    } else {
        None
    }
}

/// Whether a text is made of decimal digits alone.
pub open spec fn all_digits(s: Seq<char>) -> bool {
    forall|i: int| 0 <= i < s.len() ==> digit_of(#[trigger] s[i]) is Some
}

/// The number that a text of decimal digits writes.
pub open spec fn number_of(digits: Seq<char>) -> int
    decreases digits.len(),
{
    if digits.len() == 0 {
        0
    } else {
        number_of(digits.drop_last()) * 10 + digit_of(digits.last()).unwrap_or(0)
    }
}

/// The integer of 32 bits that a text writes in decimal: an optional sign,
/// then one digit or more, and a value within the range. Anything else,
/// white space included, is no number.
pub open spec fn signed_number(s: Seq<char>) -> Option<int> {
    let signed = s.len() > 0 && (s[0] == '-' || s[0] == '+');
    let digits = if signed {
        s.drop_first()
    } else {
        s
    };
    let value = if signed && s[0] == '-' {
        -number_of(digits)
    } else {
        number_of(digits)
    };
    if digits.len() > 0 && all_digits(digits) && i32::MIN <= value <= i32::MAX {
        Some(value)
    } else {
        None
    }
}

/// The number written by the first digits of a text is at most the number
/// written by all of them.
pub proof fn number_of_grows(digits: Seq<char>, count: int)
    requires
        0 <= count <= digits.len(),
    ensures
        0 <= number_of(digits.take(count)) <= number_of(digits),
    decreases digits.len() - count,
{
    number_of_is_natural(digits.take(count));
    if count < digits.len() {
        number_of_grows(digits, count + 1);
        assert(digits.take(count + 1).drop_last() =~= digits.take(count));
    } else {
        assert(digits.take(count) =~= digits);
    }
}

proof fn number_of_is_natural(digits: Seq<char>)
    ensures
        number_of(digits) >= 0,
    decreases digits.len(),
{
    if digits.len() > 0 {
        number_of_is_natural(digits.drop_last());
    }
}

/// The value of a decimal digit.
pub fn digit_value(c: char) -> (value: Option<u8>)
    ensures
        match value {
            Some(v) => digit_of(c) == Some(v as int),
            None => digit_of(c) is None,
        },
{
    if '0' <= c && c <= '9' {
        Some((c as u32 - '0' as u32) as u8)
    } else {
        None
    }
}

/// Reads the digits between `from` and `to` as a number, as long as it stays
/// at most `limit`.
pub(crate) fn number_between(chars: &Vec<char>, from: usize, to: usize, limit: i64) -> (value: Option<i64>)
    requires
        from <= to <= chars.len(),
        0 <= limit <= 0x1_0000_0000,
    ensures
        ({
            let digits = chars@.subrange(from as int, to as int);
            match value {
                Some(v) => all_digits(digits) && number_of(digits) == v && 0 <= v <= limit,
                None => !all_digits(digits) || number_of(digits) > limit,
            }
        }),
{
    let ghost digits = chars@.subrange(from as int, to as int);
    let mut value: i64 = 0;
    let mut at: usize = from;
    while at < to
        invariant
            from <= at <= to <= chars.len(),
            digits == chars@.subrange(from as int, to as int),
            0 <= limit <= 0x1_0000_0000,
            0 <= value <= limit,
            value == number_of(digits.take(at - from)),
            all_digits(digits.take(at - from)),
        decreases to - at,
    {
        let ghost read = digits.take(at - from);
        let ghost next = digits.take(at - from + 1);
        assert(next.drop_last() =~= read);
        match digit_value(chars[at]) {
            None => {
                assert(digit_of(digits[at - from]) is None);
                return None;
            },
            Some(digit) => {
                value = value * 10 + digit as i64;
                if value > limit {
                    proof {
                        number_of_grows(digits, at - from + 1);
                    }
                    return None;
                }
            },
        }
        at += 1;
    }
    assert(digits.take(to - from) =~= digits);
    Some(value)
}

/// Reads a text as a decimal integer of 32 bits.
pub fn parse_number(text: &str) -> (value: Option<i32>)
    ensures
        match value {
            Some(v) => signed_number(text@) == Some(v as int),
            None => signed_number(text@) is None,
        },
{
    let chars = chars_of(text);
    let count = chars.len();
    if count == 0 {
        return None;
    }
    let negative = chars[0] == '-';
    let from: usize = if negative || chars[0] == '+' {
        1
    } else {
        0
    };
    assert(chars@.subrange(0, count as int) =~= chars@);
    if from == count {
        return None;
    }
    let limit: i64 = if negative {
        0x8000_0000
    } else {
        0x7fff_ffff
    };
    match number_between(&chars, from, count, limit) {
        None => None,
        Some(magnitude) => if negative {
            Some((-magnitude) as i32)
        } else {
            Some(magnitude as i32)
        },
    }
}

/// The character that writes a digit.
pub open spec fn digit_char(digit: int) -> char {
    if digit == 0 {
        '0'
    } else if digit == 1 {
        '1'
    } else if digit == 2 {
        '2'
    } else if digit == 3 {
        '3'
    } else if digit == 4 {
        '4'
    } else if digit == 5 {
        '5'
    } else if digit == 6 {
        '6'
    } else if digit == 7 {
        '7'
    } else if digit == 8 {
        '8'
    } else {
        '9'
    }
}

/// The decimal digits of a natural number, without leading zeros.
pub open spec fn digits_of(n: nat) -> Seq<char>
    decreases n,
{
    if n < 10 {
        seq![digit_char(n as int)]
    } else {
        digits_of(n / 10).push(digit_char((n % 10) as int))
    }
}

/// An integer written in decimal, with a minus sign if it is negative.
pub open spec fn decimal_text(n: int) -> Seq<char> {
    if n < 0 {
        seq!['-'] + digits_of((-n) as nat)
    } else {
        digits_of(n as nat)
    }
}

fn char_of_digit(digit: u32) -> (c: char)
    requires
        digit < 10,
    ensures
        c == digit_char(digit as int),
{
    if digit == 0 {
        '0'
    } else if digit == 1 {
        '1'
    } else if digit == 2 {
        '2'
    } else if digit == 3 {
        '3'
    } else if digit == 4 {
        '4'
    } else if digit == 5 {
        '5'
    } else if digit == 6 {
        '6'
    } else if digit == 7 {
        '7'
    } else if digit == 8 {
        '8'
    } else {
        '9'
    }
}

fn push_digits(text: &mut String, n: u32)
    ensures
        final(text)@ == old(text)@ + digits_of(n as nat),
    decreases n,
{
    if n >= 10 {
        push_digits(text, n / 10);
    }
    text.push(char_of_digit(n % 10));
}

/// Appends an integer in decimal to a text.
pub fn push_decimal(text: &mut String, n: i32)
    ensures
        final(text)@ == old(text)@ + decimal_text(n as int),
{
    if n < 0 {
        text.push('-');
        let magnitude: u32 = if n == i32::MIN {
            0x8000_0000
        } else {
            (-n) as u32
        };
        push_digits(text, magnitude);
    } else {
        push_digits(text, n as u32);
    }
}

} // verus!
