//! Text as sequences of characters: the operations that the rest of the crate builds its
//! messages, keys and parsers from.

use vstd::prelude::*;
use vstd::string::*;

verus! {

/// A text is the sequence of its characters.
pub type Text = Seq<char>;

/// Appends one character with `String::push`.
#[verifier::external_body]
pub(crate) fn push_char(text: &mut String, ch: char)
    ensures
        final(text)@ == old(text)@.push(ch),
{
    text.push(ch)
}

/// The characters of `text`, in order.
pub fn chars_of(text: &str) -> (chars: Vec<char>)
    ensures
        chars@ == text@,
{
    let mut chars: Vec<char> = Vec::new();
    for ch in it: text.chars()
        invariant
            it.seq() == text@,
            chars@ == text@.take(it.index() as int),
    {
        chars.push(ch);
    }
    chars
}

/// The text that a run of characters spells.
pub fn text_of(chars: &[char]) -> (text: String)
    ensures
        text@ == chars@,
{
    let mut text = String::new();
    let mut i: usize = 0;
    while i < chars.len()
        invariant
            i <= chars.len(),
            text@ == chars@.take(i as int),
        decreases chars.len() - i,
    {
        push_char(&mut text, chars[i]);
        i += 1;
    }
    text
}

/// A text whose characters are those of `text`.
pub fn copy_of(text: &str) -> (copy: String)
    ensures
        copy@ == text@,
{
    text.to_owned()
}

/// What `{:?}` writes for a text: in quotation marks, with escapes.
pub uninterp spec fn debug_text(text: Seq<char>) -> Seq<char>;

/// Writes a text with `std::fmt::Debug`, as `{:?}` does.
#[verifier::external_body]
pub(crate) fn quoted(text: &str) -> (quotation: String)
    ensures
        quotation@ == debug_text(text@),
{
    format!("{text:?}")
}

/// One text and another after it.
pub fn joined(first: &str, second: &str) -> (text: String)
    ensures
        text@ == first@ + second@,
{
    first.to_owned().concat(second)
}

// ---------------------------------------------------------------------------------------------
// Order
// ---------------------------------------------------------------------------------------------

/// The dictionary order of texts by the code points of their characters, which is the order of
/// `str` itself.
pub open spec fn precedes(a: Text, b: Text) -> bool
    decreases a.len(),
{
    if b.len() == 0 {
        false
    } else if a.len() == 0 {
        true
    } else if a[0] == b[0] {
        precedes(a.drop_first(), b.drop_first())
    } else {
        (a[0] as int) < (b[0] as int)
    }
}

/// No text precedes itself.
pub proof fn precedes_is_irreflexive(a: Text)
    ensures
        !precedes(a, a),
    decreases a.len(),
{
    if a.len() > 0 {
        precedes_is_irreflexive(a.drop_first());
    }
}

/// Precedence carries over from one text to the next.
pub proof fn precedes_is_transitive(a: Text, b: Text, c: Text)
    requires
        precedes(a, b),
        precedes(b, c),
    ensures
        precedes(a, c),
    decreases a.len(),
{
    if a.len() > 0 && b.len() > 0 && c.len() > 0 && a[0] == b[0] && b[0] == c[0] {
        precedes_is_transitive(a.drop_first(), b.drop_first(), c.drop_first());
    }
}

/// Of two different texts one precedes the other.
pub proof fn precedes_is_total(a: Text, b: Text)
    ensures
        a == b || precedes(a, b) || precedes(b, a),
    decreases a.len(),
{
    if a.len() == 0 || b.len() == 0 {
        if a.len() == 0 && b.len() == 0 {
            assert(a =~= b);
        }
    } else if a[0] == b[0] {
        precedes_is_total(a.drop_first(), b.drop_first());
        if a.drop_first() == b.drop_first() {
            assert(a =~= seq![a[0]] + a.drop_first());
            assert(b =~= seq![b[0]] + b.drop_first());
        }
    }
}

/// How one text stands to another in dictionary order.
#[derive(Clone, Copy, Debug, PartialEq, Eq, Structural)]
pub enum Order {
    Before,
    Same,
    After,
}

/// The number of a character.
pub fn code_point(ch: char) -> (number: u32)
    ensures
        number == ch as int,
{
    ch as u32
}

/// Orders two texts.
pub fn order_of(a: &str, b: &str) -> (order: Order)
    ensures
        order == (if a@ == b@ {
            Order::Same
        } else if precedes(a@, b@) {
            Order::Before
        } else {
            Order::After
        }),
{
    let left = chars_of(a);
    let right = chars_of(b);
    let mut i: usize = 0;
    proof {
        assert(a@.skip(0) =~= a@);
        assert(b@.skip(0) =~= b@);
    }
    while i < left.len() && i < right.len()
        invariant
            left@ == a@,
            right@ == b@,
            i <= left.len(),
            i <= right.len(),
            a@.take(i as int) == b@.take(i as int),
            precedes(a@, b@) == precedes(a@.skip(i as int), b@.skip(i as int)),
        decreases left.len() - i,
    {
        proof {
            let x = a@.skip(i as int);
            let y = b@.skip(i as int);
            assert(x[0] == a@[i as int] && y[0] == b@[i as int]);
            assert(x.drop_first() =~= a@.skip(i + 1));
            assert(y.drop_first() =~= b@.skip(i + 1));
        }
        let x: u32 = code_point(left[i]);
        let y: u32 = code_point(right[i]);
        if x < y {
            return Order::Before;
        }
        if x > y {
            return Order::After;
        }
        proof {
            assert(a@.take(i + 1) =~= a@.take(i as int).push(a@[i as int]));
            assert(b@.take(i + 1) =~= b@.take(i as int).push(b@[i as int]));
        }
        i += 1;
    }
    if left.len() == right.len() {
        proof {
            assert(a@ =~= a@.take(i as int));
            assert(b@ =~= b@.take(i as int));
        }
        Order::Same
    } else if left.len() < right.len() {
        Order::Before
    } else {
        Order::After
    }
}

/// Tests two texts for equality.
pub fn same_text(a: &str, b: &str) -> (same: bool)
    ensures
        same == (a@ == b@),
{
    match order_of(a, b) {
        Order::Same => true,
        _ => false,
    }
}

// ---------------------------------------------------------------------------------------------
// Parts
// ---------------------------------------------------------------------------------------------

/// Tests whether a text starts with another.
pub fn starts_with(text: &str, prefix: &str) -> (starts: bool)
    ensures
        starts == prefix@.is_prefix_of(text@),
{
    let text_chars = chars_of(text);
    let prefix_chars = chars_of(prefix);
    if prefix_chars.len() > text_chars.len() {
        return false;
    }
    let mut i: usize = 0;
    while i < prefix_chars.len()
        invariant
            text_chars@ == text@,
            prefix_chars@ == prefix@,
            i <= prefix_chars.len() <= text_chars.len(),
            forall|j: int| 0 <= j < i ==> text@[j] == prefix@[j],
        decreases prefix_chars.len() - i,
    {
        if text_chars[i] != prefix_chars[i] {
            assert(text@.subrange(0, prefix@.len() as int)[i as int] != prefix@[i as int]);
            return false;
        }
        i += 1;
    }
    assert(prefix@ =~= text@.subrange(0, prefix@.len() as int));
    true
}

/// What follows a prefix in a text, if the text starts with it.
pub open spec fn after_prefix(text: Text, prefix: Text) -> Option<Text> {
    if prefix.is_prefix_of(text) {
        Some(text.skip(prefix.len() as int))
    } else {
        None
    }
}

/// Takes a prefix off a text.
pub fn strip_prefix(text: &str, prefix: &str) -> (rest: Option<String>)
    ensures
        rest.deep_view() == after_prefix(text@, prefix@),
{
    if !starts_with(text, prefix) {
        return None;
    }
    let chars = chars_of(text);
    let start: usize = chars_of(prefix).len();
    let rest = slice_of(&chars, start, chars.len());
    assert(rest@ =~= text@.skip(prefix@.len() as int));
    Some(rest)
}

/// The characters from one position up to another, as a text.
pub fn slice_of(chars: &Vec<char>, start: usize, end: usize) -> (text: String)
    requires
        start <= end <= chars.len(),
    ensures
        text@ == chars@.subrange(start as int, end as int),
{
    let mut text = String::new();
    let mut i: usize = start;
    while i < end
        invariant
            start <= i <= end <= chars.len(),
            text@ == chars@.subrange(start as int, i as int),
        decreases end - i,
    {
        push_char(&mut text, chars[i]);
        assert(text@ =~= chars@.subrange(start as int, i + 1));
        i += 1;
    }
    text
}

/// Whether a pattern stands at a position of a text.
pub open spec fn stands_at(text: Text, pattern: Text, at: int) -> bool {
    0 <= at && at + pattern.len() <= text.len() && text.subrange(at, at + pattern.len()) == pattern
}

/// The first position from `from` on at which a pattern stands, if there is one.
pub open spec fn first_at(text: Text, pattern: Text, from: int) -> Option<int>
    decreases text.len() + 1 - from,
{
    if from + pattern.len() > text.len() {
        None
    } else if stands_at(text, pattern, from) {
        Some(from)
    } else {
        first_at(text, pattern, from + 1)
    }
}

/// The last position before `end` at which a character stands, if there is one.
pub open spec fn last_before(text: Text, ch: char, end: int) -> Option<int>
    decreases end,
{
    if end <= 0 {
        None
    } else if text[end - 1] == ch {
        Some(end - 1)
    } else {
        last_before(text, ch, end - 1)
    }
}

fn pattern_stands(chars: &Vec<char>, pattern: &Vec<char>, at: usize) -> (stands: bool)
    requires
        at + pattern.len() <= chars.len(),
    ensures
        stands == stands_at(chars@, pattern@, at as int),
{
    let mut i: usize = 0;
    while i < pattern.len()
        invariant
            i <= pattern.len(),
            at + pattern.len() <= chars.len(),
            forall|j: int| 0 <= j < i ==> chars@[at + j] == pattern@[j],
        decreases pattern.len() - i,
    {
        if chars[at + i] != pattern[i] {
            assert(chars@.subrange(at as int, at + pattern@.len())[i as int] != pattern@[i as int]);
            return false;
        }
        i += 1;
    }
    assert(chars@.subrange(at as int, at + pattern@.len()) =~= pattern@);
    true
}

/// Finds the first position from `from` on at which a pattern stands.
pub fn find_from(chars: &Vec<char>, pattern: &Vec<char>, from: usize) -> (at: Option<usize>)
    requires
        from <= chars.len(),
    ensures
        at is Some <==> first_at(chars@, pattern@, from as int) is Some,
        at matches Some(found) ==> first_at(chars@, pattern@, from as int) == Some(found as int)
            && stands_at(chars@, pattern@, found as int) && found >= from,
{
    let mut i: usize = from;
    while i <= chars.len() && pattern.len() <= chars.len() - i
        invariant
            from <= i <= chars.len(),
            first_at(chars@, pattern@, from as int) == first_at(chars@, pattern@, i as int),
        decreases chars.len() - i,
    {
        if pattern_stands(chars, pattern, i) {
            return Some(i);
        }
        proof {
            if pattern.len() == 0 {
                assert(chars@.subrange(i as int, i as int) =~= pattern@);
            }
        }
        i += 1;
    }
    None
}

/// Finds the last position of a character.
pub fn find_last(chars: &Vec<char>, ch: char) -> (at: Option<usize>)
    ensures
        at is Some <==> last_before(chars@, ch, chars@.len() as int) is Some,
        at matches Some(found) ==> last_before(chars@, ch, chars@.len() as int) == Some(
            found as int,
        ) && found < chars@.len(),
{
    let mut end: usize = chars.len();
    while end > 0
        invariant
            end <= chars.len(),
            last_before(chars@, ch, chars@.len() as int) == last_before(chars@, ch, end as int),
        decreases end,
    {
        if chars[end - 1] == ch {
            return Some(end - 1);
        }
        end -= 1;
    }
    None
}

/// Tests whether a character occurs in a text.
pub fn contains_char(text: &str, ch: char) -> (found: bool)
    ensures
        found == text@.contains(ch),
{
    let chars = chars_of(text);
    let mut i: usize = 0;
    while i < chars.len()
        invariant
            chars@ == text@,
            i <= chars.len(),
            forall|j: int| 0 <= j < i ==> text@[j] != ch,
        decreases chars.len() - i,
    {
        if chars[i] == ch {
            assert(text@[i as int] == ch);
            return true;
        }
        i += 1;
    }
    false
}

/// The parts of a text between the occurrences of a character.
pub open spec fn split_on(text: Text, ch: char) -> Seq<Text>
    decreases text.len(),
{
    match last_before(text, ch, text.len() as int) {
        None => seq![text],
        Some(at) => if 0 <= at < text.len() {
            split_on(text.take(at), ch).push(text.skip(at + 1))
        } else {
            seq![text]
        },
    }
}

/// Splits a text at each occurrence of a character.
pub fn split_text(text: &str, ch: char) -> (parts: Vec<String>)
    ensures
        parts.deep_view() == split_on(text@, ch),
    decreases text@.len(),
{
    let chars = chars_of(text);
    match find_last(&chars, ch) {
        None => {
            let mut parts: Vec<String> = Vec::new();
            parts.push(text.to_owned());
            assert(parts.deep_view() =~= seq![text@]);
            parts
        },
        Some(at) => {
            let front = slice_of(&chars, 0, at);
            let back = slice_of(&chars, at + 1, chars.len());
            assert(front@ =~= text@.take(at as int));
            assert(back@ =~= text@.skip(at + 1));
            let mut parts = split_text(front.as_str(), ch);
            let ghost most = parts.deep_view();
            parts.push(back);
            assert(parts.deep_view() =~= most.push(text@.skip(at + 1)));
            parts
        },
    }
}

// ---------------------------------------------------------------------------------------------
// Numbers
// ---------------------------------------------------------------------------------------------

/// The decimal digits.
pub open spec fn is_digit(ch: char) -> bool {
    48 <= (ch as int) <= 57
}

/// Whether a text consists of digits.
pub open spec fn all_digits(text: Text) -> bool {
    forall|i: int| 0 <= i < text.len() ==> is_digit(#[trigger] text[i])
}

/// The number that a text of digits denotes.
pub open spec fn digits_value(text: Text) -> nat
    decreases text.len(),
{
    if text.len() == 0 {
        0
    } else {
        10 * digits_value(text.drop_last()) + ((text.last() as int - 48) as nat)
    }
}

/// Whether a text consists of digits, at least one, that denote a number up to `max`.
pub open spec fn is_numeral(text: Text, max: nat) -> bool {
    text.len() > 0 && all_digits(text) && digits_value(text) <= max
}

/// The digits of a text that may start with a plus sign.
pub open spec fn unsigned_digits(text: Text) -> Text {
    if text.len() > 0 && text[0] == '+' {
        text.skip(1)
    } else {
        text
    }
}

/// The number up to `max` that a text denotes: digits, after an optional plus sign.
pub open spec fn unsigned_value(text: Text, max: nat) -> Option<nat> {
    let digits = unsigned_digits(text);
    if is_numeral(digits, max) {
        Some(digits_value(digits))
    } else {
        None
    }
}

/// More digits denote no smaller number.
proof fn lemma_digits_grow(text: Text, i: int)
    requires
        0 <= i <= text.len(),
    ensures
        digits_value(text.take(i)) <= digits_value(text),
    decreases text.len(),
{
    if i < text.len() {
        lemma_digits_grow(text.drop_last(), i);
        assert(text.drop_last().take(i) =~= text.take(i));
    } else {
        assert(text.take(i) =~= text);
    }
}

/// Reads the digits from a position on, as a number up to `max`.
fn parse_digits(chars: &Vec<char>, start: usize, max: u64) -> (number: Option<u64>)
    requires
        start <= chars.len(),
    ensures
        number is Some <==> is_numeral(chars@.skip(start as int), max as nat),
        number matches Some(value) ==> value == digits_value(chars@.skip(start as int)),
{
    let ghost digits = chars@.skip(start as int);
    if chars.len() == start {
        return None;
    }
    let mut value: u128 = 0;
    let mut i: usize = start;
    assert(digits.take(0) =~= Seq::<char>::empty());
    while i < chars.len()
        invariant
            start <= i <= chars.len(),
            digits == chars@.skip(start as int),
            value <= max,
            value == digits_value(digits.take(i - start)),
            forall|j: int| 0 <= j < i - start ==> is_digit(#[trigger] digits[j]),
        decreases chars.len() - i,
    {
        let code: u32 = code_point(chars[i]);
        let ghost at = i - start;
        assert(digits[at] == chars@[i as int]);
        if code < 48 || code > 57 {
            assert(!is_digit(digits[at]));
            return None;
        }
        proof {
            assert(digits.take(at + 1).drop_last() =~= digits.take(at));
        }
        value = 10 * value + (code - 48) as u128;
        if value > max as u128 {
            proof {
                lemma_digits_grow(digits, at + 1);
            }
            return None;
        }
        i += 1;
    }
    assert(digits.take(i - start) =~= digits);
    Some(value as u64)
}

/// Reads an unsigned number up to `max`.
pub fn parse_unsigned(text: &str, max: u64) -> (number: Option<u64>)
    ensures
        number is Some <==> unsigned_value(text@, max as nat) is Some,
        number matches Some(value) ==> unsigned_value(text@, max as nat) == Some(value as nat),
{
    let chars = chars_of(text);
    let start: usize = if chars.len() > 0 && chars[0] == '+' {
        1
    } else {
        0
    };
    assert(unsigned_digits(text@) =~= text@.skip(start as int));
    parse_digits(&chars, start, max)
}

/// The number that a text denotes among those of 64 bits with a sign: digits, after an optional
/// sign.
pub open spec fn signed_value(text: Text) -> Option<i64> {
    if text.len() > 0 && text[0] == '-' {
        if is_numeral(text.skip(1), 0x8000_0000_0000_0000) {
            Some((-digits_value(text.skip(1))) as i64)
        } else {
            None
        }
    } else {
        match unsigned_value(text, 0x7fff_ffff_ffff_ffff) {
            Some(value) => Some(value as i64),
            None => None,
        }
    }
}

/// Reads a number with a sign.
pub fn parse_signed(text: &str) -> (number: Option<i64>)
    ensures
        number == signed_value(text@),
{
    let chars = chars_of(text);
    if chars.len() > 0 && chars[0] == '-' {
        match parse_digits(&chars, 1, 0x8000_0000_0000_0000) {
            Some(size) => Some((-(size as i128)) as i64),
            None => None,
        }
    } else {
        match parse_unsigned(text, 0x7fff_ffff_ffff_ffff) {
            Some(size) => Some(size as i64),
            None => None,
        }
    }
}

/// The character for a decimal digit.
pub open spec fn digit(value: nat) -> char {
    (48 + value) as char
}

/// The decimal numeral of a number, without leading zeros.
pub open spec fn decimal(number: nat) -> Text
    decreases number,
{
    if number < 10 {
        seq![digit(number)]
    } else {
        decimal(number / 10).push(digit(number % 10))
    }
}

/// The decimal numeral of a number, with a sign where it is negative.
pub open spec fn signed_decimal(number: int) -> Text {
    if number < 0 {
        "-"@ + decimal((-number) as nat)
    } else {
        decimal(number as nat)
    }
}

/// The numeral of a number consists of digits that denote the number, and starts with a zero only
/// where it is the numeral of zero.
pub proof fn numerals_are_read_back(number: nat)
    ensures
        decimal(number).len() > 0,
        all_digits(decimal(number)),
        digits_value(decimal(number)) == number,
        decimal(number)[0] == '0' <==> number == 0,
        number >= 10 <==> decimal(number).len() > 1,
    decreases number,
{
    reveal_with_fuel(digits_value, 2);
    let text = decimal(number);
    if number < 10 {
        assert(text.drop_last() =~= Seq::<char>::empty());
        assert(text.last() == digit(number));
    } else {
        numerals_are_read_back(number / 10);
        assert(text.drop_last() =~= decimal(number / 10));
        assert(text.last() == digit(number % 10));
        assert(text[0] == decimal(number / 10)[0]);
        assert forall|i: int| 0 <= i < text.len() implies is_digit(#[trigger] text[i]) by {
            if i < text.len() - 1 {
                assert(text[i] == decimal(number / 10)[i]);
            }
        }
    }
}

/// Writes a number in decimal.
pub fn decimal_text(number: u128) -> (text: String)
    ensures
        text@ == decimal(number as nat),
    decreases number,
{
    let low: u8 = (number % 10) as u8;
    let ch: char = (48 + low) as char;
    let mut text = if number < 10 {
        let empty = String::new();
        assert(empty@.push(ch) =~= decimal(number as nat));
        empty
    } else {
        decimal_text(number / 10)
    };
    push_char(&mut text, ch);
    text
}

/// Writes a number in decimal, with a sign where it is negative.
pub fn signed_decimal_text(number: i128) -> (text: String)
    ensures
        text@ == signed_decimal(number as int),
{
    if number < 0 {
        let size: u128 = (-(number + 1)) as u128 + 1;
        joined("-", decimal_text(size).as_str())
    } else {
        decimal_text(number as u128)
    }
}

// ---------------------------------------------------------------------------------------------
// Kinds of characters
// ---------------------------------------------------------------------------------------------

/// A character with an ASCII letter in lower case.
pub open spec fn lower(ch: char) -> char {
    if 65 <= (ch as int) <= 90 {
        (ch as int + 32) as char
    } else {
        ch
    }
}

/// A text with its ASCII letters in lower case.
pub open spec fn lowercase(text: Text) -> Text {
    text.map_values(|ch: char| lower(ch))
}

/// Puts the ASCII letters of a text in lower case.
pub fn ascii_lowercase(text: &str) -> (lowered: String)
    ensures
        lowered@ == lowercase(text@),
{
    let chars = chars_of(text);
    let mut lowered = String::new();
    let mut i: usize = 0;
    assert(lowered@ =~= lowercase(text@).take(0));
    while i < chars.len()
        invariant
            chars@ == text@,
            i <= chars.len(),
            lowered@ == lowercase(text@).take(i as int),
        decreases chars.len() - i,
    {
        let ch: char = chars[i];
        let number: u32 = code_point(ch);
        let low: char = if 65 <= number && number <= 90 {
            (number as u8 + 32) as char
        } else {
            ch
        };
        push_char(&mut lowered, low);
        assert(lowered@ =~= lowercase(text@).take(i + 1));
        i += 1;
    }
    assert(lowercase(text@).take(i as int) =~= lowercase(text@));
    lowered
}

/// The white space of Unicode: property White_Space.
pub open spec fn is_space(ch: char) -> bool {
    let number = ch as int;
    ||| 9 <= number <= 13
    ||| number == 0x20
    ||| number == 0x85
    ||| number == 0xa0
    ||| number == 0x1680
    ||| 0x2000 <= number <= 0x200a
    ||| number == 0x2028
    ||| number == 0x2029
    ||| number == 0x202f
    ||| number == 0x205f
    ||| number == 0x3000
}

/// Tests for white space.
pub fn is_space_char(ch: char) -> (space: bool)
    ensures
        space == is_space(ch),
{
    let number: u32 = code_point(ch);
    (9 <= number && number <= 13) || number == 0x20 || number == 0x85 || number == 0xa0 || number
        == 0x1680 || (0x2000 <= number && number <= 0x200a) || number == 0x2028 || number == 0x2029
        || number == 0x202f || number == 0x205f || number == 0x3000
}

/// A text without the white space that it starts with.
pub open spec fn trim_start(text: Text) -> Text
    decreases text.len(),
{
    if text.len() > 0 && is_space(text[0]) {
        trim_start(text.skip(1))
    } else {
        text
    }
}

/// A text without the white space that it ends with.
pub open spec fn trim_end(text: Text) -> Text
    decreases text.len(),
{
    if text.len() > 0 && is_space(text[text.len() - 1]) {
        trim_end(text.take(text.len() - 1))
    } else {
        text
    }
}

/// A text without the white space around it.
pub open spec fn trimmed(text: Text) -> Text {
    trim_end(trim_start(text))
}

/// Takes away the white space around a text.
pub fn trim(text: &str) -> (inner: String)
    ensures
        inner@ == trimmed(text@),
{
    let chars = chars_of(text);
    let mut start: usize = 0;
    assert(text@.skip(0) =~= text@);
    while start < chars.len() && is_space_char(chars[start])
        invariant
            chars@ == text@,
            start <= chars.len(),
            trim_start(text@) == trim_start(text@.skip(start as int)),
        decreases chars.len() - start,
    {
        proof {
            let rest = text@.skip(start as int);
            assert(rest[0] == text@[start as int]);
            assert(rest.skip(1) =~= text@.skip(start + 1));
        }
        start += 1;
    }
    let ghost front = text@.skip(start as int);
    proof {
        if start < chars.len() {
            assert(front[0] == text@[start as int]);
        }
        assert(trim_start(text@) == front);
    }
    let mut end: usize = chars.len();
    assert(text@.subrange(start as int, end as int) =~= front);
    while end > start && is_space_char(chars[end - 1])
        invariant
            chars@ == text@,
            start <= end <= chars.len(),
            trim_end(front) == trim_end(text@.subrange(start as int, end as int)),
        decreases end,
    {
        proof {
            let rest = text@.subrange(start as int, end as int);
            assert(rest[rest.len() - 1] == text@[end - 1]);
            assert(rest.take(rest.len() - 1) =~= text@.subrange(start as int, end - 1));
        }
        end -= 1;
    }
    proof {
        let rest = text@.subrange(start as int, end as int);
        if end > start {
            assert(rest[rest.len() - 1] == text@[end - 1]);
        }
    }
    slice_of(&chars, start, end)
}

/// The control characters of Unicode: general category Cc.
pub open spec fn is_control(ch: char) -> bool {
    (ch as int) < 32 || 127 <= (ch as int) < 160
}

/// Tests for a control character.
pub fn is_control_char(ch: char) -> (control: bool)
    ensures
        control == is_control(ch),
{
    let number: u32 = code_point(ch);
    number < 32 || (127 <= number && number < 160)
}

// ---------------------------------------------------------------------------------------------
// Laws
// ---------------------------------------------------------------------------------------------

/// A search finds the first place at which a pattern stands, and finds none only where it stands
/// nowhere.
pub proof fn searches_find_the_first(text: Text, pattern: Text, from: int)
    requires
        0 <= from,
    ensures
        match first_at(text, pattern, from) {
            Some(at) => {
                &&& from <= at
                &&& at + pattern.len() <= text.len()
                &&& forall|i: int| 0 <= i < pattern.len() ==> text[at + i] == #[trigger] pattern[i]
                &&& forall|earlier: int| from <= earlier < at ==> !stands_at(text, pattern, earlier)
            },
            None => forall|at: int| from <= at ==> !stands_at(text, pattern, at),
        },
    decreases text.len() + 1 - from,
{
    if from + pattern.len() <= text.len() {
        if stands_at(text, pattern, from) {
            assert forall|i: int| 0 <= i < pattern.len() implies text[from + i]
                == #[trigger] pattern[i] by {
                assert(text.subrange(from, from + pattern.len())[i] == pattern[i]);
            }
        } else {
            searches_find_the_first(text, pattern, from + 1);
        }
    }
}

/// A search from the end finds the last place before it at which a character stands, and finds
/// none only where it does not stand before it.
pub proof fn backward_searches_find_the_last(text: Text, ch: char, end: int)
    requires
        end <= text.len(),
    ensures
        match last_before(text, ch, end) {
            Some(at) => {
                &&& 0 <= at < end
                &&& text[at] == ch
                &&& forall|later: int| at < later < end ==> #[trigger] text[later] != ch
            },
            None => forall|at: int| 0 <= at < end ==> #[trigger] text[at] != ch,
        },
    decreases end,
{
    if end > 0 && text[end - 1] != ch {
        backward_searches_find_the_last(text, ch, end - 1);
    }
}

/// The parts of a text with the character between each two of them.
pub open spec fn put_together(parts: Seq<Text>, ch: char) -> Text
    decreases parts.len(),
{
    if parts.len() == 0 {
        Seq::empty()
    } else if parts.len() == 1 {
        parts[0]
    } else {
        put_together(parts.drop_last(), ch).push(ch) + parts.last()
    }
}

/// The parts of a text make the text again when they are put together, and none of them holds the
/// character.
pub proof fn parts_make_the_text_again(text: Text, ch: char)
    ensures
        split_on(text, ch).len() >= 1,
        put_together(split_on(text, ch), ch) == text,
        forall|i: int|
            0 <= i < split_on(text, ch).len() ==> !(#[trigger] split_on(text, ch)[i]).contains(ch),
    decreases text.len(),
{
    backward_searches_find_the_last(text, ch, text.len() as int);
    let parts = split_on(text, ch);
    match last_before(text, ch, text.len() as int) {
        None => {
            assert(parts =~= seq![text]);
        },
        Some(at) => {
            let front = text.take(at);
            parts_make_the_text_again(front, ch);
            let last = text.skip(at + 1);
            assert(parts == split_on(front, ch).push(last));
            assert(parts.drop_last() =~= split_on(front, ch));
            assert(put_together(parts, ch) =~= text);
            assert forall|i: int| 0 <= i < parts.len() implies !(#[trigger] parts[i]).contains(
                ch,
            ) by {
                if i < parts.len() - 1 {
                    assert(parts[i] == split_on(front, ch)[i]);
                } else {
                    assert(parts[i] == last);
                    assert forall|j: int| 0 <= j < last.len() implies last[j] != ch by {
                        assert(text[at + 1 + j] == last[j]);
                    }
                }
            }
        },
    }
}

/// What follows the last occurrence of a character is the last part of a text, and the parts before
/// it are those of the text before the character.
pub proof fn texts_are_split_before_their_last_part(text: Text, ch: char, last: Text)
    requires
        !last.contains(ch),
    ensures
        split_on(text.push(ch) + last, ch) == split_on(text, ch).push(last),
{
    let whole = text.push(ch) + last;
    backward_searches_find_the_last(whole, ch, whole.len() as int);
    assert(whole[text.len() as int] == ch);
    if let Some(at) = last_before(whole, ch, whole.len() as int) {
        if at > text.len() {
            assert(whole[at] == last[at - text.len() - 1]);
        }
        assert(at == text.len());
        assert(whole.take(at) =~= text);
        assert(whole.skip(at + 1) =~= last);
    }
}

/// A text that was put together of parts without the character is split into these parts.
pub proof fn texts_are_split_into_what_they_were_put_together_of(parts: Seq<Text>, ch: char)
    requires
        parts.len() > 0,
        forall|i: int| 0 <= i < parts.len() ==> !(#[trigger] parts[i]).contains(ch),
    ensures
        split_on(put_together(parts, ch), ch) == parts,
    decreases parts.len(),
{
    let text = put_together(parts, ch);
    if parts.len() == 1 {
        backward_searches_find_the_last(text, ch, text.len() as int);
        assert(!parts[0].contains(ch));
        assert(split_on(text, ch) =~= parts);
    } else {
        let front = parts.drop_last();
        assert forall|i: int| 0 <= i < front.len() implies !(#[trigger] front[i]).contains(ch) by {
            assert(front[i] == parts[i]);
        }
        texts_are_split_into_what_they_were_put_together_of(front, ch);
        assert(parts[parts.len() - 1] == parts.last());
        texts_are_split_before_their_last_part(put_together(front, ch), ch, parts.last());
        assert(front.push(parts.last()) =~= parts);
    }
}

/// Only white space is taken away around a text, and all of it.
pub proof fn only_white_space_is_taken_away(text: Text)
    ensures
        exists|start: int, end: int| is_inner(text, #[trigger] text.subrange(start, end), start, end)
            && trimmed(text) == text.subrange(start, end),
{
    lemma_trim_start(text);
    let rest = trim_start(text);
    let start = text.len() - rest.len();
    lemma_trim_end(rest);
    let inner = trim_end(rest);
    let end = start + inner.len();
    assert(inner =~= text.subrange(start, end)) by {
        assert forall|i: int| 0 <= i < inner.len() implies inner[i] == text[start + i] by {
            assert(inner[i] == rest[i]);
        }
    }
    assert forall|i: int| end <= i < text.len() implies is_space(#[trigger] text[i]) by {
        assert(rest[i - start] == text[i]);
    }
    assert(is_inner(text, text.subrange(start, end), start, end));
}

/// Whether a part of a text has no white space at its ends while there is nothing else around it.
pub open spec fn is_inner(text: Text, inner: Text, start: int, end: int) -> bool {
    &&& 0 <= start <= end <= text.len()
    &&& forall|i: int| 0 <= i < start ==> is_space(#[trigger] text[i])
    &&& forall|i: int| end <= i < text.len() ==> is_space(#[trigger] text[i])
    &&& inner.len() > 0 ==> !is_space(inner[0]) && !is_space(inner[inner.len() - 1])
}

proof fn lemma_trim_start(text: Text)
    ensures
        ({
            let rest = trim_start(text);
            let start = text.len() - rest.len();
            &&& rest.len() <= text.len()
            &&& rest == text.skip(start)
            &&& rest.len() > 0 ==> !is_space(rest[0])
            &&& forall|i: int| 0 <= i < start ==> is_space(#[trigger] text[i])
        }),
    decreases text.len(),
{
    if text.len() > 0 && is_space(text[0]) {
        let next = text.skip(1);
        lemma_trim_start(next);
        let rest = trim_start(text);
        let start = text.len() - rest.len();
        assert(rest =~= text.skip(start));
        assert forall|i: int| 0 <= i < start implies is_space(#[trigger] text[i]) by {
            if i > 0 {
                assert(next[i - 1] == text[i]);
            }
        }
    } else {
        assert(text.skip(0) =~= text);
    }
}

proof fn lemma_trim_end(text: Text)
    ensures
        ({
            let rest = trim_end(text);
            &&& rest.len() <= text.len()
            &&& rest == text.take(rest.len() as int)
            &&& rest.len() > 0 ==> !is_space(rest[rest.len() - 1])
            &&& text.len() > 0 && !is_space(text[0]) ==> rest.len() > 0 && rest[0] == text[0]
            &&& forall|i: int| rest.len() <= i < text.len() ==> is_space(#[trigger] text[i])
        }),
    decreases text.len(),
{
    if text.len() > 0 && is_space(text[text.len() - 1]) {
        let next = text.take(text.len() - 1);
        lemma_trim_end(next);
        let rest = trim_end(text);
        assert(rest =~= text.take(rest.len() as int));
        assert forall|i: int| rest.len() <= i < text.len() implies is_space(#[trigger] text[i]) by {
            if i < text.len() - 1 {
                assert(next[i] == text[i]);
            }
        }
    } else {
        assert(text.take(text.len() as int) =~= text);
    }
}

/// Numbers that are written are read back as long as they fit, and a number that is too large is
/// not read at all.
pub proof fn numbers_are_read_back(number: nat, max: nat, signed: i64)
    ensures
        number <= max ==> unsigned_value(decimal(number), max) == Some(number),
        number > max ==> unsigned_value(decimal(number), max) is None,
        signed_value(signed_decimal(signed as int)) == Some(signed),
{
    numerals_are_read_back(number);
    lemma_no_sign(number);
    let size: nat = if signed < 0 {
        (-signed) as nat
    } else {
        signed as nat
    };
    numerals_are_read_back(size);
    lemma_no_sign(size);
    if signed < 0 {
        reveal_strlit("-");
        let text = signed_decimal(signed as int);
        assert(text[0] == '-');
        assert(text.skip(1) =~= decimal(size));
    }
}

/// A number may be written with leading zeros, and with a plus sign before its digits; with a minus
/// sign it is negative. Nothing but digits after a sign is a number, and neither is a number out of
/// range.
pub proof fn numbers_are_digits_after_a_sign(digits: Text, text: Text, max: nat)
    requires
        digits.len() > 0,
        forall|i: int| 0 <= i < digits.len() ==> '0' <= #[trigger] digits[i] <= '9',
    ensures
        ({
            let value = if digits_value(digits) <= max {
                Some(digits_value(digits))
            } else {
                None
            };
            &&& unsigned_value(digits, max) == value
            &&& unsigned_value(seq!['+'] + digits, max) == value
        }),
        unsigned_value(text, max) is Some ==> {
            let number = if text[0] == '+' {
                text.skip(1)
            } else {
                text
            };
            number.len() > 0 && forall|i: int| 0 <= i < number.len() ==> '0' <= #[trigger] number[i]
                <= '9'
        },
        digits_value(digits) <= i64::MAX ==> {
            &&& signed_value(digits) == Some(digits_value(digits) as i64)
            &&& signed_value(seq!['+'] + digits) == Some(digits_value(digits) as i64)
            &&& signed_value(seq!['-'] + digits) == Some((-digits_value(digits)) as i64)
        },
        digits_value(digits) > i64::MAX ==> signed_value(digits) is None,
        digits_value(digits) > i64::MAX as int + 1 ==> signed_value(seq!['-'] + digits) is None,
{
    assert forall|i: int| 0 <= i < digits.len() implies is_digit(#[trigger] digits[i]) by {
        assert('0' <= digits[i] <= '9');
    }
    let plus = seq!['+'] + digits;
    let minus = seq!['-'] + digits;
    assert(plus.skip(1) =~= digits);
    assert(minus.skip(1) =~= digits);
    assert(is_digit(digits[0]));
    if unsigned_value(text, max) is Some {
        let number = unsigned_digits(text);
        assert forall|i: int| 0 <= i < number.len() implies '0' <= #[trigger] number[i] <= '9' by {
            assert(is_digit(number[i]));
        }
    }
}

proof fn lemma_no_sign(number: nat)
    ensures
        decimal(number).len() > 0,
        decimal(number)[0] != '+',
        decimal(number)[0] != '-',
        unsigned_digits(decimal(number)) == decimal(number),
{
    numerals_are_read_back(number);
    assert(is_digit(decimal(number)[0]));
}

} // verus!
