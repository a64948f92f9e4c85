//! Characters and bytes of configuration text: lines, fields, numbers, trimming.
use vstd::prelude::*;
use vstd::string::*;

verus! {

broadcast use vstd::string::group_string_axioms;

/// `String::push` appends one character.
pub assume_specification[ String::push ](target: &mut String, character: char)
    ensures
        final(target)@ == old(target)@.push(character),
;

/// The reason why bytes are not valid UTF-8.
#[verifier::external_type_specification]
#[verifier::external_body]
pub struct ExUtf8Error(core::str::Utf8Error);

/// `core::str::from_utf8` accepts exactly the valid UTF-8 sequences and keeps
/// their bytes.
pub assume_specification[ core::str::from_utf8 ](v: &[u8]) -> (result: Result<
    &str,
    core::str::Utf8Error,
>)
    ensures
        match result {
            Ok(decoded) => vstd::utf8::valid_utf8(v@) && decoded.spec_bytes() == v@,
            Err(_) => !vstd::utf8::valid_utf8(v@),
        },
;

/// The text that `String::from_utf8_lossy` makes of any bytes.
pub uninterp spec fn lossy_text(bytes: Seq<u8>) -> Seq<char>;

/// Calls `String::from_utf8_lossy`, which keeps valid UTF-8 as it is and
/// replaces what is not; how it replaces is left to the name of its result.
#[verifier::external_body]
pub(crate) fn decode_lossy(bytes: &[u8]) -> (result: String)
    ensures
        result@ == lossy_text(bytes@),
        vstd::utf8::valid_utf8(bytes@) ==> result@ == vstd::utf8::decode_utf8(bytes@),
{
    String::from_utf8_lossy(bytes).into_owned()
}

/// Decodes UTF-8.
pub fn decode(bytes: &[u8]) -> (result: Option<String>)
    ensures
        match result {
            Some(decoded) => vstd::utf8::valid_utf8(bytes@) && decoded@ == vstd::utf8::decode_utf8(
                bytes@,
            ) && decoded@.len() <= bytes@.len(),
            None => !vstd::utf8::valid_utf8(bytes@),
        },
{
    match core::str::from_utf8(bytes) {
        Ok(decoded) => {
            proof {
                vstd::utf8::encode_utf8_decode_utf8(decoded@);
                lemma_chars_no_longer(decoded@);
            }
            Some(decoded.to_owned())
        },
        Err(_) => None,
    }
}

proof fn lemma_chars_no_longer(chars: Seq<char>)
    ensures
        chars.len() <= vstd::utf8::encode_utf8(chars).len(),
    decreases chars.len(),
{
    if chars.len() > 0 {
        vstd::utf8::char_is_scalar(chars[0]);
        lemma_chars_no_longer(chars.drop_first());
    }
}

/// The position of the first `item`, or the length where there is none.
pub open spec fn first_index<T>(items: Seq<T>, item: T) -> int
    decreases items.len(),
{
    if items.len() == 0 || items[0] == item {
        0
    } else {
        1 + first_index(items.drop_first(), item)
    }
}

pub proof fn lemma_first_index<T>(items: Seq<T>, item: T)
    ensures
        0 <= first_index(items, item) <= items.len(),
        forall|i: int| 0 <= i < first_index(items, item) ==> items[i] != item,
        first_index(items, item) < items.len() ==> items[first_index(items, item)] == item,
    decreases items.len(),
{
    if items.len() == 0 || items[0] == item {
    } else {
        let rest = items.drop_first();
        lemma_first_index(rest, item);
        assert forall|i: int| 0 <= i < first_index(items, item) implies items[i] != item by {
            if i > 0 {
                assert(rest[i - 1] == items[i]);
            }
        }
    }
}

/// A position that no earlier occurrence precedes is the first one.
pub proof fn lemma_first_index_is<T>(items: Seq<T>, item: T, position: int)
    requires
        0 <= position <= items.len(),
        forall|i: int| 0 <= i < position ==> items[i] != item,
        position < items.len() ==> items[position] == item,
    ensures
        first_index(items, item) == position,
{
    lemma_first_index(items, item);
}

/// The characters of `text`.
pub fn chars_of(text: &str) -> (chars: Vec<char>)
    ensures
        chars@ == text@,
{
    let mut chars: Vec<char> = Vec::new();
    for character in it: text.chars()
        invariant
            chars@ == it.seq().take(it.index() as int),
            it.seq() == text@,
    {
        chars.push(character);
    }
    chars
}

/// The text with these characters.
pub fn string_of(chars: &[char]) -> (text: String)
    ensures
        text@ == chars@,
{
    let mut text = String::new();
    let mut index: usize = 0;
    while index < chars.len()
        invariant
            index <= chars@.len(),
            text@ == chars@.take(index as int),
        decreases chars@.len() - index,
    {
        text.push(chars[index]);
        index = index + 1;
    }
    assert(chars@.take(chars@.len() as int) =~= chars@);
    text
}

/// Whether two texts are the same.
pub fn same_text(left: &str, right: &str) -> (result: bool)
    ensures
        result == (left@ == right@),
{
    left.to_owned() == right.to_owned()
}

/// Whether `chars` spells `text`.
pub fn spells(chars: &[char], text: &str) -> (result: bool)
    ensures
        result == (chars@ == text@),
{
    let expected = chars_of(text);
    if chars.len() != expected.len() {
        return false;
    }
    let mut index: usize = 0;
    while index < chars.len()
        invariant
            index <= chars@.len(),
            chars@.len() == expected@.len(),
            expected@ == text@,
            chars@.take(index as int) == expected@.take(index as int),
        decreases chars@.len() - index,
    {
        if chars[index] != expected[index] {
            assert(chars@[index as int] != expected@[index as int]);
            return false;
        }
        assert(chars@.take(index + 1) =~= chars@.take(index as int).push(chars@[index as int]));
        assert(expected@.take(index + 1) =~= expected@.take(index as int).push(
            expected@[index as int],
        ));
        index = index + 1;
    }
    assert(chars@.take(index as int) =~= chars@);
    assert(expected@.take(index as int) =~= expected@);
    true
}

/// Whether two byte strings are the same.
pub fn same_bytes(left: &[u8], right: &[u8]) -> (result: bool)
    ensures
        result == (left@ == right@),
{
    if left.len() != right.len() {
        return false;
    }
    let mut index: usize = 0;
    while index < left.len()
        invariant
            index <= left@.len(),
            left@.len() == right@.len(),
            forall|i: int| 0 <= i < index ==> left@[i] == right@[i],
        decreases left@.len() - index,
    {
        if left[index] != right[index] {
            assert(left@[index as int] != right@[index as int]);
            return false;
        }
        index = index + 1;
    }
    assert(left@ =~= right@);
    true
}

/// The position of the first `character`, or the length.
pub fn find_char(chars: &[char], character: char) -> (position: usize)
    ensures
        position == first_index(chars@, character),
        position <= chars@.len(),
{
    let mut position: usize = 0;
    while position < chars.len() && chars[position] != character
        invariant
            position <= chars@.len(),
            forall|i: int| 0 <= i < position ==> chars@[i] != character,
        decreases chars@.len() - position,
    {
        position = position + 1;
    }
    proof {
        lemma_first_index_is(chars@, character, position as int);
    }
    position
}

/// What stands before and after the first `separator`.
pub open spec fn split_at_first<T>(items: Seq<T>, separator: T) -> Option<(Seq<T>, Seq<T>)> {
    let position = first_index(items, separator);
    if position < items.len() {
        Some((items.take(position), items.skip(position + 1)))
    } else {
        None
    }
}

/// Splits at the first `separator`.
pub fn split_once(chars: &[char], separator: char) -> (result: Option<(Vec<char>, Vec<char>)>)
    ensures
        match result {
            Some((before, after)) => split_at_first(chars@, separator) == Some((before@, after@)),
            None => split_at_first(chars@, separator) is None,
        },
{
    let position: usize = find_char(chars, separator);
    if position < chars.len() {
        let before = vstd::slice::slice_to_vec(vstd::slice::slice_subrange(chars, 0, position));
        let after = vstd::slice::slice_to_vec(
            vstd::slice::slice_subrange(chars, position + 1, chars.len()),
        );
        assert(before@ =~= chars@.take(position as int));
        assert(after@ =~= chars@.skip(position + 1));
        Some((before, after))
    } else {
        None
    }
}

/// A line without the carriage return before its line feed.
pub open spec fn without_return(line: Seq<char>) -> Seq<char> {
    if line.len() > 0 && line.last() == '\r' {
        line.drop_last()
    } else {
        line
    }
}

/// The lines of a text: each ends at a line feed, with or without a carriage
/// return before it, and the ending of the last line is optional.
pub open spec fn lines_of(text: Seq<char>) -> Seq<Seq<char>>
    decreases text.len(),
{
    let end = first_index(text, '\n');
    if text.len() == 0 {
        Seq::empty()
    } else if end < 0 || end >= text.len() {
        seq![text]
    } else {
        seq![without_return(text.take(end))] + lines_of(text.skip(end + 1))
    }
}

/// What a list of owned texts holds.
pub open spec fn views(texts: Seq<Vec<char>>) -> Seq<Seq<char>> {
    texts.map_values(|text: Vec<char>| text@)
}

/// The lines of a text.
pub fn split_lines(chars: &[char]) -> (lines: Vec<Vec<char>>)
    ensures
        views(lines@) == lines_of(chars@),
{
    let mut lines: Vec<Vec<char>> = Vec::new();
    let mut start: usize = 0;
    assert(chars@.skip(0) =~= chars@);
    assert(views(lines@) + lines_of(chars@.skip(0)) =~= lines_of(chars@));
    while start < chars.len()
        invariant
            start <= chars@.len(),
            views(lines@) + lines_of(chars@.skip(start as int)) == lines_of(chars@),
        decreases chars@.len() - start,
    {
        let rest = vstd::slice::slice_subrange(chars, start, chars.len());
        assert(rest@ =~= chars@.skip(start as int));
        let ghost before = views(lines@);
        let length: usize = find_char(rest, '\n');
        if length < rest.len() {
            let mut end: usize = length;
            if end > 0 && rest[end - 1] == '\r' {
                end = end - 1;
            }
            let line = vstd::slice::slice_to_vec(vstd::slice::slice_subrange(rest, 0, end));
            proof {
                assert(line@ =~= without_return(rest@.take(length as int)));
                assert(rest@.skip(length + 1) =~= chars@.skip(start + length + 1));
            }
            lines.push(line);
            proof {
                assert(views(lines@) =~= before + seq![line@]);
                assert(views(lines@) + lines_of(chars@.skip(start + length + 1)) =~= before
                    + lines_of(rest@));
            }
            start = start + length + 1;
        } else {
            let line = vstd::slice::slice_to_vec(rest);
            lines.push(line);
            proof {
                assert(views(lines@) =~= before + seq![line@]);
                assert(chars@.skip(chars@.len() as int) =~= Seq::<char>::empty());
                assert(lines_of(Seq::<char>::empty()) =~= Seq::<Seq<char>>::empty());
                assert(views(lines@) + lines_of(chars@.skip(chars@.len() as int)) =~= before
                    + lines_of(rest@));
            }
            start = chars.len();
        }
    }
    assert(chars@.skip(start as int) =~= Seq::<char>::empty());
    assert(views(lines@) + lines_of(chars@.skip(start as int)) =~= views(lines@));
    lines
}

/// Whether a character has the Unicode `White_Space` property.
pub open spec fn is_space(character: char) -> bool {
    ||| '\u{9}' <= character <= '\u{d}'
    ||| character == ' '
    ||| character == '\u{85}'
    ||| character == '\u{a0}'
    ||| character == '\u{1680}'
    ||| '\u{2000}' <= character <= '\u{200a}'
    ||| character == '\u{2028}'
    ||| character == '\u{2029}'
    ||| character == '\u{202f}'
    ||| character == '\u{205f}'
    ||| character == '\u{3000}'
}

/// Whether a character is in the Unicode category of control codes.
pub open spec fn is_control_code(character: char) -> bool {
    character <= '\u{1f}' || '\u{7f}' <= character <= '\u{9f}'
}

pub fn is_whitespace(character: char) -> (result: bool)
    ensures
        result == is_space(character),
{
    ('\u{9}' <= character && character <= '\u{d}') || character == ' ' || character == '\u{85}'
        || character == '\u{a0}' || character == '\u{1680}' || ('\u{2000}' <= character
        && character <= '\u{200a}') || character == '\u{2028}' || character == '\u{2029}'
        || character == '\u{202f}' || character == '\u{205f}' || character == '\u{3000}'
}

pub fn is_control(character: char) -> (result: bool)
    ensures
        result == is_control_code(character),
{
    character <= '\u{1f}' || ('\u{7f}' <= character && character <= '\u{9f}')
}

/// Whether any character is a control code.
pub open spec fn has_control(text: Seq<char>) -> bool {
    exists|i: int| 0 <= i < text.len() && is_control_code(#[trigger] text[i])
}

pub fn contains_control(chars: &[char]) -> (result: bool)
    ensures
        result == has_control(chars@),
{
    let mut index: usize = 0;
    while index < chars.len()
        invariant
            index <= chars@.len(),
            forall|i: int| 0 <= i < index ==> !is_control_code(#[trigger] chars@[i]),
        decreases chars@.len() - index,
    {
        if is_control(chars[index]) {
            assert(is_control_code(chars@[index as int]));
            return true;
        }
        index = index + 1;
    }
    false
}

/// A text without leading white space.
pub open spec fn trimmed_start(text: Seq<char>) -> Seq<char>
    decreases text.len(),
{
    if text.len() > 0 && is_space(text[0]) {
        trimmed_start(text.drop_first())
    } else {
        text
    }
}

/// A text without trailing white space.
pub open spec fn trimmed_end(text: Seq<char>) -> Seq<char>
    decreases text.len(),
{
    if text.len() > 0 && is_space(text.last()) {
        trimmed_end(text.drop_last())
    } else {
        text
    }
}

/// A text without surrounding white space.
pub open spec fn trimmed(text: Seq<char>) -> Seq<char> {
    trimmed_end(trimmed_start(text))
}

/// Removes surrounding white space.
pub fn trim(chars: &[char]) -> (result: Vec<char>)
    ensures
        result@ == trimmed(chars@),
{
    let mut start: usize = 0;
    assert(chars@.skip(0) =~= chars@);
    while start < chars.len() && is_whitespace(chars[start])
        invariant
            start <= chars@.len(),
            trimmed_start(chars@.skip(start as int)) == trimmed_start(chars@),
        decreases chars@.len() - start,
    {
        assert(chars@.skip(start as int).drop_first() =~= chars@.skip(start + 1));
        start = start + 1;
    }
    assert(trimmed_start(chars@) == chars@.skip(start as int));
    let mut end: usize = chars.len();
    assert(chars@.subrange(start as int, end as int) =~= chars@.skip(start as int));
    while end > start && is_whitespace(chars[end - 1])
        invariant
            start <= end <= chars@.len(),
            trimmed_end(chars@.subrange(start as int, end as int)) == trimmed(chars@),
        decreases end,
    {
        assert(chars@.subrange(start as int, end as int).drop_last() =~= chars@.subrange(
            start as int,
            end - 1,
        ));
        end = end - 1;
    }
    vstd::slice::slice_to_vec(vstd::slice::slice_subrange(chars, start, end))
}

/// The decimal digits of a number, most significant first.
pub open spec fn decimal(value: nat) -> Seq<char>
    decreases value,
{
    if value < 10 {
        seq![digit_char(value)]
    } else {
        decimal(value / 10).push(digit_char(value % 10))
    }
}

/// The character of one decimal digit.
pub open spec fn digit_char(digit: nat) -> char {
    ('0' as nat + digit) as char
}

/// Whether a character is one of `0` to `9`.
pub open spec fn is_digit(character: char) -> bool {
    '0' <= character <= '9'
}

/// The number that a sequence of digits spells.
pub open spec fn digits_value(digits: Seq<char>) -> nat
    decreases digits.len(),
{
    if digits.len() == 0 {
        0
    } else {
        digits_value(digits.drop_last()) * 10 + (digits.last() as nat - '0' as nat) as nat
    }
}

/// Whether a text is a nonempty run of digits.
pub open spec fn all_digits(text: Seq<char>) -> bool {
    text.len() > 0 && forall|i: int| 0 <= i < text.len() ==> is_digit(#[trigger] text[i])
}

/// The unsigned number that a text spells, with an optional plus sign, where
/// it is at most `limit`.
pub open spec fn parsed_decimal(text: Seq<char>, limit: nat) -> Option<nat> {
    let digits = if text.len() > 0 && text[0] == '+' {
        text.drop_first()
    } else {
        text
    };
    if all_digits(digits) && digits_value(digits) <= limit {
        Some(digits_value(digits))
    } else {
        None
    }
}

pub proof fn lemma_digits_value_grows(digits: Seq<char>, count: int)
    requires
        0 <= count <= digits.len(),
    ensures
        digits_value(digits.take(count)) <= digits_value(digits),
    decreases digits.len(),
{
    if count == digits.len() {
        assert(digits.take(count) =~= digits);
    } else {
        let short = digits.drop_last();
        lemma_digits_value_grows(short, count);
        assert(short.take(count) =~= digits.take(count));
    }
}

/// Reads an unsigned decimal number of at most `limit`.
pub fn parse_decimal(chars: &[char], limit: u64) -> (result: Option<u64>)
    ensures
        match result {
            Some(value) => parsed_decimal(chars@, limit as nat) == Some(value as nat),
            None => parsed_decimal(chars@, limit as nat) is None,
        },
{
    let mut start: usize = 0;
    if chars.len() > 0 && chars[0] == '+' {
        start = 1;
    }
    let digits = vstd::slice::slice_subrange(chars, start, chars.len());
    let ghost unsigned = if chars@.len() > 0 && chars@[0] == '+' {
        chars@.drop_first()
    } else {
        chars@
    };
    assert(digits@ =~= unsigned);
    if digits.len() == 0 {
        return None;
    }
    let mut value: u64 = 0;
    let mut index: usize = 0;
    let mut too_large = false;
    assert(digits@.take(0) =~= Seq::<char>::empty());
    while index < digits.len()
        invariant
            index <= digits@.len(),
            digits@ == (if chars@.len() > 0 && chars@[0] == '+' {
                chars@.drop_first()
            } else {
                chars@
            }),
            value <= limit,
            forall|i: int| 0 <= i < index ==> is_digit(#[trigger] digits@[i]),
            !too_large ==> value == digits_value(digits@.take(index as int)),
            too_large ==> digits_value(digits@.take(index as int)) > limit,
        decreases digits@.len() - index,
    {
        let character = digits[index];
        if !('0' <= character && character <= '9') {
            assert(!is_digit(digits@[index as int]));
            return None;
        }
        let digit: u64 = character as u64 - '0' as u64;
        proof {
            assert(digits@.take(index + 1).drop_last() =~= digits@.take(index as int));
            assert(digits@.take(index + 1).last() == character);
        }
        if !too_large {
            if value > (u64::MAX - digit) / 10 {
                too_large = true;
            } else {
                let next: u64 = value * 10 + digit;
                if next > limit {
                    too_large = true;
                } else {
                    value = next;
                }
            }
        }
        index = index + 1;
    }
    assert(digits@.take(digits@.len() as int) =~= digits@);
    if too_large {
        None
    } else {
        Some(value)
    }
}

/// Writes a number in decimal.
pub fn decimal_chars(value: u64) -> (result: Vec<char>)
    ensures
        result@ == decimal(value as nat),
    decreases value,
{
    if value < 10 {
        let mut result: Vec<char> = Vec::new();
        result.push(digit_of(value as u8));
        assert(result@ =~= decimal(value as nat));
        result
    } else {
        let mut result = decimal_chars(value / 10);
        result.push(digit_of((value % 10) as u8));
        result
    }
}

fn digit_of(digit: u8) -> (result: char)
    requires
        digit < 10,
    ensures
        result == digit_char(digit as nat),
{
    (48u8 + digit) as char
}

/// Reading the digits of a number gives the number back.
pub proof fn decimal_round_trip(value: nat)
    ensures
        all_digits(decimal(value)),
        digits_value(decimal(value)) == value,
        forall|limit: nat| value <= limit ==> parsed_decimal(decimal(value), limit) == Some(value),
    decreases value,
{
    if value < 10 {
        reveal_with_fuel(digits_value, 2);
        assert(decimal(value).drop_last() =~= Seq::<char>::empty());
    } else {
        decimal_round_trip(value / 10);
        assert(decimal(value).drop_last() =~= decimal(value / 10));
        assert forall|i: int| 0 <= i < decimal(value).len() implies is_digit(
            #[trigger] decimal(value)[i],
        ) by {
            if i < decimal(value / 10).len() {
                assert(is_digit(decimal(value / 10)[i]));
            }
        }
    }
    assert(is_digit(decimal(value)[0]));
}

/// An ASCII letter in lower case; any other character as it is.
pub open spec fn lower_char(character: char) -> char {
    if 'A' <= character <= 'Z' {
        (character as nat + 32) as char
    } else {
        character
    }
}

/// An ASCII letter in lower case; any other byte as it is.
pub open spec fn lower_byte(byte: u8) -> u8 {
    if 65 <= byte <= 90 {
        (byte + 32) as u8
    } else {
        byte
    }
}

/// Whether two texts agree but for the case of ASCII letters.
pub open spec fn alike(left: Seq<char>, right: Seq<char>) -> bool {
    left.map_values(|c: char| lower_char(c)) == right.map_values(|c: char| lower_char(c))
}

pub fn lower(character: char) -> (result: char)
    ensures
        result == lower_char(character),
{
    if 'A' <= character && character <= 'Z' {
        (character as u8 + 32u8) as char
    } else {
        character
    }
}

/// Compares without regard to the case of ASCII letters.
pub fn eq_ignore_ascii_case(left: &[char], right: &str) -> (result: bool)
    ensures
        result == alike(left@, right@),
{
    let expected = chars_of(right);
    let ghost a = left@.map_values(|c: char| lower_char(c));
    let ghost b = right@.map_values(|c: char| lower_char(c));
    if left.len() != expected.len() {
        assert(a.len() != b.len());
        return false;
    }
    let mut index: usize = 0;
    while index < left.len()
        invariant
            index <= left@.len(),
            left@.len() == expected@.len(),
            expected@ == right@,
            a == left@.map_values(|c: char| lower_char(c)),
            b == right@.map_values(|c: char| lower_char(c)),
            forall|i: int| 0 <= i < index ==> a[i] == b[i],
        decreases left@.len() - index,
    {
        if lower(left[index]) != lower(expected[index]) {
            assert(a[index as int] != b[index as int]);
            return false;
        }
        assert(a[index as int] == b[index as int]);
        index = index + 1;
    }
    assert(a =~= b);
    true
}

/// Texts as lines, each with its line feed.
pub open spec fn joined_lines(lines: Seq<Seq<char>>) -> Seq<char>
    decreases lines.len(),
{
    if lines.len() == 0 {
        Seq::empty()
    } else {
        lines[0] + seq!['\n'] + joined_lines(lines.drop_first())
    }
}

/// Whether a text can stand as one line and be read back unchanged.
pub open spec fn is_clean_line(line: Seq<char>) -> bool {
    &&& forall|i: int| 0 <= i < line.len() ==> #[trigger] line[i] != '\n'
    &&& line.len() > 0 ==> line.last() != '\r'
}

pub proof fn lemma_joined_push(lines: Seq<Seq<char>>, line: Seq<char>)
    ensures
        joined_lines(lines.push(line)) == joined_lines(lines) + line + seq!['\n'],
    decreases lines.len(),
{
    reveal_with_fuel(joined_lines, 2);
    if lines.len() == 0 {
        assert(lines.push(line).drop_first() =~= Seq::<Seq<char>>::empty());
        assert(joined_lines(lines.push(line)) =~= joined_lines(lines) + line + seq!['\n']);
    } else {
        lemma_joined_push(lines.drop_first(), line);
        assert(lines.push(line).drop_first() =~= lines.drop_first().push(line));
        assert(joined_lines(lines.push(line)) =~= joined_lines(lines) + line + seq!['\n']);
    }
}

/// Reading joined lines gives the lines back.
pub proof fn joined_lines_round_trip(lines: Seq<Seq<char>>)
    requires
        forall|i: int| 0 <= i < lines.len() ==> is_clean_line(#[trigger] lines[i]),
    ensures
        lines_of(joined_lines(lines)) == lines,
    decreases lines.len(),
{
    if lines.len() == 0 {
        assert(lines_of(joined_lines(lines)) =~= lines);
    } else {
        let first = lines[0];
        let rest = lines.drop_first();
        assert forall|i: int| 0 <= i < rest.len() implies is_clean_line(#[trigger] rest[i]) by {
            assert(is_clean_line(lines[i + 1]));
        }
        joined_lines_round_trip(rest);
        let text = joined_lines(lines);
        assert(is_clean_line(lines[0]));
        assert forall|i: int| 0 <= i < first.len() implies text[i] != '\n' by {
            assert(text[i] == first[i]);
        }
        lemma_first_index_is(text, '\n', first.len() as int);
        assert(text.take(first.len() as int) =~= first);
        assert(text.skip(first.len() as int + 1) =~= joined_lines(rest));
        assert(seq![first] + rest =~= lines);
    }
}

/// A field line reads back as its name and its value.
pub proof fn lemma_field_splits(name: Seq<char>, separator: char, value: Seq<char>)
    requires
        forall|i: int| 0 <= i < name.len() ==> #[trigger] name[i] != separator,
    ensures
        split_at_first(name + seq![separator] + value, separator) == Some((name, value)),
{
    let line = name + seq![separator] + value;
    assert forall|i: int| 0 <= i < name.len() implies line[i] != separator by {
        assert(line[i] == name[i]);
    }
    lemma_first_index_is(line, separator, name.len() as int);
    assert(line.take(name.len() as int) =~= name);
    assert(line.skip(name.len() as int + 1) =~= value);
}

/// Appends `line` and a line feed.
pub fn push_line(text: &mut String, line: &str)
    ensures
        final(text)@ == old(text)@ + line@ + seq!['\n'],
{
    text.append(line);
    text.push('\n');
    assert(text@ =~= old(text)@ + line@ + seq!['\n']);
}

/// What follows a prefix.
pub open spec fn after_prefix<T>(items: Seq<T>, prefix: Seq<T>) -> Option<Seq<T>> {
    if prefix.len() <= items.len() && items.take(prefix.len() as int) == prefix {
        Some(items.skip(prefix.len() as int))
    } else {
        None
    }
}

/// What precedes a suffix.
pub open spec fn before_suffix<T>(items: Seq<T>, suffix: Seq<T>) -> Option<Seq<T>> {
    if suffix.len() <= items.len() && items.skip(items.len() - suffix.len()) == suffix {
        Some(items.take(items.len() - suffix.len()))
    } else {
        None
    }
}

/// Removes a prefix.
pub fn strip_prefix(chars: &[char], prefix: &str) -> (result: Option<Vec<char>>)
    ensures
        match result {
            Some(rest) => after_prefix(chars@, prefix@) == Some(rest@),
            None => after_prefix(chars@, prefix@) is None,
        },
{
    let length: usize = chars_of(prefix).len();
    if length > chars.len() {
        return None;
    }
    let head = vstd::slice::slice_subrange(chars, 0, length);
    assert(head@ =~= chars@.take(length as int));
    if spells(head, prefix) {
        let rest = vstd::slice::slice_to_vec(
            vstd::slice::slice_subrange(chars, length, chars.len()),
        );
        assert(rest@ =~= chars@.skip(length as int));
        Some(rest)
    } else {
        None
    }
}

/// Removes a suffix.
pub fn strip_suffix(chars: &[char], suffix: &str) -> (result: Option<Vec<char>>)
    ensures
        match result {
            Some(rest) => before_suffix(chars@, suffix@) == Some(rest@),
            None => before_suffix(chars@, suffix@) is None,
        },
{
    let length: usize = chars_of(suffix).len();
    if length > chars.len() {
        return None;
    }
    let tail = vstd::slice::slice_subrange(chars, chars.len() - length, chars.len());
    assert(tail@ =~= chars@.skip(chars@.len() - length));
    if spells(tail, suffix) {
        let rest = vstd::slice::slice_to_vec(
            vstd::slice::slice_subrange(chars, 0, chars.len() - length),
        );
        assert(rest@ =~= chars@.take(chars@.len() - length));
        Some(rest)
    } else {
        None
    }
}

/// The lower-case hexadecimal digit of a value below sixteen.
pub open spec fn hex_digit(value: nat) -> char {
    if value < 10 {
        ('0' as nat + value) as char
    } else {
        ('a' as nat + value - 10) as char
    }
}

/// A number in exactly `width` lower-case hexadecimal digits.
pub open spec fn hex_fixed(value: nat, width: nat) -> Seq<char>
    decreases width,
{
    if width == 0 {
        Seq::empty()
    } else {
        hex_fixed(value / 16, (width - 1) as nat).push(hex_digit(value % 16))
    }
}

/// The value of a hexadecimal digit of either case.
pub open spec fn hex_digit_value(character: char) -> Option<nat> {
    if '0' <= character <= '9' {
        Some((character as nat - '0' as nat) as nat)
    } else if 'a' <= character <= 'f' {
        Some((character as nat - 'a' as nat + 10) as nat)
    } else if 'A' <= character <= 'F' {
        Some((character as nat - 'A' as nat + 10) as nat)
    } else {
        None
    }
}

/// The number that hexadecimal digits spell.
pub open spec fn hex_value(digits: Seq<char>) -> nat
    decreases digits.len(),
{
    if digits.len() == 0 {
        0
    } else {
        hex_value(digits.drop_last()) * 16 + hex_digit_value(digits.last()).unwrap_or(0)
    }
}

/// Whether a text is a nonempty run of hexadecimal digits.
pub open spec fn all_hex(text: Seq<char>) -> bool {
    text.len() > 0 && forall|i: int|
        0 <= i < text.len() ==> hex_digit_value(#[trigger] text[i]) is Some
}

/// The number that a hexadecimal text spells, with an optional plus sign,
/// where it fits 64 bits.
pub open spec fn parsed_hex(text: Seq<char>) -> Option<nat> {
    let digits = if text.len() > 0 && text[0] == '+' {
        text.drop_first()
    } else {
        text
    };
    if all_hex(digits) && hex_value(digits) <= u64::MAX {
        Some(hex_value(digits))
    } else {
        None
    }
}

/// Writes one hexadecimal digit.
pub fn hex_char(value: u8) -> (result: char)
    requires
        value < 16,
    ensures
        result == hex_digit(value as nat),
{
    if value < 10 {
        (48u8 + value) as char
    } else {
        (87u8 + value) as char
    }
}

/// Writes a number in exactly `width` hexadecimal digits.
pub fn hex_chars(value: u64, width: usize) -> (result: Vec<char>)
    ensures
        result@ == hex_fixed(value as nat, width as nat),
    decreases width,
{
    if width == 0 {
        let result: Vec<char> = Vec::new();
        assert(result@ =~= hex_fixed(value as nat, 0));
        result
    } else {
        let mut result = hex_chars(value / 16, width - 1);
        result.push(hex_char((value % 16) as u8));
        result
    }
}

/// Reads one hexadecimal digit of either case.
pub fn hex_digit_of(character: char) -> (result: Option<u8>)
    ensures
        match result {
            Some(value) => hex_digit_value(character) == Some(value as nat) && value < 16,
            None => hex_digit_value(character) is None,
        },
{
    if '0' <= character && character <= '9' {
        Some(character as u8 - 48)
    } else if 'a' <= character && character <= 'f' {
        Some(character as u8 - 87)
    } else if 'A' <= character && character <= 'F' {
        Some(character as u8 - 55)
    } else {
        None
    }
}

/// Reads a hexadecimal number of at most 64 bits.
pub fn parse_hex(chars: &[char]) -> (result: Option<u64>)
    ensures
        match result {
            Some(value) => parsed_hex(chars@) == Some(value as nat),
            None => parsed_hex(chars@) is None,
        },
{
    let mut start: usize = 0;
    if chars.len() > 0 && chars[0] == '+' {
        start = 1;
    }
    let digits = vstd::slice::slice_subrange(chars, start, chars.len());
    let ghost unsigned = if chars@.len() > 0 && chars@[0] == '+' {
        chars@.drop_first()
    } else {
        chars@
    };
    assert(digits@ =~= unsigned);
    if digits.len() == 0 {
        return None;
    }
    let mut value: u64 = 0;
    let mut too_large = false;
    let mut index: usize = 0;
    assert(digits@.take(0) =~= Seq::<char>::empty());
    while index < digits.len()
        invariant
            index <= digits@.len(),
            digits@ == unsigned,
            unsigned == (if chars@.len() > 0 && chars@[0] == '+' {
                chars@.drop_first()
            } else {
                chars@
            }),
            forall|i: int| 0 <= i < index ==> hex_digit_value(#[trigger] digits@[i]) is Some,
            !too_large ==> value == hex_value(digits@.take(index as int)),
            too_large ==> hex_value(digits@.take(index as int)) > u64::MAX,
        decreases digits@.len() - index,
    {
        match hex_digit_of(digits[index]) {
            None => {
                assert(hex_digit_value(digits@[index as int]) is None);
                return None;
            },
            Some(digit) => {
                proof {
                    assert(digits@.take(index + 1).drop_last() =~= digits@.take(index as int));
                    assert(digits@.take(index + 1).last() == digits@[index as int]);
                }
                if !too_large {
                    if value > (u64::MAX - digit as u64) / 16 {
                        too_large = true;
                    } else {
                        value = value * 16 + digit as u64;
                    }
                }
            },
        }
        index = index + 1;
    }
    assert(digits@.take(digits@.len() as int) =~= digits@);
    if too_large {
        None
    } else {
        Some(value)
    }
}

/// The number of values that `width` hexadecimal digits can hold.
pub open spec fn hex_range(width: nat) -> nat
    decreases width,
{
    if width == 0 {
        1
    } else {
        16 * hex_range((width - 1) as nat)
    }
}

/// Fixed-width hexadecimal digits spell the number they were written from.
pub proof fn hex_fixed_round_trip(value: nat, width: nat)
    requires
        value < hex_range(width),
    ensures
        hex_fixed(value, width).len() == width,
        hex_value(hex_fixed(value, width)) == value,
        forall|i: int|
            0 <= i < width ==> hex_digit_value(#[trigger] hex_fixed(value, width)[i]) is Some,
        forall|i: int| 0 <= i < width ==> #[trigger] hex_fixed(value, width)[i] != '-',
        forall|i: int| 0 <= i < width ==> #[trigger] hex_fixed(value, width)[i] != '+',
    decreases width,
{
    if width > 0 {
        let before = (width - 1) as nat;
        assert(value / 16 < hex_range(before));
        hex_fixed_round_trip(value / 16, before);
        let digits = hex_fixed(value, width);
        assert(digits.drop_last() =~= hex_fixed(value / 16, before));
        assert forall|i: int| 0 <= i < width implies hex_digit_value(#[trigger] digits[i]) is Some
            && digits[i] != '-' && digits[i] != '+' by {
            if i < before {
                assert(digits[i] == hex_fixed(value / 16, before)[i]);
            }
        }
    }
}

/// Sixteen hexadecimal digits hold every 64-bit number.
pub proof fn hex_sixteen_round_trip(value: u64)
    ensures
        hex_fixed(value as nat, 16).len() == 16,
        parsed_hex(hex_fixed(value as nat, 16)) == Some(value as nat),
        forall|i: int| 0 <= i < 16 ==> #[trigger] hex_fixed(value as nat, 16)[i] != '-',
{
    reveal_with_fuel(hex_range, 17);
    hex_fixed_round_trip(value as nat, 16);
    assert(hex_fixed(value as nat, 16)[0] != '+');
}

/// Whether two byte strings agree but for the case of ASCII letters.
pub open spec fn bytes_alike(left: Seq<u8>, right: Seq<u8>) -> bool {
    left.map_values(|b: u8| lower_byte(b)) == right.map_values(|b: u8| lower_byte(b))
}

fn lower_of(byte: u8) -> (result: u8)
    ensures
        result == lower_byte(byte),
{
    if 65 <= byte && byte <= 90 {
        byte + 32
    } else {
        byte
    }
}

/// Compares bytes without regard to the case of ASCII letters.
pub fn bytes_eq_ignore_case(left: &[u8], right: &[u8]) -> (result: bool)
    ensures
        result == bytes_alike(left@, right@),
{
    let ghost a = left@.map_values(|b: u8| lower_byte(b));
    let ghost b = right@.map_values(|b: u8| lower_byte(b));
    if left.len() != right.len() {
        assert(a.len() != b.len());
        return false;
    }
    let mut index: usize = 0;
    while index < left.len()
        invariant
            index <= left@.len(),
            left@.len() == right@.len(),
            a == left@.map_values(|b: u8| lower_byte(b)),
            b == right@.map_values(|b: u8| lower_byte(b)),
            forall|i: int| 0 <= i < index ==> a[i] == b[i],
        decreases left@.len() - index,
    {
        if lower_of(left[index]) != lower_of(right[index]) {
            assert(a[index as int] != b[index as int]);
            return false;
        }
        assert(a[index as int] == b[index as int]);
        index = index + 1;
    }
    assert(a =~= b);
    true
}

/// The position of the first `byte`, or the length.
pub fn find_byte(bytes: &[u8], byte: u8) -> (position: usize)
    ensures
        position == first_index(bytes@, byte),
        position <= bytes@.len(),
{
    let mut position: usize = 0;
    while position < bytes.len() && bytes[position] != byte
        invariant
            position <= bytes@.len(),
            forall|i: int| 0 <= i < position ==> bytes@[i] != byte,
        decreases bytes@.len() - position,
    {
        position = position + 1;
    }
    proof {
        lemma_first_index_is(bytes@, byte, position as int);
    }
    position
}

/// The parts between separators that are not empty.
pub open spec fn nonempty_parts<T>(items: Seq<T>, separator: T) -> Seq<Seq<T>>
    decreases items.len(),
{
    let end = first_index(items, separator);
    if items.len() == 0 {
        Seq::empty()
    } else if end < 0 || end >= items.len() {
        seq![items]
    } else {
        (if end == 0 {
            Seq::empty()
        } else {
            seq![items.take(end)]
        }) + nonempty_parts(items.skip(end + 1), separator)
    }
}

/// What a list of owned byte strings holds.
pub open spec fn byte_views(list: Seq<Vec<u8>>) -> Seq<Seq<u8>> {
    list.map_values(|bytes: Vec<u8>| bytes@)
}

/// Splits at separators and drops empty parts.
pub fn split_nonempty(bytes: &[u8], separator: u8) -> (parts: Vec<Vec<u8>>)
    ensures
        byte_views(parts@) == nonempty_parts(bytes@, separator),
{
    let mut parts: Vec<Vec<u8>> = Vec::new();
    let mut start: usize = 0;
    assert(bytes@.skip(0) =~= bytes@);
    assert(byte_views(parts@) + nonempty_parts(bytes@.skip(0), separator) =~= nonempty_parts(
        bytes@,
        separator,
    ));
    while start < bytes.len()
        invariant
            start <= bytes@.len(),
            byte_views(parts@) + nonempty_parts(bytes@.skip(start as int), separator)
                == nonempty_parts(bytes@, separator),
        decreases bytes@.len() - start,
    {
        let rest = vstd::slice::slice_subrange(bytes, start, bytes.len());
        assert(rest@ =~= bytes@.skip(start as int));
        let ghost before = byte_views(parts@);
        let length: usize = find_byte(rest, separator);
        proof {
            lemma_first_index(rest@, separator);
        }
        if length > 0 {
            let part = vstd::slice::slice_to_vec(vstd::slice::slice_subrange(rest, 0, length));
            assert(part@ =~= rest@.take(length as int));
            parts.push(part);
            assert(byte_views(parts@) =~= before + seq![part@]);
        }
        if length < rest.len() {
            assert(rest@.skip(length + 1) =~= bytes@.skip(start + length + 1));
            assert(byte_views(parts@) + nonempty_parts(bytes@.skip(start + length + 1), separator)
                =~= before + nonempty_parts(rest@, separator));
            start = start + length + 1;
        } else {
            assert(rest@.take(length as int) =~= rest@);
            assert(bytes@.skip(bytes@.len() as int) =~= Seq::<u8>::empty());
            assert(byte_views(parts@) + nonempty_parts(
                bytes@.skip(bytes@.len() as int),
                separator,
            ) =~= before + nonempty_parts(rest@, separator));
            start = bytes.len();
        }
    }
    assert(bytes@.skip(start as int) =~= Seq::<u8>::empty());
    assert(byte_views(parts@) + nonempty_parts(bytes@.skip(start as int), separator)
        =~= byte_views(parts@));
    parts
}

/// Splits a text at separators and drops empty parts.
pub fn split_nonempty_chars(chars: &[char], separator: char) -> (parts: Vec<Vec<char>>)
    ensures
        views(parts@) == nonempty_parts(chars@, separator),
{
    let mut parts: Vec<Vec<char>> = Vec::new();
    let mut start: usize = 0;
    assert(chars@.skip(0) =~= chars@);
    assert(views(parts@) + nonempty_parts(chars@.skip(0), separator) =~= nonempty_parts(
        chars@,
        separator,
    ));
    while start < chars.len()
        invariant
            start <= chars@.len(),
            views(parts@) + nonempty_parts(chars@.skip(start as int), separator)
                == nonempty_parts(chars@, separator),
        decreases chars@.len() - start,
    {
        let rest = vstd::slice::slice_subrange(chars, start, chars.len());
        assert(rest@ =~= chars@.skip(start as int));
        let ghost before = views(parts@);
        let length: usize = find_char(rest, separator);
        proof {
            lemma_first_index(rest@, separator);
        }
        if length > 0 {
            let part = vstd::slice::slice_to_vec(vstd::slice::slice_subrange(rest, 0, length));
            assert(part@ =~= rest@.take(length as int));
            parts.push(part);
            assert(views(parts@) =~= before + seq![part@]);
        }
        if length < rest.len() {
            assert(rest@.skip(length + 1) =~= chars@.skip(start + length + 1));
            assert(views(parts@) + nonempty_parts(chars@.skip(start + length + 1), separator)
                =~= before + nonempty_parts(rest@, separator));
            start = start + length + 1;
        } else {
            assert(rest@.take(length as int) =~= rest@);
            assert(chars@.skip(chars@.len() as int) =~= Seq::<char>::empty());
            assert(views(parts@) + nonempty_parts(
                chars@.skip(chars@.len() as int),
                separator,
            ) =~= before + nonempty_parts(rest@, separator));
            start = chars.len();
        }
    }
    assert(chars@.skip(start as int) =~= Seq::<char>::empty());
    assert(views(parts@) + nonempty_parts(chars@.skip(start as int), separator)
        =~= views(parts@));
    parts
}

/// Bytes as lower-case hexadecimal digits.
pub open spec fn hex_text(bytes: Seq<u8>) -> Seq<char> {
    Seq::new(
        2 * bytes.len(),
        |i: int|
            if i % 2 == 0 {
                hex_digit(bytes[i / 2] as nat / 16)
            } else {
                hex_digit(bytes[i / 2] as nat % 16)
            },
    )
}

/// Writes bytes as hexadecimal digits.
pub fn hex(bytes: &[u8]) -> (result: String)
    ensures
        result@ == hex_text(bytes@),
{
    let mut output = String::new();
    let mut index: usize = 0;
    while index < bytes.len()
        invariant
            index <= bytes@.len(),
            output@ == hex_text(bytes@.take(index as int)),
        decreases bytes@.len() - index,
    {
        let ghost before = output@;
        output.push(hex_char(bytes[index] / 16));
        output.push(hex_char(bytes[index] % 16));
        proof {
            assert(output@ =~= hex_text(bytes@.take(index + 1))) by {
                assert forall|i: int| 0 <= i < 2 * index + 2 implies output@[i] == hex_text(
                    bytes@.take(index + 1),
                )[i] by {
                    if i < 2 * index {
                        assert(before[i] == hex_text(bytes@.take(index as int))[i]);
                        assert(bytes@.take(index + 1)[i / 2] == bytes@.take(index as int)[i / 2]);
                    }
                }
            }
        }
        index = index + 1;
    }
    assert(bytes@.take(index as int) =~= bytes@);
    output
}

/// The parts between separators, empty ones included.
pub open spec fn fields_of<T>(items: Seq<T>, separator: T) -> Seq<Seq<T>>
    decreases items.len(),
{
    let end = first_index(items, separator);
    if end < 0 || end >= items.len() {
        seq![items]
    } else {
        seq![items.take(end)] + fields_of(items.skip(end + 1), separator)
    }
}

/// Parts with a separator between each two.
pub open spec fn joined_fields<T>(parts: Seq<Seq<T>>, separator: T) -> Seq<T>
    decreases parts.len(),
{
    if parts.len() == 0 {
        Seq::empty()
    } else if parts.len() == 1 {
        parts[0]
    } else {
        joined_fields(parts.drop_last(), separator).push(separator) + parts.last()
    }
}

/// Splits a text at each separator.
pub fn split_fields(chars: &[char], separator: char) -> (parts: Vec<Vec<char>>)
    ensures
        views(parts@) == fields_of(chars@, separator),
        parts@.len() > 0,
{
    let mut parts: Vec<Vec<char>> = Vec::new();
    let mut start: usize = 0;
    assert(chars@.skip(0) =~= chars@);
    assert(views(parts@) + fields_of(chars@, separator) =~= fields_of(chars@, separator));
    loop
        invariant
            start <= chars@.len(),
            views(parts@) + fields_of(chars@.skip(start as int), separator) == fields_of(
                chars@,
                separator,
            ),
        decreases chars@.len() - start,
    {
        let rest = vstd::slice::slice_subrange(chars, start, chars.len());
        assert(rest@ =~= chars@.skip(start as int));
        let ghost before = views(parts@);
        let length: usize = find_char(rest, separator);
        let part = vstd::slice::slice_to_vec(vstd::slice::slice_subrange(rest, 0, length));
        assert(part@ =~= rest@.take(length as int));
        parts.push(part);
        assert(views(parts@) =~= before + seq![part@]);
        if length == rest.len() {
            assert(rest@.take(length as int) =~= rest@);
            return parts;
        }
        assert(rest@.skip(length + 1) =~= chars@.skip(start + length + 1));
        assert(views(parts@) + fields_of(chars@.skip(start + length + 1), separator) =~= before
            + fields_of(rest@, separator));
        start = start + length + 1;
    }
}

proof fn lemma_fields_push<T>(items: Seq<T>, separator: T, part: Seq<T>)
    requires
        !part.contains(separator),
    ensures
        fields_of(items.push(separator) + part, separator) == fields_of(items, separator).push(
            part,
        ),
    decreases items.len(),
{
    let whole = items.push(separator) + part;
    let end = first_index(items, separator);
    lemma_first_index(items, separator);
    if end >= items.len() {
        lemma_first_index_is(whole, separator, end);
        assert(whole.take(end) =~= items);
        assert(whole.skip(end + 1) =~= part);
        lemma_first_index(part, separator);
        assert(fields_of(part, separator) =~= seq![part]);
        assert(fields_of(whole, separator) =~= seq![items].push(part));
    } else {
        lemma_first_index_is(whole, separator, end);
        let rest = items.skip(end + 1);
        assert(whole.take(end) =~= items.take(end));
        assert(whole.skip(end + 1) =~= rest.push(separator) + part);
        lemma_fields_push(rest, separator, part);
        assert(fields_of(whole, separator) =~= fields_of(items, separator).push(part));
    }
}

/// Splitting joined parts gives the parts back.
pub proof fn joined_fields_round_trip<T>(parts: Seq<Seq<T>>, separator: T)
    requires
        parts.len() > 0,
        forall|i: int| 0 <= i < parts.len() ==> !(#[trigger] parts[i]).contains(separator),
    ensures
        fields_of(joined_fields(parts, separator), separator) == parts,
    decreases parts.len(),
{
    if parts.len() == 1 {
        let part = parts[0];
        lemma_first_index(part, separator);
        assert(fields_of(part, separator) =~= parts);
    } else {
        let shorter = parts.drop_last();
        assert forall|i: int| 0 <= i < shorter.len() implies !(#[trigger] shorter[i]).contains(
            separator,
        ) by {
            assert(shorter[i] == parts[i]);
        }
        joined_fields_round_trip(shorter, separator);
        assert(!parts[parts.len() - 1].contains(separator));
        lemma_fields_push(joined_fields(shorter, separator), separator, parts.last());
        assert(shorter.push(parts.last()) =~= parts);
    }
}

/// Joined parts hold nothing but the separators and what the parts hold.
pub proof fn lemma_joined_contains<T>(parts: Seq<Seq<T>>, separator: T, item: T)
    requires
        item != separator,
        forall|i: int| 0 <= i < parts.len() ==> !(#[trigger] parts[i]).contains(item),
    ensures
        !joined_fields(parts, separator).contains(item),
    decreases parts.len(),
{
    if parts.len() == 1 {
        assert(!parts[0].contains(item));
    } else if parts.len() > 1 {
        let shorter = parts.drop_last();
        assert forall|i: int| 0 <= i < shorter.len() implies !(#[trigger] shorter[i]).contains(
            item,
        ) by {
            assert(shorter[i] == parts[i]);
        }
        lemma_joined_contains(shorter, separator, item);
        assert(!parts[parts.len() - 1].contains(item));
        let start = joined_fields(shorter, separator);
        let whole = joined_fields(parts, separator);
        if whole.contains(item) {
            let i = choose|i: int| 0 <= i < whole.len() && whole[i] == item;
            if i < start.len() {
                assert(start[i] == item);
            } else if i > start.len() {
                assert(parts.last()[i - start.len() - 1] == item);
            }
        }
    }
}

/// How many characters stand before the first space.
pub open spec fn word_length(text: Seq<char>) -> int
    decreases text.len(),
{
    if text.len() == 0 || is_space(text[0]) {
        0
    } else {
        1 + word_length(text.drop_first())
    }
}

/// The words of a text: what stands between spaces.
pub open spec fn words_of(text: Seq<char>) -> Seq<Seq<char>>
    decreases text.len(),
{
    if text.len() == 0 {
        Seq::empty()
    } else if is_space(text[0]) {
        words_of(text.drop_first())
    } else {
        let end = word_length(text);
        if end <= 0 || end > text.len() {
            Seq::empty()
        } else {
            seq![text.take(end)] + words_of(text.skip(end))
        }
    }
}

proof fn lemma_word_length(text: Seq<char>, length: int)
    requires
        0 <= length <= text.len(),
        forall|i: int| 0 <= i < length ==> !is_space(#[trigger] text[i]),
        length < text.len() ==> is_space(text[length]),
    ensures
        word_length(text) == length,
    decreases text.len(),
{
    if length > 0 {
        let rest = text.drop_first();
        assert forall|i: int| 0 <= i < length - 1 implies !is_space(#[trigger] rest[i]) by {
            assert(rest[i] == text[i + 1]);
        }
        assert(!is_space(text[0]));
        lemma_word_length(rest, length - 1);
    }
}

/// Splits a text into words.
pub fn split_words(chars: &[char]) -> (words: Vec<Vec<char>>)
    ensures
        views(words@) == words_of(chars@),
{
    let mut words: Vec<Vec<char>> = Vec::new();
    let mut start: usize = 0;
    assert(chars@.skip(0) =~= chars@);
    assert(views(words@) + words_of(chars@) =~= words_of(chars@));
    while start < chars.len()
        invariant
            start <= chars@.len(),
            views(words@) + words_of(chars@.skip(start as int)) == words_of(chars@),
        decreases chars@.len() - start,
    {
        let ghost rest = chars@.skip(start as int);
        let ghost before = views(words@);
        if is_whitespace(chars[start]) {
            assert(rest.drop_first() =~= chars@.skip(start + 1));
            start = start + 1;
        } else {
            let mut end: usize = start + 1;
            while end < chars.len() && !is_whitespace(chars[end])
                invariant
                    start < end <= chars@.len(),
                    forall|i: int| start <= i < end ==> !is_space(#[trigger] chars@[i]),
                decreases chars@.len() - end,
            {
                end = end + 1;
            }
            proof {
                assert forall|i: int| 0 <= i < end - start implies !is_space(
                    #[trigger] rest[i],
                ) by {
                    assert(rest[i] == chars@[start + i]);
                }
                lemma_word_length(rest, end - start);
            }
            let word = vstd::slice::slice_to_vec(vstd::slice::slice_subrange(chars, start, end));
            assert(word@ =~= rest.take(end - start));
            assert(rest.skip(end - start) =~= chars@.skip(end as int));
            words.push(word);
            assert(views(words@) =~= before.push(word@));
            assert(views(words@) + words_of(chars@.skip(end as int)) =~= before + words_of(rest));
            start = end;
        }
    }
    assert(views(words@) + words_of(chars@.skip(start as int)) =~= views(words@));
    words
}

/// A number without the marks of base sixteen before it.
pub open spec fn without_hex_mark(text: Seq<char>) -> Seq<char>
    decreases text.len(),
{
    if text.len() >= 2 && text[0] == '0' && text[1] == 'x' {
        without_hex_mark(text.skip(2))
    } else {
        text
    }
}

/// Strips the marks of base sixteen.
pub fn trim_hex_mark(chars: &[char]) -> (result: Vec<char>)
    ensures
        result@ == without_hex_mark(chars@),
{
    let mut start: usize = 0;
    assert(chars@.skip(0) =~= chars@);
    while chars.len() - start >= 2 && chars[start] == '0' && chars[start + 1] == 'x'
        invariant
            start <= chars@.len(),
            without_hex_mark(chars@.skip(start as int)) == without_hex_mark(chars@),
        decreases chars@.len() - start,
    {
        assert(chars@.skip(start as int).skip(2) =~= chars@.skip(start + 2));
        start = start + 2;
    }
    let result = vstd::slice::slice_to_vec(
        vstd::slice::slice_subrange(chars, start, chars.len()),
    );
    assert(result@ =~= chars@.skip(start as int));
    result
}

/// What stands behind the last `separator`.
pub open spec fn after_last<T>(items: Seq<T>, separator: T) -> Option<Seq<T>>
    decreases items.len(),
{
    if items.len() == 0 {
        None
    } else if items.last() == separator {
        Some(Seq::empty())
    } else {
        match after_last(items.drop_last(), separator) {
            Some(rest) => Some(rest.push(items.last())),
            None => None,
        }
    }
}

/// What stands behind a separator without another one is what stands behind
/// the last.
pub proof fn lemma_after_last<T>(items: Seq<T>, separator: T, start: int)
    requires
        0 <= start <= items.len(),
        forall|i: int| start <= i < items.len() ==> items[i] != separator,
        start > 0 ==> items[start - 1] == separator,
    ensures
        after_last(items, separator) == (if start > 0 {
            Some(items.skip(start))
        } else {
            None
        }),
    decreases items.len(),
{
    if start < items.len() {
        let shorter = items.drop_last();
        assert forall|i: int| start <= i < shorter.len() implies shorter[i] != separator by {
            assert(shorter[i] == items[i]);
        }
        lemma_after_last(shorter, separator, start);
        if start > 0 {
            assert(shorter.skip(start).push(items.last()) =~= items.skip(start));
        }
    } else if start > 0 {
        assert(items.skip(start) =~= Seq::<T>::empty());
    }
}

pub proof fn lemma_after_last_is_shorter<T>(items: Seq<T>, separator: T)
    ensures
        after_last(items, separator) matches Some(rest) ==> rest.len() < items.len(),
    decreases items.len(),
{
    if items.len() > 0 {
        lemma_after_last_is_shorter(items.drop_last(), separator);
    }
}

/// Finds what stands behind the last `separator`.
pub fn split_last(chars: &[char], separator: char) -> (result: Option<Vec<char>>)
    ensures
        match result {
            Some(rest) => after_last(chars@, separator) == Some(rest@),
            None => after_last(chars@, separator) is None,
        },
{
    let mut start: usize = chars.len();
    while start > 0 && chars[start - 1] != separator
        invariant
            start <= chars@.len(),
            forall|i: int| start <= i < chars@.len() ==> chars@[i] != separator,
        decreases start,
    {
        start = start - 1;
    }
    proof {
        lemma_after_last(chars@, separator, start as int);
    }
    if start == 0 {
        return None;
    }
    let rest = vstd::slice::slice_to_vec(vstd::slice::slice_subrange(chars, start, chars.len()));
    assert(rest@ =~= chars@.skip(start as int));
    Some(rest)
}

/// Two texts of different lengths are not alike.
pub proof fn lemma_alike_length(left: Seq<char>, right: Seq<char>)
    ensures
        alike(left, right) ==> left.len() == right.len(),
{
    assert(left.map_values(|c: char| lower_char(c)).len() == left.len());
    assert(right.map_values(|c: char| lower_char(c)).len() == right.len());
}

/// Texts that are alike agree at each place but for the case.
pub proof fn lemma_alike_at(left: Seq<char>, right: Seq<char>, at: int)
    requires
        alike(left, right),
        0 <= at < right.len(),
    ensures
        left.len() == right.len(),
        lower_char(left[at]) == lower_char(right[at]),
{
    let lowered = left.map_values(|c: char| lower_char(c));
    let other = right.map_values(|c: char| lower_char(c));
    lemma_alike_length(left, right);
    assert(lowered[at] == other[at]);
}

/// Texts that agree at each place but for the case are alike.
pub proof fn lemma_alike_by_place(left: Seq<char>, right: Seq<char>)
    requires
        left.len() == right.len(),
        forall|i: int|
            0 <= i < left.len() ==> lower_char(#[trigger] left[i]) == lower_char(
                right[i],
            ),
    ensures
        alike(left, right),
{
    assert(left.map_values(|c: char| lower_char(c)) =~= right.map_values(
        |c: char| lower_char(c),
    ));
}

/// A number starts with a digit, and so with no sign.
pub proof fn lemma_first_digit(value: nat)
    ensures
        decimal(value).len() > 0,
        is_digit(decimal(value)[0]),
        decimal(value)[0] != '+',
{
    decimal_round_trip(value);
    assert(is_digit(decimal(value)[0]));
}

/// A number ends with its last digit, and what stands before that is a tenth of
/// it.
pub proof fn numbers_are_written_in_tens(value: nat, digit: nat)
    requires
        digit < 10,
    ensures
        decimal(digit) == seq!["0123456789"@[digit as int]],
        value > 0 ==> decimal(value * 10 + digit) == decimal(value).push(
            "0123456789"@[digit as int],
        ),
{
    reveal_strlit("0123456789");
    assert("0123456789"@[digit as int] == digit_char(digit)) by {
        assert(digit == 0 || digit == 1 || digit == 2 || digit == 3 || digit == 4 || digit == 5
            || digit == 6 || digit == 7 || digit == 8 || digit == 9);
    }
    assert(decimal(digit) =~= seq![digit_char(digit)]);
    assert((value * 10 + digit) / 10 == value);
    assert((value * 10 + digit) % 10 == digit);
}

/// A byte is two digits of base sixteen, the higher one first, in lower case.
pub proof fn bytes_are_written_in_lower_case(value: nat)
    requires
        value < 256,
    ensures
        hex_fixed(value, 2) == seq![
            "0123456789abcdef"@[value as int / 16],
            "0123456789abcdef"@[value as int % 16],
        ],
{
    reveal_strlit("0123456789abcdef");
    lemma_hex_digit_place(value / 16);
    lemma_hex_digit_place(value % 16);
    reveal_with_fuel(hex_fixed, 3);
    assert((value / 16) % 16 == value / 16);
    assert(hex_fixed(value, 2) =~= seq![hex_digit(value / 16), hex_digit(value % 16)]);
}

proof fn lemma_hex_digit_place(value: nat)
    requires
        value < 16,
    ensures
        hex_digit(value) == "0123456789abcdef"@[value as int],
{
    reveal_strlit("0123456789abcdef");
    assert(value == 0 || value == 1 || value == 2 || value == 3 || value == 4 || value == 5 || value
        == 6 || value == 7 || value == 8 || value == 9 || value == 10 || value == 11 || value == 12
        || value == 13 || value == 14 || value == 15);
}

/// Bytes are written one after another, each as its two digits.
pub proof fn each_byte_has_two_digits(bytes: Seq<u8>, index: int)
    requires
        0 <= index < bytes.len(),
    ensures
        hex_text(bytes).len() == 2 * bytes.len(),
        hex_text(bytes)[2 * index] == "0123456789abcdef"@[bytes[index] as int / 16],
        hex_text(bytes)[2 * index + 1] == "0123456789abcdef"@[bytes[index] as int % 16],
{
    let byte = bytes[index];
    lemma_hex_digit_place(byte as nat / 16);
    lemma_hex_digit_place(byte as nat % 16);
}

/// Whether two characters are the same but for the case of an ASCII letter.
pub open spec fn same_letter(left: char, right: char) -> bool {
    ||| left == right
    ||| 'a' <= left <= 'z' && right as int == left as int - 32
    ||| 'A' <= left <= 'Z' && right as int == left as int + 32
}

proof fn lemma_same_letter(left: char, right: char)
    ensures
        lower_char(left) == lower_char(right) <==> same_letter(left, right),
{
}

/// Texts are alike where they have the same characters in the same places, but
/// for the case of ASCII letters.
pub proof fn only_the_case_may_differ(left: Seq<char>, right: Seq<char>)
    ensures
        alike(left, right) <==> left.len() == right.len() && (forall|i: int|
            0 <= i < left.len() ==> same_letter(#[trigger] left[i], right[i])),
{
    lemma_alike_length(left, right);
    if alike(left, right) {
        assert forall|i: int| 0 <= i < left.len() implies same_letter(#[trigger] left[i], right[i]) by {
            lemma_alike_at(left, right, i);
            lemma_same_letter(left[i], right[i]);
        }
    }
    if left.len() == right.len() && (forall|i: int|
        0 <= i < left.len() ==> same_letter(#[trigger] left[i], right[i])) {
        assert forall|i: int| 0 <= i < left.len() implies lower_char(#[trigger] left[i])
            == lower_char(right[i]) by {
            lemma_same_letter(left[i], right[i]);
        }
        lemma_alike_by_place(left, right);
    }
}

/// Space around a text is cut off, on either side and as much as there is.
pub proof fn space_around_is_cut(front: char, text: Seq<char>, back: char)
    requires
        front == ' ' || front == '\t' || front == '\n' || front == '\r',
        back == ' ' || back == '\t' || back == '\n' || back == '\r',
    ensures
        trimmed(seq![front] + text) == trimmed(text),
        trimmed(text.push(back)) == trimmed(text),
{
    let longer = seq![front] + text;
    assert(is_space(front) && is_space(back));
    assert(longer[0] == front);
    assert(longer.drop_first() =~= text);
    lemma_space_behind(text, back);
}

proof fn lemma_space_behind(text: Seq<char>, back: char)
    requires
        is_space(back),
    ensures
        trimmed(text.push(back)) == trimmed(text),
    decreases text.len(),
{
    let longer = text.push(back);
    if text.len() == 0 {
        assert(longer[0] == back);
        assert(longer.drop_first() =~= text);
    } else if is_space(text[0]) {
        assert(longer[0] == text[0]);
        assert(longer.drop_first() =~= text.drop_first().push(back));
        lemma_space_behind(text.drop_first(), back);
    } else {
        assert(longer[0] == text[0]);
        assert(trimmed_start(longer) == longer);
        assert(longer.last() == back);
        assert(longer.drop_last() =~= text);
    }
}

/// A text that starts and ends with a letter, a digit or a sign stays as it is.
pub proof fn plain_ends_stay(text: Seq<char>)
    requires
        text.len() > 0,
        '!' <= text[0] <= '~',
        '!' <= text.last() <= '~',
    ensures
        trimmed(text) == text,
{
    assert(!is_space(text[0]));
    assert(!is_space(text.last()));
}

/// Words stand between spaces and tabs.
pub proof fn words_stand_between_spaces(word: Seq<char>, separator: char, rest: Seq<char>)
    requires
        word.len() > 0,
        forall|i: int| 0 <= i < word.len() ==> '!' <= #[trigger] word[i] <= '~',
        separator == ' ' || separator == '\t',
    ensures
        words_of(word) == seq![word],
        words_of(word + seq![separator] + rest) == seq![word] + words_of(rest),
        words_of(seq![separator] + rest) == words_of(rest),
{
    let gap = seq![separator] + rest;
    let all = word + seq![separator] + rest;
    assert(is_space(separator));
    assert(gap[0] == separator);
    assert(gap.drop_first() =~= rest);
    lemma_word_end(word, Seq::empty());
    assert(word + Seq::<char>::empty() =~= word);
    assert(word.take(word.len() as int) =~= word);
    assert(word.skip(word.len() as int) =~= Seq::<char>::empty());
    assert(words_of(word.skip(word.len() as int)) =~= Seq::<Seq<char>>::empty());
    assert('!' <= word[0] <= '~');
    assert(!is_space(word[0]));
    assert(words_of(word) =~= seq![word]);
    lemma_word_end(word, gap);
    assert(all =~= word + gap);
    assert(all[0] == word[0]);
    assert(all.take(word.len() as int) =~= word);
    assert(all.skip(word.len() as int) =~= gap);
    assert(words_of(gap) == words_of(rest));
    assert(word_length(all) == word.len());
    assert(words_of(all) == seq![all.take(word.len() as int)] + words_of(gap));
}

proof fn lemma_word_end(word: Seq<char>, rest: Seq<char>)
    requires
        forall|i: int| 0 <= i < word.len() ==> '!' <= #[trigger] word[i] <= '~',
        rest.len() > 0 ==> is_space(rest[0]),
    ensures
        word_length(word + rest) == word.len(),
    decreases word.len(),
{
    let all = word + rest;
    if word.len() == 0 {
        assert(all =~= rest);
    } else {
        assert('!' <= word[0] <= '~');
        assert(all[0] == word[0]);
        let later = word.drop_first();
        assert forall|i: int| 0 <= i < later.len() implies '!' <= #[trigger] later[i] <= '~' by {
            assert(later[i] == word[i + 1]);
        }
        lemma_word_end(later, rest);
        assert(all.drop_first() =~= later + rest);
    }
}

/// A line ends at a line feed, and a carriage return before that belongs to the
/// ending.
pub proof fn lines_end_at_line_feeds(line: Seq<char>, rest: Seq<char>)
    requires
        !line.contains('\n'),
        line.len() > 0 ==> line.last() != '\r',
    ensures
        lines_of(line + seq!['\n'] + rest) == seq![line] + lines_of(rest),
        lines_of(line + seq!['\r', '\n'] + rest) == seq![line] + lines_of(rest),
        line.len() > 0 ==> lines_of(line) == seq![line],
{
    let plain = line + seq!['\n'] + rest;
    let long = line + seq!['\r', '\n'] + rest;
    assert forall|i: int| 0 <= i < line.len() implies line[i] != '\n' by {
        assert(line.contains(line[i]));
    }
    assert forall|i: int| 0 <= i < line.len() implies plain[i] != '\n' by {
        assert(plain[i] == line[i]);
    }
    assert forall|i: int| 0 <= i < line.len() + 1 implies long[i] != '\n' by {
        if i < line.len() {
            assert(long[i] == line[i]);
        }
    }
    lemma_first_index_is(plain, '\n', line.len() as int);
    lemma_first_index_is(long, '\n', line.len() as int + 1);
    lemma_first_index_is(line, '\n', line.len() as int);
    assert(plain.take(line.len() as int) =~= line);
    assert(plain.skip(line.len() as int + 1) =~= rest);
    assert(long.take(line.len() as int + 1) =~= line.push('\r'));
    assert(line.push('\r').drop_last() =~= line);
    assert(long.skip(line.len() as int + 2) =~= rest);
}

/// A number is nothing but digits, with a plus sign before them at most. Other
/// texts are no numbers, and neither are those above the limit.
pub proof fn numbers_are_nothing_but_digits(text: Seq<char>, limit: nat, at: int)
    requires
        0 <= at < text.len(),
        !('0' <= text[at] <= '9'),
        at > 0 || text[0] != '+',
    ensures
        parsed_decimal(text, limit) is None,
        parsed_decimal(Seq::empty(), limit) is None,
        parsed_decimal(seq!['+'], limit) is None,
{
    assert(!is_digit(text[at]));
    if text[0] == '+' {
        assert(text.drop_first()[at - 1] == text[at]);
    }
    assert(seq!['+'].drop_first() =~= Seq::<char>::empty());
}

/// A start is cut off where it is there, and an end likewise.
pub proof fn starts_and_ends_are_cut(start: Seq<char>, middle: Seq<char>)
    ensures
        after_prefix(start + middle, start) == Some(middle),
        before_suffix(middle + start, start) == Some(middle),
{
    assert((start + middle).take(start.len() as int) =~= start);
    assert((start + middle).skip(start.len() as int) =~= middle);
    let all = middle + start;
    assert(all.skip(all.len() - start.len()) =~= start);
    assert(all.take(all.len() - start.len()) =~= middle);
}

/// Byte strings are alike where they have the same bytes in the same places, but
/// for the case of ASCII letters.
pub proof fn only_the_case_of_bytes_may_differ(left: Seq<u8>, right: Seq<u8>)
    ensures
        bytes_alike(left, right) <==> left.len() == right.len() && (forall|i: int|
            0 <= i < left.len() ==> (#[trigger] left[i] == right[i] || 'a' as u8 <= left[i] <= 'z' as u8
                && right[i] == left[i] - 32 || 'A' as u8 <= left[i] <= 'Z' as u8 && right[i]
                == left[i] + 32)),
{
    let lowered = left.map_values(|byte: u8| lower_byte(byte));
    let other = right.map_values(|byte: u8| lower_byte(byte));
    if bytes_alike(left, right) {
        assert(lowered.len() == left.len() && other.len() == right.len());
        assert forall|i: int| 0 <= i < left.len() implies (#[trigger] left[i] == right[i] || 'a' as u8
            <= left[i] <= 'z' as u8 && right[i] == left[i] - 32 || 'A' as u8 <= left[i] <= 'Z' as u8
            && right[i] == left[i] + 32) by {
            assert(lowered[i] == other[i]);
        }
    }
    if left.len() == right.len() && (forall|i: int|
        0 <= i < left.len() ==> (#[trigger] left[i] == right[i] || 'a' as u8 <= left[i] <= 'z' as u8
            && right[i] == left[i] - 32 || 'A' as u8 <= left[i] <= 'Z' as u8 && right[i] == left[i]
            + 32)) {
        assert forall|i: int| 0 <= i < left.len() implies lowered[i] == other[i] by {
            assert(left[i] == right[i] || left[i] != right[i]);
        }
        assert(lowered =~= other);
    }
}

} // verus!
