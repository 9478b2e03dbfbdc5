//! Text: characters, numerals and their readings.

use vstd::prelude::*;
use vstd::string::*;
use vstd::utf8::*;

verus! {

/// `String::push` appends one character to the string, as its documentation says.
pub assume_specification[ std::string::String::push ](
    text: &mut std::string::String,
    character: char,
)
    ensures
        final(text)@ == old(text)@.push(character),
;

/// The text that `String::from_utf8_lossy` makes of bytes.
pub uninterp spec fn utf8_lossy(bytes: Seq<u8>) -> Seq<char>;

/// The text of bytes, with replacement characters where they are not valid UTF-8, by
/// `String::from_utf8_lossy`. Of bytes that are valid UTF-8 the text is what they encode; which
/// replacement characters stand for other bytes is not stated.
#[verifier::external_body]
pub(crate) fn lossy_text(bytes: &[u8]) -> (r: String)
    ensures
        r@ == utf8_lossy(bytes@),
        valid_utf8(bytes@) ==> r@ == decode_utf8(bytes@),
{
    String::from_utf8_lossy(bytes).into_owned()
}

/// The characters of each string.
pub open spec fn texts(strings: Seq<String>) -> Seq<Seq<char>> {
    strings.map_values(|string: String| string@)
}

/// The characters of an optional string.
pub open spec fn opt_text(text: Option<String>) -> Option<Seq<char>> {
    match text {
        Some(text) => Some(text@),
        None => None,
    }
}

/// A copy of an optional string.
pub fn copy_text(text: &Option<String>) -> (r: Option<String>)
    ensures
        opt_text(r) == opt_text(*text),
{
    match text {
        Some(text) => Some(text.clone()),
        None => None,
    }
}

/// The characters of an optional string slice.
pub open spec fn opt_str(text: Option<&str>) -> Option<Seq<char>> {
    match text {
        Some(text) => Some(text@),
        None => None,
    }
}

/// The characters of a string, in order.
pub fn chars_of(text: &str) -> (r: Vec<char>)
    ensures
        r@ == text@,
{
    let mut chars: Vec<char> = Vec::new();
    for character in it: text.chars()
        invariant
            it.seq() == text@,
            chars@ == text@.take(it.index() as int),
    {
        proof {
            let at = it.index() as int;
            assert(text@.take(at + 1) =~= text@.take(at).push(text@[at]));
        }
        chars.push(character);
    }
    assert(text@.take(text@.len() as int) =~= text@);
    chars
}

/// The string made of the given characters.
pub fn string_of(chars: &[char]) -> (r: String)
    ensures
        r@ == chars@,
{
    let mut text = String::new();
    push_chars(&mut text, chars);
    text
}

/// Appends characters to a string.
pub fn push_chars(text: &mut String, chars: &[char])
    ensures
        final(text)@ == old(text)@ + chars@,
{
    let mut index: usize = 0;
    while index < chars.len()
        invariant
            index <= chars@.len(),
            text@ == old(text)@ + chars@.take(index as int),
        decreases chars@.len() - index,
    {
        text.push(chars[index]);
        assert(chars@.take(index + 1) =~= chars@.take(index as int).push(chars@[index as int]));
        index += 1;
    }
    assert(chars@.take(chars@.len() as int) =~= chars@);
}

/// Whether two strings hold the same characters.
pub fn same_text(left: &str, right: &str) -> (r: bool)
    ensures
        r == (left@ == right@),
{
    let a = left.as_bytes();
    let b = right.as_bytes();
    proof {
        encode_utf8_decode_utf8(left@);
        encode_utf8_decode_utf8(right@);
    }
    if a.len() != b.len() {
        return false;
    }
    let mut index: usize = 0;
    while index < a.len()
        invariant
            a@ == encode_utf8(left@),
            b@ == encode_utf8(right@),
            a@.len() == b@.len(),
            index <= a@.len(),
            forall|i: int| 0 <= i < index ==> a@[i] == b@[i],
        decreases a@.len() - index,
    {
        if a[index] != b[index] {
            return false;
        }
        index += 1;
    }
    assert(a@ =~= b@);
    true
}

/// The character that writes the digit `digit`: `0` to `9`, then `a` to `f`.
pub open spec fn digit_char(digit: nat) -> char {
    if digit < 10 {
        (48 + digit) as char
    } else {
        (87 + digit) as char
    }
}

/// The numeral of `value` in base `base`, most significant digit first, without leading zeros.
pub open spec fn numeral(value: nat, base: nat) -> Seq<char>
    decreases value,
{
    if base < 2 || value < base {
        seq![digit_char(value)]
    } else {
        proof {
            assert(value / base < value) by (nonlinear_arith)
                requires
                    2 <= base <= value,
            ;
        }
        numeral(value / base, base).push(digit_char(value % base))
    }
}

/// The decimal numeral of a natural number.
pub open spec fn decimal(value: nat) -> Seq<char> {
    numeral(value, 10)
}

/// The decimal numeral of an integer, with a minus sign where it is negative.
pub open spec fn signed_decimal(value: int) -> Seq<char> {
    if value < 0 {
        seq!['-'] + decimal((-value) as nat)
    } else {
        decimal(value as nat)
    }
}

/// `text` behind as many zeros as it takes to reach `width` characters.
pub open spec fn zero_padded(text: Seq<char>, width: nat) -> Seq<char> {
    if text.len() >= width {
        text
    } else {
        Seq::new((width - text.len()) as nat, |i: int| '0') + text
    }
}

/// The character that writes a digit below 16.
pub fn digit_to_char(digit: u8) -> (r: char)
    requires
        digit < 16,
    ensures
        r == digit_char(digit as nat),
{
    if digit < 10 {
        (48 + digit) as char
    } else {
        (87 + digit) as char
    }
}

/// Appends the numeral of `value` in base `base`.
pub fn push_numeral(text: &mut String, value: u128, base: u8)
    requires
        2 <= base <= 16,
    ensures
        final(text)@ == old(text)@ + numeral(value as nat, base as nat),
    decreases value,
{
    let wide: u128 = base as u128;
    if value < wide {
        text.push(digit_to_char(value as u8));
        assert(text@ =~= old(text)@ + numeral(value as nat, base as nat));
    } else {
        assert(value / wide < value) by (nonlinear_arith)
            requires
                2 <= wide,
                wide <= value,
        ;
        push_numeral(text, value / wide, base);
        text.push(digit_to_char((value % wide) as u8));
        assert(text@ =~= old(text)@ + numeral(value as nat, base as nat));
    }
}

/// The numeral of `value` in base `base`.
pub fn render_numeral(value: u128, base: u8) -> (r: String)
    requires
        2 <= base <= 16,
    ensures
        r@ == numeral(value as nat, base as nat),
{
    let mut text = String::new();
    push_numeral(&mut text, value, base);
    text
}

/// The decimal numeral of an unsigned number.
pub fn render_decimal(value: u64) -> (r: String)
    ensures
        r@ == decimal(value as nat),
{
    render_numeral(value as u128, 10)
}

/// The decimal numeral of a signed number.
pub fn render_signed(value: i64) -> (r: String)
    ensures
        r@ == signed_decimal(value as int),
{
    let mut text = String::new();
    let wide: i128 = value as i128;
    if wide < 0 {
        text.push('-');
        push_numeral(&mut text, (-wide) as u128, 10);
        assert(text@ =~= seq!['-'] + decimal((-value) as nat));
    } else {
        push_numeral(&mut text, wide as u128, 10);
    }
    text
}

/// Appends `part` behind the zeros that bring it to `width` characters.
pub fn push_zero_padded(text: &mut String, part: &str, width: usize)
    ensures
        final(text)@ == old(text)@ + zero_padded(part@, width as nat),
{
    let length = part.unicode_len();
    if length < width {
        let missing: usize = width - length;
        let mut count: usize = 0;
        while count < missing
            invariant
                count <= missing,
                text@ == old(text)@ + Seq::new(count as nat, |i: int| '0'),
            decreases missing - count,
        {
            text.push('0');
            count += 1;
            assert(text@ =~= old(text)@ + Seq::new(count as nat, |i: int| '0'));
        }
        text.append(part);
        assert(text@ =~= old(text)@ + zero_padded(part@, width as nat));
    } else {
        text.append(part);
    }
}

/// The value that a decimal digit stands for.
pub open spec fn digit_value(character: char) -> nat {
    (character as nat - 48) as nat
}

pub open spec fn is_decimal_digit(character: char) -> bool {
    '0' <= character <= '9'
}

pub open spec fn all_digits(text: Seq<char>) -> bool {
    forall|i: int| 0 <= i < text.len() ==> is_decimal_digit(#[trigger] text[i])
}

/// The number that a run of decimal digits writes.
pub open spec fn digits_value(text: Seq<char>) -> nat
    decreases text.len(),
{
    if text.len() == 0 {
        0
    } else {
        digits_value(text.drop_last()) * 10 + digit_value(text.last())
    }
}

/// The reading of an unsigned decimal number of at most `max`: one or more digits, behind at most
/// one plus sign.
pub open spec fn read_unsigned(text: Seq<char>, max: nat) -> Option<nat> {
    let body = if text.len() > 0 && text[0] == '+' {
        text.skip(1)
    } else {
        text
    };
    if body.len() > 0 && all_digits(body) && digits_value(body) <= max {
        Some(digits_value(body))
    } else {
        None
    }
}

proof fn lemma_digits_value_grows(text: Seq<char>, length: int)
    requires
        0 <= length <= text.len(),
    ensures
        digits_value(text.take(length)) <= digits_value(text),
    decreases text.len(),
{
    if length == text.len() {
        assert(text.take(length) =~= text);
    } else {
        assert(text.drop_last().take(length) =~= text.take(length));
        lemma_digits_value_grows(text.drop_last(), length);
    }
}

/// Reads an unsigned decimal number of at most `max`.
pub fn parse_unsigned(text: &[char], max: u64) -> (r: Option<u64>)
    ensures
        match r {
            Some(value) => read_unsigned(text@, max as nat) == Some(value as nat),
            None => read_unsigned(text@, max as nat) is None,
        },
{
    let start: usize = if text.len() > 0 && text[0] == '+' {
        1
    } else {
        0
    };
    let ghost body = text@.skip(start as int);
    assert(text@.skip(0) =~= text@);
    if start == text.len() {
        return None;
    }
    let mut value: u64 = 0;
    let mut index: usize = start;
    while index < text.len()
        invariant
            start <= index <= text@.len(),
            body == text@.skip(start as int),
            body.len() > 0,
            body == (if text@.len() > 0 && text@[0] == '+' {
                text@.skip(1)
            } else {
                text@
            }),
            value <= max,
            value == digits_value(body.take(index - start)),
            forall|i: int| 0 <= i < index - start ==> is_decimal_digit(#[trigger] body[i]),
        decreases text@.len() - index,
    {
        let character = text[index];
        assert(character == body[index - start]);
        if character < '0' || character > '9' {
            assert(!is_decimal_digit(body[index - start]));
            return None;
        }
        let digit: u64 = (character as u32 - 48) as u64;
        let next: u128 = value as u128 * 10 + digit as u128;
        proof {
            let shorter = body.take(index - start);
            let longer = body.take(index - start + 1);
            assert(longer.drop_last() =~= shorter);
            assert(longer.last() == character);
            assert(next == digits_value(longer));
            lemma_digits_value_grows(body, index - start + 1);
        }
        if next > max as u128 {
            return None;
        }
        value = next as u64;
        index += 1;
    }
    assert(body.take(index - start) =~= body);
    Some(value)
}

/// Reads a token as an unsigned 32-bit decimal number.
pub fn parse_u32(text: &str) -> (r: Option<u32>)
    ensures
        match r {
            Some(value) => read_unsigned(text@, u32::MAX as nat) == Some(value as nat),
            None => read_unsigned(text@, u32::MAX as nat) is None,
        },
{
    let chars = chars_of(text);
    match parse_unsigned(chars.as_slice(), u32::MAX as u64) {
        Some(value) => Some(value as u32),
        None => None,
    }
}

proof fn lemma_decimal_digits(value: nat)
    ensures
        decimal(value).len() > 0,
        all_digits(decimal(value)),
        digits_value(decimal(value)) == value,
    decreases value,
{
    let text = decimal(value);
    if value < 10 {
        assert(text =~= seq![digit_char(value)]);
        assert(text.drop_last() =~= Seq::empty());
        reveal_with_fuel(digits_value, 2);
    } else {
        let front = decimal(value / 10);
        lemma_decimal_digits(value / 10);
        assert(text =~= front.push(digit_char(value % 10)));
        assert(text.drop_last() =~= front);
        assert forall|i: int| 0 <= i < text.len() implies is_decimal_digit(#[trigger] text[i]) by {
            if i < front.len() {
                assert(text[i] == front[i]);
            }
        }
    }
}

/// The decimal numeral of a number reads as the number.
pub proof fn reading_undoes_rendering(value: nat, max: nat)
    requires
        value <= max,
    ensures
        read_unsigned(decimal(value), max) == Some(value),
        all_digits(decimal(value)),
        decimal(value).len() > 0,
{
    lemma_decimal_digits(value);
    assert(is_decimal_digit(decimal(value)[0]));
}

/// The value of a digit: of `0` to `9`, and of `a` to `f` or `A` to `F` behind them.
pub open spec fn char_digit(character: char) -> int {
    if '0' <= character <= '9' {
        character as int - '0' as int
    } else if 'a' <= character <= 'f' {
        character as int - 'a' as int + 10
    } else if 'A' <= character <= 'F' {
        character as int - 'A' as int + 10
    } else {
        16
    }
}

/// Every character is a digit of the base.
pub open spec fn is_numeral(text: Seq<char>, base: int) -> bool {
    text.len() > 0 && forall|i: int|
        0 <= i < text.len() ==> 0 <= char_digit(#[trigger] text[i]) < base
}

/// The number that a numeral writes, by its digits.
pub open spec fn numeral_value(text: Seq<char>, base: int) -> int {
    text.fold_left(0int, |value: int, character: char| value * base + char_digit(character))
}

proof fn lemma_numeral_value_push(text: Seq<char>, character: char, base: int)
    ensures
        numeral_value(text.push(character), base) == numeral_value(text, base) * base + char_digit(
            character,
        ),
{
    assert(text.push(character).drop_last() =~= text);
    reveal_with_fuel(Seq::fold_left, 2);
}

proof fn lemma_numeral_value_one(character: char, base: int)
    ensures
        numeral_value(seq![character], base) == char_digit(character),
{
    let none = Seq::<char>::empty();
    reveal_with_fuel(Seq::fold_left, 2);
    lemma_numeral_value_push(none, character, base);
    assert(none.push(character) =~= seq![character]);
    assert(0 * base == 0) by (nonlinear_arith);
}

/// A numeral reads as the number that it was written for, and starts with no needless zero.
pub proof fn numerals_read_back(value: nat, base: nat)
    requires
        2 <= base <= 16,
    ensures
        is_numeral(numeral(value, base), base as int),
        numeral_value(numeral(value, base), base as int) == value,
        numeral(value, base).len() > 1 ==> numeral(value, base)[0] != '0',
    decreases value,
{
    let text = numeral(value, base);
    if value < base {
        assert(text =~= seq![digit_char(value)]);
        lemma_numeral_value_one(digit_char(value), base as int);
    } else {
        assert(0 < value / base < value) by (nonlinear_arith)
            requires
                2 <= base <= value,
        ;
        let front = numeral(value / base, base);
        let low = value % base;
        assert(low < base) by (nonlinear_arith)
            requires
                low == value % base,
                base > 0,
        ;
        numerals_read_back(value / base, base);
        lemma_numeral_value_push(front, digit_char(low), base as int);
        vstd::arithmetic::div_mod::lemma_fundamental_div_mod(value as int, base as int);
        assert((value / base) as int * base as int == base as int * (value / base) as int)
            by (nonlinear_arith);
        assert forall|i: int| 0 <= i < text.len() implies 0 <= char_digit(#[trigger] text[i])
            < base by {
            if i < front.len() {
                assert(text[i] == front[i]);
            }
        }
        assert(text[0] == front[0]);
        if front.len() == 1 && front[0] == '0' {
            assert(front =~= seq![front[0]]);
            lemma_numeral_value_one(front[0], base as int);
        }
    }
}

proof fn lemma_zeros_before(count: nat, text: Seq<char>, base: int)
    ensures
        numeral_value(Seq::new(count, |i: int| '0') + text, base) == numeral_value(text, base),
    decreases text.len(),
{
    let zeros = Seq::new(count, |i: int| '0');
    if text.len() == 0 {
        assert(zeros + text =~= zeros);
        lemma_zeros_are_zero(count, base);
        reveal_with_fuel(Seq::fold_left, 2);
    } else {
        let front = text.drop_last();
        lemma_zeros_before(count, front, base);
        assert(zeros + text =~= (zeros + front).push(text.last()));
        assert(text =~= front.push(text.last()));
        lemma_numeral_value_push(zeros + front, text.last(), base);
        lemma_numeral_value_push(front, text.last(), base);
    }
}

proof fn lemma_zeros_are_zero(count: nat, base: int)
    ensures
        numeral_value(Seq::new(count, |i: int| '0'), base) == 0,
    decreases count,
{
    let zeros = Seq::new(count, |i: int| '0');
    if count > 0 {
        let less = Seq::new((count - 1) as nat, |i: int| '0');
        lemma_zeros_are_zero((count - 1) as nat, base);
        assert(zeros =~= less.push('0'));
        lemma_numeral_value_push(less, '0', base);
        assert(0 * base == 0) by (nonlinear_arith);
    } else {
        assert(zeros =~= Seq::empty());
        reveal_with_fuel(Seq::fold_left, 2);
    }
}

/// Zeros before a numeral bring it to the width, if it is shorter, and leave its number as it is.
pub proof fn padding_keeps_the_number(text: Seq<char>, width: nat, base: int)
    requires
        2 <= base <= 16,
        is_numeral(text, base),
    ensures
        is_numeral(zero_padded(text, width), base),
        numeral_value(zero_padded(text, width), base) == numeral_value(text, base),
        zero_padded(text, width).len() == vstd::math::max(text.len() as int, width as int),
{
    let padded = zero_padded(text, width);
    if text.len() < width {
        let count = (width - text.len()) as nat;
        lemma_zeros_before(count, text, base);
        assert forall|i: int| 0 <= i < padded.len() implies 0 <= char_digit(#[trigger] padded[i])
            < base by {
            if i >= count {
                assert(padded[i] == text[i - count]);
            }
        }
    }
}

/// A decimal numeral as it is read: digits, behind a minus sign where the number is negative.
pub open spec fn writes_integer(text: Seq<char>, value: int) -> bool {
    if text.len() > 0 && text[0] == '-' {
        is_numeral(text.skip(1), 10) && value == -numeral_value(text.skip(1), 10)
    } else {
        is_numeral(text, 10) && value == numeral_value(text, 10)
    }
}

/// The decimal numeral of an integer reads as the integer.
pub proof fn signed_numerals_read_back(value: int)
    ensures
        writes_integer(signed_decimal(value), value),
{
    if value < 0 {
        numerals_read_back((-value) as nat, 10);
        assert(signed_decimal(value).skip(1) =~= decimal((-value) as nat));
    } else {
        numerals_read_back(value as nat, 10);
        assert(0 <= char_digit(decimal(value as nat)[0]) < 10);
    }
}

proof fn lemma_digits_value(text: Seq<char>)
    requires
        all_digits(text),
    ensures
        digits_value(text) == numeral_value(text, 10),
    decreases text.len(),
{
    reveal_with_fuel(Seq::fold_left, 2);
    if text.len() > 0 {
        let front = text.drop_last();
        assert forall|i: int| 0 <= i < front.len() implies is_decimal_digit(#[trigger] front[i]) by {
            assert(is_decimal_digit(text[i]));
        }
        lemma_digits_value(front);
        lemma_numeral_value_push(front, text.last(), 10);
        assert(text =~= front.push(text.last()));
        assert(is_decimal_digit(text[text.len() - 1]));
    }
}

/// A number is read from decimal digits, of which there must be one, and from nothing else but a
/// plus sign before them. It is the number that they write, if that is not too large.
pub proof fn numbers_are_read_by_their_digits(text: Seq<char>, max: nat)
    ensures
        is_numeral(text, 10) && numeral_value(text, 10) <= max ==> read_unsigned(text, max) == Some(
            numeral_value(text, 10) as nat,
        ),
        is_numeral(text, 10) && numeral_value(text, 10) > max ==> read_unsigned(text, max) is None,
        text.len() > 0 && text[0] == '+' ==> read_unsigned(text, max) == (if is_numeral(
            text.skip(1),
            10,
        ) {
            read_unsigned(text.skip(1), max)
        } else {
            None
        }),
        !is_numeral(text, 10) && !(text.len() > 0 && text[0] == '+') ==> read_unsigned(text, max)
            is None,
{
    lemma_all_digits(text);
    lemma_all_digits(text.skip(1));
    if all_digits(text) {
        lemma_digits_value(text);
    }
    if text.len() > 0 && text[0] == '+' {
        assert(!is_decimal_digit(text[0]));
        if text.len() > 1 {
            assert(is_numeral(text.skip(1), 10) ==> char_digit(text.skip(1)[0]) < 10);
        }
    }
}

proof fn lemma_all_digits(text: Seq<char>)
    ensures
        text.len() > 0 ==> all_digits(text) == is_numeral(text, 10),
{
    if text.len() > 0 {
        if all_digits(text) {
            assert forall|i: int| 0 <= i < text.len() implies 0 <= char_digit(#[trigger] text[i])
                < 10 by {
                assert(is_decimal_digit(text[i]));
            }
        }
        if is_numeral(text, 10) {
            assert forall|i: int| 0 <= i < text.len() implies is_decimal_digit(
                #[trigger] text[i],
            ) by {
                lemma_digit(text[i]);
            }
        }
    }
}

proof fn lemma_digit(character: char)
    requires
        0 <= char_digit(character) < 10,
    ensures
        is_decimal_digit(character),
{
}

} // verus!
