//! What the texts that `snmptrapd` prints tell of the values.

use crate::display::{
    ascii_text, bit_is_set, bit_weight, escaped, hex_address, hex_dump, hinted_integer,
    hinted_octets, is_printable, label_from, label_of, shown_bits, shown_integer, shown_object,
    shown_octets, shown_set_bits, shown_timeticks, shown_value, upper_hex, with_decimals,
    BaseSyntax, SyntaxView,
};
use crate::laws::forms::addresses_read_back;
use crate::mib::laws::resolutions_tell_the_whole_identifier;
use crate::mib::resolver::{numeric_oid, resolve_text};
use crate::mib::table::SymbolView;
use crate::model::{NetworkAddress, ObjectView, OidView, UnknownView, VarBindView};
use crate::text::{
    char_digit, decimal, digit_char, is_numeral, numeral, numeral_value, numerals_read_back,
    padding_keeps_the_number, read_unsigned, signed_numerals_read_back, writes_integer, zero_padded,
};
use vstd::prelude::*;
use vstd::string::*;

verus! {

/// The character is a decimal digit or an upper-case hexadecimal one.
pub open spec fn is_upper_digit(character: char) -> bool {
    '0' <= character <= '9' || 'A' <= character <= 'F'
}

/// Two upper-case hexadecimal digits that write the octet.
pub open spec fn writes_octet(high: char, low: char, octet: u8) -> bool {
    &&& is_upper_digit(high)
    &&& is_upper_digit(low)
    &&& char_digit(high) * 16 + char_digit(low) == octet
}

/// Where an octet stands in a dump: every octet takes three characters, and every sixteenth is
/// followed by a line break.
pub open spec fn dump_position(index: int) -> int {
    index * 3 + index / 16
}

/// The text is a dump of the octets: each as two digits and a space, in lines of sixteen.
pub open spec fn dumps(text: Seq<char>, bytes: Seq<u8>) -> bool {
    &&& text.len() == (if bytes.len() == 0 {
        0
    } else {
        dump_position(bytes.len() - 1) + 3
    })
    &&& forall|i: int|
        #![trigger bytes[i]]
        0 <= i < bytes.len() ==> {
            &&& writes_octet(text[dump_position(i)], text[dump_position(i) + 1], bytes[i])
            &&& text[dump_position(i) + 2] == ' '
            &&& i > 0 && i % 16 == 0 ==> text[dump_position(i) - 1] == '\n'
        }
}

proof fn lemma_upper_hex(octet: u8)
    ensures
        upper_hex(octet).len() == 2,
        writes_octet(upper_hex(octet)[0], upper_hex(octet)[1], octet),
{
}

/// A dump of octets reads as the octets.
pub proof fn dumps_read_back(bytes: Seq<u8>)
    ensures
        dumps(hex_dump(bytes), bytes),
    decreases bytes.len(),
{
    if bytes.len() > 0 {
        let front = bytes.drop_last();
        let last = bytes.len() - 1;
        let text = hex_dump(bytes);
        let before = hex_dump(front);
        dumps_read_back(front);
        lemma_upper_hex(bytes.last());
        let start = dump_position(last);
        assert(text.len() == start + 3);
        assert(text[start] == upper_hex(bytes.last())[0]);
        assert(text[start + 1] == upper_hex(bytes.last())[1]);
        assert forall|i: int| #![trigger bytes[i]] 0 <= i < bytes.len() implies {
            &&& writes_octet(text[dump_position(i)], text[dump_position(i) + 1], bytes[i])
            &&& text[dump_position(i) + 2] == ' '
            &&& i > 0 && i % 16 == 0 ==> text[dump_position(i) - 1] == '\n'
        } by {
            if i < last {
                assert(front[i] == bytes[i]);
                assert(dump_position(i) + 2 < before.len());
                assert(text[dump_position(i)] == before[dump_position(i)]);
                assert(text[dump_position(i) + 1] == before[dump_position(i) + 1]);
                assert(text[dump_position(i) + 2] == before[dump_position(i) + 2]);
                if i > 0 {
                    assert(text[dump_position(i) - 1] == before[dump_position(i) - 1]);
                }
            }
        }
    }
}

/// The first label with the number is its label, and a number that no label has is without one.
pub proof fn labels_are_the_first_ones(labels: Seq<(i64, Seq<char>)>, number: int, index: int)
    requires
        0 <= index < labels.len(),
    ensures
        labels[index].0 == number && (forall|i: int|
            0 <= i < index ==> (#[trigger] labels[i]).0 != number) ==> label_of(labels, number)
            == Some(labels[index].1),
        label_of(labels, number) is None ==> labels[index].0 != number,
{
    lemma_label_from(labels, number, 0, index);
}

proof fn lemma_label_from(labels: Seq<(i64, Seq<char>)>, number: int, start: int, index: int)
    requires
        0 <= start <= index < labels.len(),
    ensures
        labels[index].0 == number && (forall|i: int|
            start <= i < index ==> (#[trigger] labels[i]).0 != number) ==> label_from(
            labels,
            number,
            start,
        ) == Some(labels[index].1),
        label_from(labels, number, start) is None ==> labels[index].0 != number,
    decreases index - start,
{
    if start < index {
        lemma_label_from(labels, number, start + 1, index);
    }
}

/// A label stands for its number.
pub proof fn labels_have_their_number(labels: Seq<(i64, Seq<char>)>, number: int)
    ensures
        label_of(labels, number) matches Some(label) ==> exists|i: int|
            0 <= i < labels.len() && (#[trigger] labels[i]).0 == number && labels[i].1 == label,
{
    lemma_label_number(labels, number, 0);
}

proof fn lemma_label_number(labels: Seq<(i64, Seq<char>)>, number: int, start: int)
    requires
        0 <= start,
    ensures
        label_from(labels, number, start) matches Some(label) ==> exists|i: int|
            0 <= i < labels.len() && (#[trigger] labels[i]).0 == number && labels[i].1 == label,
    decreases labels.len() - start,
{
    if start < labels.len() && labels[start].0 != number {
        lemma_label_number(labels, number, start + 1);
    }
}

/// The text writes the integer with a point before its last digits, of which there are as many as
/// asked for. Nothing needless stands before the point.
pub open spec fn writes_decimals(text: Seq<char>, value: int, decimals: nat) -> bool {
    let point = text.len() - decimals - 1;
    let start: int = if value < 0 {
        1
    } else {
        0
    };
    &&& 0 <= start <= point
    &&& text[point] == '.'
    &&& text[start] != '0'
    &&& writes_integer(text.take(point) + text.skip(point + 1), value)
}

/// The text writes what is left of the integer modulo a power of two, in lower-case digits.
pub open spec fn writes_remainder(text: Seq<char>, base: int, value: int, modulus: int) -> bool {
    &&& is_numeral(text, base)
    &&& 0 <= numeral_value(text, base) < modulus
    &&& (value - numeral_value(text, base)) % modulus == 0
    &&& forall|i: int| 0 <= i < text.len() ==> !('A' <= #[trigger] text[i] <= 'F')
}

proof fn lemma_lower_case(value: nat, base: nat)
    requires
        2 <= base <= 16,
    ensures
        forall|i: int|
            0 <= i < numeral(value, base).len() ==> !('A' <= #[trigger] numeral(value, base)[i]
                <= 'F'),
    decreases value,
{
    if value >= base {
        assert(value / base < value) by (nonlinear_arith)
            requires
                2 <= base <= value,
        ;
        let low = value % base;
        assert(low < base) by (nonlinear_arith)
            requires
                low == value % base,
                base > 0,
        ;
        lemma_lower_case(value / base, base);
        let front = numeral(value / base, base);
        assert forall|i: int| 0 <= i < numeral(value, base).len() implies !('A'
            <= #[trigger] numeral(value, base)[i] <= 'F') by {
            if i < front.len() {
                assert(numeral(value, base)[i] == front[i]);
            } else {
                assert(numeral(value, base)[i] == digit_char(low));
            }
        }
    }
}

proof fn lemma_writes_remainder(value: int, base: nat, modulus: int)
    requires
        2 <= base <= 16,
        modulus > 0,
    ensures
        writes_remainder(numeral((value % modulus) as nat, base), base as int, value, modulus),
{
    let rest = value % modulus;
    vstd::arithmetic::div_mod::lemma_mod_bound(value, modulus);
    vstd::arithmetic::div_mod::lemma_fundamental_div_mod(value, modulus);
    numerals_read_back(rest as nat, base);
    lemma_lower_case(rest as nat, base);
    assert((value - rest) % modulus == 0) by {
        assert(value - rest == modulus * (value / modulus));
        vstd::arithmetic::div_mod::lemma_mod_multiples_basic(value / modulus, modulus);
        assert(modulus * (value / modulus) == (value / modulus) * modulus) by (nonlinear_arith);
    }
}

/// The number of decimals that a hint asks for: those behind `d-`, none behind a lone `d`.
pub open spec fn asks_for_decimals(hint: Seq<char>, decimals: nat) -> bool {
    ||| hint == "d"@ && decimals == 0
    ||| exists|number: Seq<char>|
        hint == "d-"@ + number && #[trigger] read_unsigned(number, usize::MAX as nat) == Some(
            decimals,
        )
}

/// A display hint shows an integer so that it reads back: in decimal, with the point that is asked
/// for, or as the remainder that the other bases show. Other hints show nothing.
pub proof fn hinted_integers_read_back(value: int, hint: Seq<char>, decimals: nat)
    ensures
        asks_for_decimals(hint, decimals) ==> {
            &&& hinted_integer(value, hint) is Some
            &&& decimals == 0 ==> writes_integer(hinted_integer(value, hint)->0, value)
            &&& decimals > 0 ==> writes_decimals(hinted_integer(value, hint)->0, value, decimals)
        },
        hint == "x"@ ==> {
            &&& hinted_integer(value, hint) is Some
            &&& writes_remainder(
                hinted_integer(value, hint)->0,
                16,
                value,
                0x1_0000_0000_0000_0000,
            )
        },
        hint == "o"@ ==> {
            &&& hinted_integer(value, hint) is Some
            &&& writes_remainder(hinted_integer(value, hint)->0, 8, value, 0x1_0000_0000_0000_0000)
        },
        hint == "b"@ ==> {
            &&& hinted_integer(value, hint) is Some
            &&& writes_remainder(hinted_integer(value, hint)->0, 2, value, 0x1_0000_0000)
            &&& hinted_integer(value, hint)->0.len() >= 32
        },
        hinted_integer(value, hint) is Some ==> hint == "x"@ || hint == "o"@ || hint == "b"@ || (
        exists|count: nat| #[trigger] asks_for_decimals(hint, count)),
{
    reveal_strlit("d");
    reveal_strlit("d-");
    reveal_strlit("x");
    reveal_strlit("o");
    reveal_strlit("b");
    signed_numerals_read_back(value);
    lemma_writes_remainder(value, 16, 0x1_0000_0000_0000_0000);
    lemma_writes_remainder(value, 8, 0x1_0000_0000_0000_0000);
    lemma_writes_remainder(value, 2, 0x1_0000_0000);
    if hint == "b"@ {
        let digits = numeral((value % 0x1_0000_0000) as nat, 2);
        padding_keeps_the_number(digits, 32, 2);
        let text = zero_padded(digits, 32);
        assert forall|i: int| 0 <= i < text.len() implies !('A' <= #[trigger] text[i] <= 'F') by {
            let zeros = 32 - digits.len();
            if zeros > 0 && i >= zeros {
                assert(text[i] == digits[i - zeros]);
            } else if zeros <= 0 {
                assert(text[i] == digits[i]);
            }
        }
    }
    if asks_for_decimals(hint, decimals) {
        if hint != "d"@ {
            let number = choose|number: Seq<char>|
                hint == "d-"@ + number && #[trigger] read_unsigned(number, usize::MAX as nat)
                    == Some(decimals);
            assert(hint.skip(1).skip(1) =~= number);
        }
        if decimals > 0 {
            lemma_with_decimals(value, decimals);
        }
    }
    if hinted_integer(value, hint) is Some {
        if hint.len() == 1 {
            if hint[0] == 'd' {
                assert(hint =~= "d"@);
                assert(asks_for_decimals(hint, 0));
            } else if hint[0] == 'x' {
                assert(hint =~= "x"@);
            } else if hint[0] == 'o' {
                assert(hint =~= "o"@);
            } else {
                assert(hint =~= "b"@);
            }
        } else {
            let number = hint.skip(1).skip(1);
            assert(hint =~= "d-"@ + number);
            assert(asks_for_decimals(hint, read_unsigned(number, usize::MAX as nat)->0));
        }
    }
}

proof fn lemma_with_decimals(value: int, decimals: nat)
    requires
        decimals > 0,
    ensures
        writes_decimals(with_decimals(value, decimals), value, decimals),
{
    reveal_strlit(".");
    reveal_strlit("-");
    reveal_strlit("");
    let magnitude = (if value < 0 {
        -value
    } else {
        value
    }) as nat;
    let digits = decimal(magnitude);
    numerals_read_back(magnitude, 10);
    let text = with_decimals(value, decimals);
    let point = text.len() - decimals - 1;
    let start: int = if value < 0 {
        1
    } else {
        0
    };
    padding_keeps_the_number(digits, decimals, 10);
    let written = if digits.len() > decimals {
        digits
    } else {
        zero_padded(digits, decimals)
    };
    let joined = text.take(point) + text.skip(point + 1);
    if value < 0 {
        assert(joined.skip(1) =~= written);
        assert(joined[0] == '-');
    } else {
        assert(joined =~= written);
        assert(0 <= char_digit(written[0]) < 10);
    }
    if digits.len() > decimals {
        assert(text[start] == digits[0]);
    } else {
        assert(text[start] == '.');
    }
}

/// An integer is shown as its label with the number behind it, or by its display hint, or else in
/// decimal. Where there are labels, the hint does not count.
pub proof fn integers_are_shown(value: int, syntax: SyntaxView, index: int)
    ensures
        writes_integer(shown_integer(value, None), value),
        0 <= index < syntax.named_numbers.len() && syntax.named_numbers[index].0 == value && (
        forall|i: int| 0 <= i < index ==> (#[trigger] syntax.named_numbers[i]).0 != value)
            ==> shown_integer(value, Some(syntax)) == syntax.named_numbers[index].1 + "("@
            + shown_integer(value, None) + ")"@,
        syntax.named_numbers.len() > 0 && (forall|i: int|
            0 <= i < syntax.named_numbers.len() ==> (#[trigger] syntax.named_numbers[i]).0
                != value) ==> shown_integer(value, Some(syntax)) == shown_integer(value, None),
        syntax.named_numbers.len() == 0 ==> shown_integer(value, Some(syntax)) == if
            syntax.display_hint is Some && hinted_integer(value, syntax.display_hint->0) is Some {
            hinted_integer(value, syntax.display_hint->0)->0
        } else {
            shown_integer(value, None)
        },
{
    signed_numerals_read_back(value);
    labels_have_their_number(syntax.named_numbers, value);
    if 0 <= index < syntax.named_numbers.len() {
        labels_are_the_first_ones(syntax.named_numbers, value, index);
    }
}

/// A number below a hundred in two digits.
pub open spec fn two_digits(number: nat) -> Seq<char> {
    seq![(48 + number / 10) as char, (48 + number % 10) as char]
}

proof fn lemma_two_digits(number: nat)
    requires
        number < 100,
    ensures
        zero_padded(decimal(number), 2) == two_digits(number),
{
    if number < 10 {
        assert(zero_padded(decimal(number), 2) =~= two_digits(number));
    } else {
        let front = decimal(number / 10);
        assert(front =~= seq![digit_char(number / 10)]);
        assert(decimal(number) =~= two_digits(number));
    }
}

/// The days, in words.
pub open spec fn days_text(days: nat) -> Seq<char> {
    if days == 0 {
        Seq::empty()
    } else if days == 1 {
        "1 day, "@
    } else {
        decimal(days) + " days, "@
    }
}

/// The text gives the hundredths, and the time that they add up to.
pub open spec fn tells_time(
    text: Seq<char>,
    ticks: nat,
    days: nat,
    hours: nat,
    minutes: nat,
    seconds: nat,
    hundredths: nat,
) -> bool {
    &&& hours < 24
    &&& minutes < 60
    &&& seconds < 60
    &&& hundredths < 100
    &&& ticks == (((days * 24 + hours) * 60 + minutes) * 60 + seconds) * 100 + hundredths
    &&& text == "("@ + decimal(ticks) + ") "@ + (days_text(days) + (decimal(hours) + ":"@
        + two_digits(minutes) + ":"@ + two_digits(seconds) + "."@ + two_digits(hundredths)))
}

/// Hundredths of a second are shown as the days, hours, minutes, seconds and hundredths that they
/// add up to.
pub proof fn ticks_add_up(ticks: u32)
    ensures
        exists|days: nat, hours: nat, minutes: nat, seconds: nat, hundredths: nat|
            tells_time(
                shown_timeticks(ticks),
                ticks as nat,
                days,
                hours,
                minutes,
                seconds,
                hundredths,
            ),
{
    let all = ticks as nat / 100;
    let days = all / 86_400;
    let hours = (all / 3_600) % 24;
    let minutes = (all / 60) % 60;
    let seconds = all % 60;
    let hundredths = ticks as nat % 100;
    lemma_two_digits(minutes);
    lemma_two_digits(seconds);
    lemma_two_digits(hundredths);
    assert(days * 24 + hours == all / 3_600);
    assert((all / 3_600) * 60 + minutes == all / 60);
    let count = "("@ + decimal(ticks as nat) + ") "@;
    let time = decimal(hours) + ":"@ + two_digits(minutes) + ":"@ + two_digits(seconds) + "."@
        + two_digits(hundredths);
    assert(count + (days_text(days) + time) =~= shown_timeticks(ticks));
    assert(tells_time(
        shown_timeticks(ticks),
        ticks as nat,
        days,
        hours,
        minutes,
        seconds,
        hundredths,
    ));
}

/// What escaped text stands for: a backslash hides the character behind it.
pub open spec fn unescaped(text: Seq<char>) -> Seq<char>
    decreases text.len(),
{
    if text.len() == 0 {
        Seq::empty()
    } else if text[0] == '\\' && text.len() > 1 {
        seq![text[1]] + unescaped(text.skip(2))
    } else {
        seq![text[0]] + unescaped(text.skip(1))
    }
}

/// Escaping goes character by character, and only quotes and backslashes get a backslash.
pub proof fn characters_are_escaped_alone(left: Seq<char>, right: Seq<char>, character: char)
    ensures
        escaped(left + right) == escaped(left) + escaped(right),
        escaped(seq![character]) == if character == '"' || character == '\\' {
            seq!['\\', character]
        } else {
            seq![character]
        },
    decreases right.len(),
{
    let none = Seq::<char>::empty();
    assert(seq![character].drop_last() =~= none);
    reveal_with_fuel(escaped, 2);
    assert(escaped(seq![character]) =~= if character == '"' || character == '\\' {
        seq!['\\', character]
    } else {
        seq![character]
    });
    if right.len() == 0 {
        assert(left + right =~= left);
        assert(escaped(left) + none =~= escaped(left));
    } else {
        characters_are_escaped_alone(left, right.drop_last(), character);
        assert((left + right).drop_last() =~= left + right.drop_last());
        assert(escaped(left + right) =~= escaped(left) + escaped(right));
    }
}

/// Escaped text stands for the text.
pub proof fn escaped_text_reads_back(text: Seq<char>)
    ensures
        unescaped(escaped(text)) == text,
    decreases text.len(),
{
    if text.len() > 0 {
        let first = seq![text[0]];
        let rest = text.skip(1);
        escaped_text_reads_back(rest);
        characters_are_escaped_alone(first, rest, text[0]);
        assert(text =~= first + rest);
        let marked = escaped(text);
        if text[0] == '"' || text[0] == '\\' {
            assert(marked[0] == '\\' && marked[1] == text[0]);
            assert(marked.skip(2) =~= escaped(rest));
        } else {
            assert(marked[0] == text[0]);
            assert(marked.skip(1) =~= escaped(rest));
        }
    }
}

/// The text quotes the octets, each as the character that it stands for.
pub open spec fn quotes(text: Seq<char>, bytes: Seq<u8>) -> bool {
    let inner = text.subrange(1, text.len() - 1);
    &&& text.len() >= 2
    &&& text[0] == '"'
    &&& text.last() == '"'
    &&& unescaped(inner).len() == bytes.len()
    &&& forall|i: int| 0 <= i < bytes.len() ==> unescaped(inner)[i] as int == #[trigger] bytes[i]
}

/// The octet is a visible character of ASCII, a blank, or one of the characters that move on.
pub open spec fn is_text_octet(octet: u8) -> bool {
    32 <= octet < 127 || 9 <= octet < 14
}

/// Octets that are all text are quoted, and any others are dumped.
pub proof fn octets_are_quoted_or_dumped(bytes: Seq<u8>)
    ensures
        (forall|i: int| 0 <= i < bytes.len() ==> is_text_octet(#[trigger] bytes[i])) ==> quotes(
            shown_octets(bytes),
            bytes,
        ),
        !(forall|i: int| 0 <= i < bytes.len() ==> is_text_octet(#[trigger] bytes[i])) ==> dumps(
            shown_octets(bytes),
            bytes,
        ),
{
    reveal_strlit("\"");
    dumps_read_back(bytes);
    if forall|i: int| 0 <= i < bytes.len() ==> is_text_octet(#[trigger] bytes[i]) {
        let text = ascii_text(bytes);
        assert forall|i: int| 0 <= i < bytes.len() implies is_printable(#[trigger] bytes[i]) by {
            assert(is_text_octet(bytes[i]));
        }
        escaped_text_reads_back(text);
        let shown = shown_octets(bytes);
        assert(shown.subrange(1, shown.len() - 1) =~= escaped(text));
    } else {
        let index = choose|i: int| 0 <= i < bytes.len() && !is_text_octet(#[trigger] bytes[i]);
        assert(!is_printable(bytes[index]));
    }
}

/// The bit at `position`, counted from the most significant bit of the first octet.
pub open spec fn has_bit(bytes: Seq<u8>, position: int) -> bool {
    (bytes[position / 8] >> (7 - position % 8) as u8) & 1 == 1
}

proof fn lemma_has_bit(bytes: Seq<u8>, position: int)
    requires
        0 <= position < bytes.len() * 8,
    ensures
        has_bit(bytes, position) == bit_is_set(bytes, position),
{
    let octet = bytes[position / 8];
    let weight: u8 = bit_weight(position % 8) as u8;
    let shift: u8 = (7 - position % 8) as u8;
    assert((octet >> shift) & 1 == (octet / weight) % 2) by (bit_vector)
        requires
            weight == 128 && shift == 7 || weight == 64 && shift == 6 || weight == 32 && shift == 5
                || weight == 16 && shift == 4 || weight == 8 && shift == 3 || weight == 4 && shift
                == 2 || weight == 2 && shift == 1 || weight == 1 && shift == 0,
    ;
}

/// What is shown of one bit: nothing where it is not set.
pub open spec fn bit_text(
    bytes: Seq<u8>,
    labels: Seq<(i64, Seq<char>)>,
    position: int,
) -> Seq<char> {
    if !has_bit(bytes, position) {
        Seq::empty()
    } else {
        match label_of(labels, position) {
            Some(label) => label + "("@ + decimal(position as nat) + ") "@,
            None => decimal(position as nat) + " "@,
        }
    }
}

proof fn lemma_set_bits(bytes: Seq<u8>, labels: Seq<(i64, Seq<char>)>, count: nat)
    requires
        count <= bytes.len() * 8,
    ensures
        shown_set_bits(bytes, labels, count) == Seq::new(
            count,
            |position: int| bit_text(bytes, labels, position),
        ).flatten(),
    decreases count,
{
    let texts = Seq::new(count, |position: int| bit_text(bytes, labels, position));
    if count > 0 {
        let position = count - 1;
        let less = Seq::new(
            position as nat,
            |position: int| bit_text(bytes, labels, position),
        );
        lemma_set_bits(bytes, labels, position as nat);
        lemma_has_bit(bytes, position);
        assert(texts =~= less.push(bit_text(bytes, labels, position)));
        less.lemma_flatten_push(bit_text(bytes, labels, position));
        assert(shown_set_bits(bytes, labels, position as nat) + Seq::<char>::empty()
            =~= shown_set_bits(bytes, labels, position as nat));
    }
}

/// Bits are shown behind a dump of their octets: all that are set, in order, and no others.
pub proof fn set_bits_are_shown(bytes: Seq<u8>, labels: Seq<(i64, Seq<char>)>)
    ensures
        exists|dump: Seq<char>| #[trigger]
            dumps(dump, bytes) && shown_bits(bytes, labels) == dump + Seq::new(
                bytes.len() * 8,
                |position: int| bit_text(bytes, labels, position),
            ).flatten(),
{
    dumps_read_back(bytes);
    lemma_set_bits(bytes, labels, bytes.len() * 8);
}

/// The hexadecimal text of an address gives its four octets, with a colon between each two.
pub proof fn hexadecimal_addresses_read_back(a: u8, b: u8, c: u8, d: u8)
    ensures
        ({
            let text = hex_address(NetworkAddress::IPv4(a, b, c, d));
            &&& text.len() == 11
            &&& writes_octet(text[0], text[1], a)
            &&& writes_octet(text[3], text[4], b)
            &&& writes_octet(text[6], text[7], c)
            &&& writes_octet(text[9], text[10], d)
            &&& text[2] == ':' && text[5] == ':' && text[8] == ':'
        }),
{
    reveal_strlit(":");
    lemma_upper_hex(a);
    lemma_upper_hex(b);
    lemma_upper_hex(c);
    lemma_upper_hex(d);
}

/// The value is a number, which can have units.
pub open spec fn is_numeric(value: ObjectView) -> bool {
    ||| value is Number
    ||| value is Counter32
    ||| value is Counter64
    ||| value is Gauge32
    ||| value is UInteger32
    ||| value is TimeTicks
}

/// The syntaxes that change how a value is shown, apart from its units.
pub open spec fn is_of_base(value: ObjectView, base: BaseSyntax) -> bool {
    ||| value is Number && base == BaseSyntax::Integer
    ||| (value is Gauge32 || value is UInteger32) && base == BaseSyntax::Unsigned
    ||| value is IpAddress && base == BaseSyntax::NetworkAddress
    ||| value is String && (base == BaseSyntax::Bits || base == BaseSyntax::OctetString)
}

/// The syntax with other units.
pub open spec fn in_units(syntax: SyntaxView, units: Option<Seq<char>>) -> SyntaxView {
    SyntaxView { units, ..syntax }
}

/// Units stand behind a number, and behind nothing else.
pub proof fn units_follow_numbers(
    value: ObjectView,
    syntax: SyntaxView,
    units: Seq<char>,
    names: Map<Seq<u32>, SymbolView>,
)
    ensures
        shown_object(value, Some(in_units(syntax, Some(units))), names) == shown_object(
            value,
            Some(in_units(syntax, None)),
            names,
        ) + (if is_numeric(value) {
            " "@ + units
        } else {
            Seq::empty()
        }),
{
    let without = shown_object(value, Some(in_units(syntax, None)), names);
    let with = shown_object(value, Some(in_units(syntax, Some(units))), names);
    if is_numeric(value) {
        assert(without + " "@ + units =~= without + (" "@ + units));
        if value is Number {
            let number = value->Number_0 as int;
            assert(shown_integer(number, Some(in_units(syntax, None))) == shown_integer(
                number,
                Some(in_units(syntax, Some(units))),
            ));
        } else if value is Gauge32 {
            let number = value->Gauge32_0 as int;
            assert(shown_integer(number, Some(in_units(syntax, None))) == shown_integer(
                number,
                Some(in_units(syntax, Some(units))),
            ));
        } else if value is UInteger32 {
            let number = value->UInteger32_0 as int;
            assert(shown_integer(number, Some(in_units(syntax, None))) == shown_integer(
                number,
                Some(in_units(syntax, Some(units))),
            ));
        }
    } else {
        assert(without + Seq::<char>::empty() =~= without);
        assert(with == without);
    }
}

/// A syntax of another type than the value, and without units, changes nothing.
pub proof fn other_syntaxes_are_ignored(
    value: ObjectView,
    syntax: SyntaxView,
    names: Map<Seq<u32>, SymbolView>,
)
    requires
        !is_of_base(value, syntax.base),
        syntax.units is None,
    ensures
        shown_object(value, Some(syntax), names) == shown_object(value, None, names),
{
}

/// Without a syntax, every value is shown so that it reads back.
pub proof fn values_read_back_as_shown(
    number: i32,
    value: u32,
    wide: u64,
    address: NetworkAddress,
    bytes: Seq<u8>,
    names: Map<Seq<u32>, SymbolView>,
)
    ensures
        writes_integer(shown_object(ObjectView::Number(number), None, names), number as int),
        writes_integer(shown_object(ObjectView::Counter32(value), None, names), value as int),
        writes_integer(shown_object(ObjectView::Gauge32(value), None, names), value as int),
        writes_integer(shown_object(ObjectView::UInteger32(value), None, names), value as int),
        writes_integer(shown_object(ObjectView::Counter64(wide), None, names), wide as int),
        shown_object(ObjectView::TimeTicks(value), None, names) == shown_timeticks(value),
        numeric_oid(shown_object(ObjectView::IpAddress(address), None, names)) == Some(
            match address {
                NetworkAddress::IPv4(a, b, c, d) => seq![a as u32, b as u32, c as u32, d as u32],
            },
        ),
        shown_object(ObjectView::String(bytes), None, names) == shown_octets(bytes),
        shown_object(ObjectView::Empty, None, names) == "NULL"@,
        dumps(shown_object(ObjectView::Opaque(bytes), None, names), bytes),
        dumps(shown_object(ObjectView::NsapAddress(bytes), None, names), bytes),
{
    signed_numerals_read_back(number as int);
    signed_numerals_read_back(value as int);
    signed_numerals_read_back(wide as int);
    dumps_read_back(bytes);
    let NetworkAddress::IPv4(a, b, c, d) = address;
    addresses_read_back(a, b, c, d);
}

/// A value with its syntax is shown as the syntax says, apart from its units.
pub proof fn syntaxes_show_their_values(
    number: i32,
    value: u32,
    address: NetworkAddress,
    bytes: Seq<u8>,
    syntax: SyntaxView,
    names: Map<Seq<u32>, SymbolView>,
)
    requires
        syntax.units is None,
    ensures
        syntax.base == BaseSyntax::Integer ==> shown_object(
            ObjectView::Number(number),
            Some(syntax),
            names,
        ) == shown_integer(number as int, Some(syntax)),
        syntax.base == BaseSyntax::Unsigned ==> shown_object(
            ObjectView::Gauge32(value),
            Some(syntax),
            names,
        ) == shown_integer(value as int, Some(syntax)) && shown_object(
            ObjectView::UInteger32(value),
            Some(syntax),
            names,
        ) == shown_integer(value as int, Some(syntax)),
        syntax.base == BaseSyntax::NetworkAddress ==> shown_object(
            ObjectView::IpAddress(address),
            Some(syntax),
            names,
        ) == hex_address(address),
        syntax.base == BaseSyntax::Bits ==> shown_object(
            ObjectView::String(bytes),
            Some(syntax),
            names,
        ) == shown_bits(bytes, syntax.named_numbers),
        syntax.base == BaseSyntax::OctetString ==> shown_object(
            ObjectView::String(bytes),
            Some(syntax),
            names,
        ) == if syntax.display_hint is Some && hinted_octets(bytes, syntax.display_hint->0) is Some {
            hinted_octets(bytes, syntax.display_hint->0)->0
        } else {
            shown_octets(bytes)
        },
{
}

/// An object identifier is shown by the name that it is known by, whatever the syntax, and in
/// numbers where it is not known.
pub proof fn identifiers_are_shown_by_name(
    oid: OidView,
    syntax: Option<SyntaxView>,
    names: Map<Seq<u32>, SymbolView>,
)
    ensures
        shown_object(ObjectView::Object(oid), syntax, names) == match resolve_text(
            names,
            oid.text,
        ) {
            Some(resolution) => resolution.name,
            None => oid.text,
        },
        names == Map::<Seq<u32>, SymbolView>::empty() ==> shown_object(
            ObjectView::Object(oid),
            syntax,
            names,
        ) == oid.text,
{
    if names == Map::<Seq<u32>, SymbolView>::empty() && numeric_oid(oid.text) is Some {
        resolutions_tell_the_whole_identifier(names, numeric_oid(oid.text)->0);
    }
}

/// Octets of other types are dumped, whatever the syntax.
pub proof fn other_octets_are_dumped(
    unused_bits: u8,
    data: Seq<u8>,
    unknown: UnknownView,
    syntax: Option<SyntaxView>,
    names: Map<Seq<u32>, SymbolView>,
)
    ensures
        dumps(shown_object(ObjectView::BitString { unused_bits, data }, syntax, names), data),
        dumps(shown_object(ObjectView::Opaque(data), syntax, names), data),
        dumps(shown_object(ObjectView::NsapAddress(data), syntax, names), data),
        dumps(shown_object(ObjectView::UnknownSimple(unknown), syntax, names), unknown.bytes),
        dumps(shown_object(ObjectView::UnknownApplication(unknown), syntax, names), unknown.bytes),
{
    dumps_read_back(data);
    dumps_read_back(unknown.bytes);
}

/// What a variable is bound to is shown as its value, or by what is said in place of one, whatever
/// the syntax.
pub proof fn missing_values_are_told(
    value: ObjectView,
    syntax: Option<SyntaxView>,
    names: Map<Seq<u32>, SymbolView>,
)
    ensures
        shown_value(VarBindView::Value(value), syntax, names) == shown_object(value, syntax, names),
        shown_value(VarBindView::Unspecified, syntax, names) == shown_object(
            ObjectView::Empty,
            syntax,
            names,
        ),
        shown_object(ObjectView::Empty, syntax, names) == "NULL"@,
        shown_value(VarBindView::NoSuchObject, syntax, names)
            == "No Such Object available on this agent at this OID"@,
        shown_value(VarBindView::NoSuchInstance, syntax, names)
            == "No Such Instance currently exists at this OID"@,
        shown_value(VarBindView::EndOfMibView, syntax, names)
            == "No more variables left in this MIB View (It is past the end of the MIB tree)"@,
{
}

} // verus!
