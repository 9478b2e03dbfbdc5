//! What the texts of variable bindings tell of their values.

use crate::display::dotted_address;
use crate::mib::laws::dotted_text_reads_as_arcs;
use crate::mib::resolver::{dotted, numeric_oid};
use crate::model::{NetworkAddress, ObjectView, TagClass, VarBindView};
use crate::text::{
    char_digit, decimal, is_numeral, numeral_value, numerals_read_back, read_unsigned,
    reading_undoes_rendering, signed_numerals_read_back, writes_integer,
};
use crate::varbind::{
    hex, hex_has_two_digits_per_octet, is_control, is_printable_text, object_form, octet_hex,
    printable_text, value_form,
};
use vstd::prelude::*;
use vstd::string::*;
use vstd::utf8::*;

verus! {

/// The text has two hexadecimal digits for each octet, in order and in lower case.
pub open spec fn writes_octets(text: Seq<char>, bytes: Seq<u8>) -> bool {
    &&& text.len() == 2 * bytes.len()
    &&& forall|i: int| 0 <= i < text.len() ==> !('A' <= #[trigger] text[i] <= 'F')
    &&& forall|i: int|
        0 <= i < bytes.len() ==> #[trigger] bytes[i] == char_digit(text[2 * i]) * 16 + char_digit(
            text[2 * i + 1],
        ) && char_digit(text[2 * i]) < 16 && char_digit(text[2 * i + 1]) < 16
}

/// Hexadecimal text reads as the octets.
pub proof fn hexadecimal_reads_back(bytes: Seq<u8>)
    ensures
        writes_octets(hex(bytes), bytes),
    decreases bytes.len(),
{
    hex_has_two_digits_per_octet(bytes);
    if bytes.len() > 0 {
        let front = bytes.drop_last();
        hexadecimal_reads_back(front);
        let text = hex(bytes);
        assert forall|i: int| 0 <= i < text.len() implies !('A' <= #[trigger] text[i] <= 'F') by {
            if i < 2 * front.len() {
                assert(text[i] == hex(front)[i]);
            } else {
                assert(text[i] == octet_hex(bytes.last())[i - 2 * front.len()]);
            }
        }
        assert forall|i: int| 0 <= i < bytes.len() implies #[trigger] bytes[i] == char_digit(
            text[2 * i],
        ) * 16 + char_digit(text[2 * i + 1]) && char_digit(text[2 * i]) < 16 && char_digit(
            text[2 * i + 1],
        ) < 16 by {
            if i < front.len() {
                assert(front[i] == bytes[i]);
                assert(text[2 * i] == hex(front)[2 * i]);
                assert(text[2 * i + 1] == hex(front)[2 * i + 1]);
            } else {
                assert(text[2 * i] == octet_hex(bytes.last())[0]);
                assert(text[2 * i + 1] == octet_hex(bytes.last())[1]);
            }
        }
    }
}

/// The text can be shown as it is: it has no control characters but line breaks, carriage returns
/// and tabs.
pub open spec fn can_be_shown(text: Seq<char>) -> bool {
    forall|i: int|
        0 <= i < text.len() ==> ' ' <= (#[trigger] text[i]) <= '~' || text[i] as u32 >= 0xa0
            || text[i] == '\n' || text[i] == '\r' || text[i] == '\t'
}

proof fn lemma_control(character: char)
    ensures
        is_control(character) == !(' ' <= character <= '~' || character as u32 >= 0xa0),
{
}

proof fn lemma_can_be_shown(text: Seq<char>)
    ensures
        can_be_shown(text) == is_printable_text(text),
{
    if can_be_shown(text) {
        assert forall|i: int| 0 <= i < text.len() implies !is_control(#[trigger] text[i])
            || text[i] == '\n' || text[i] == '\r' || text[i] == '\t' by {}
    }
    if is_printable_text(text) {
        assert forall|i: int| 0 <= i < text.len() implies ' ' <= (#[trigger] text[i]) <= '~'
            || text[i] as u32 >= 0xa0 || text[i] == '\n' || text[i] == '\r' || text[i] == '\t' by {
            lemma_control(text[i]);
            assert(!is_control(text[i]) || text[i] == '\n' || text[i] == '\r' || text[i] == '\t');
        }
    }
}

/// An octet string that encodes text that can be shown is shown as that text, whatever it is; any
/// other is shown in hexadecimal.
pub proof fn octet_strings_show_their_text(bytes: Seq<u8>, text: Seq<char>)
    ensures
        bytes == encode_utf8(text) && can_be_shown(text) ==> object_form(
            ObjectView::String(bytes),
        ).value == text,
        !(exists|shown: Seq<char>| bytes == #[trigger] encode_utf8(shown) && can_be_shown(shown))
            ==> writes_octets(object_form(ObjectView::String(bytes)).value, bytes),
        object_form(ObjectView::String(bytes)).value_type == "octet_string"@,
        object_form(ObjectView::String(bytes)).value_bytes_hex matches Some(digits)
            && writes_octets(digits, bytes),
{
    hexadecimal_reads_back(bytes);
    lemma_can_be_shown(text);
    if bytes == encode_utf8(text) {
        encode_utf8_valid_utf8(text);
        encode_utf8_decode_utf8(text);
    }
    if let Some(shown) = printable_text(bytes) {
        decode_utf8_encode_utf8(bytes);
        lemma_can_be_shown(shown);
        assert(bytes == encode_utf8(shown) && can_be_shown(shown));
    }
}

/// The text is the decimal number, without needless zeros.
pub open spec fn writes_number(text: Seq<char>, value: int) -> bool {
    &&& is_numeral(text, 10)
    &&& numeral_value(text, 10) == value
    &&& text.len() > 1 ==> text[0] != '0'
}

proof fn lemma_writes_number(value: nat, max: nat)
    requires
        value <= max,
    ensures
        writes_number(decimal(value), value as int),
        read_unsigned(decimal(value), max) == Some(value),
{
    numerals_read_back(value, 10);
    reading_undoes_rendering(value, max);
}

/// The text of a number reads as the number, so that no two values of one type share a text.
pub proof fn numbers_read_back(number: i32, value: u32, wide: u64)
    ensures
        writes_integer(object_form(ObjectView::Number(number)).value, number as int),
        read_unsigned(object_form(ObjectView::Counter32(value)).value, u32::MAX as nat) == Some(
            value as nat,
        ),
        read_unsigned(object_form(ObjectView::Gauge32(value)).value, u32::MAX as nat) == Some(
            value as nat,
        ),
        read_unsigned(object_form(ObjectView::TimeTicks(value)).value, u32::MAX as nat) == Some(
            value as nat,
        ),
        read_unsigned(object_form(ObjectView::UInteger32(value)).value, u32::MAX as nat) == Some(
            value as nat,
        ),
        read_unsigned(object_form(ObjectView::Counter64(wide)).value, u64::MAX as nat) == Some(
            wide as nat,
        ),
        writes_number(object_form(ObjectView::Counter32(value)).value, value as int),
        writes_number(object_form(ObjectView::Gauge32(value)).value, value as int),
        writes_number(object_form(ObjectView::TimeTicks(value)).value, value as int),
        writes_number(object_form(ObjectView::UInteger32(value)).value, value as int),
        writes_number(object_form(ObjectView::Counter64(wide)).value, wide as int),
        object_form(ObjectView::Number(number)).value_type == "integer"@,
        object_form(ObjectView::Counter32(value)).value_type == "counter32"@,
        object_form(ObjectView::Gauge32(value)).value_type == "gauge32"@,
        object_form(ObjectView::TimeTicks(value)).value_type == "timeticks"@,
        object_form(ObjectView::UInteger32(value)).value_type == "unsigned32"@,
        object_form(ObjectView::Counter64(wide)).value_type == "counter64"@,
{
    signed_numerals_read_back(number as int);
    lemma_writes_number(value as nat, u32::MAX as nat);
    lemma_writes_number(wide as nat, u64::MAX as nat);
}

/// An address reads as its four octets, in order.
pub proof fn addresses_read_back(a: u8, b: u8, c: u8, d: u8)
    ensures
        numeric_oid(dotted_address(NetworkAddress::IPv4(a, b, c, d))) == Some(
            seq![a as u32, b as u32, c as u32, d as u32],
        ),
        object_form(ObjectView::IpAddress(NetworkAddress::IPv4(a, b, c, d))).value
            == dotted_address(NetworkAddress::IPv4(a, b, c, d)),
        object_form(ObjectView::IpAddress(NetworkAddress::IPv4(a, b, c, d))).value_type
            == "ip_address"@,
{
    let arcs = seq![a as u32, b as u32, c as u32, d as u32];
    reveal_with_fuel(dotted, 5);
    assert(arcs.drop_last() =~= seq![a as u32, b as u32, c as u32]);
    assert(arcs.drop_last().drop_last() =~= seq![a as u32, b as u32]);
    assert(arcs.drop_last().drop_last().drop_last() =~= seq![a as u32]);
    assert(dotted(arcs) =~= dotted_address(NetworkAddress::IPv4(a, b, c, d)));
    dotted_text_reads_as_arcs(Map::empty(), arcs);
}

/// The text of an unknown value names its class, form and tag number, and ends with its octets.
pub open spec fn describes_unknown(
    text: Seq<char>,
    class: TagClass,
    constructed: bool,
    tag: u32,
    bytes: Seq<u8>,
) -> bool {
    exists|number: Seq<char>, digits: Seq<char>|
        {
            &&& #[trigger] writes_number(number, tag as int)
            &&& #[trigger] writes_octets(digits, bytes)
            &&& text == "class="@ + (match class {
                TagClass::Universal => "UNIVERSAL"@,
                TagClass::Application => "APPLICATION"@,
                TagClass::ContextSpecific => "CONTEXT-SPECIFIC"@,
                TagClass::Private => "PRIVATE"@,
            }) + ",constructed="@ + (if constructed {
                "true"@
            } else {
                "false"@
            }) + ",tag="@ + number + ",bytes="@ + digits
        }
}

/// What is made of octets shows them: all of it, or a bit string behind the number of its unused
/// bits.
pub proof fn octets_read_back(value: ObjectView)
    ensures
        match value {
            ObjectView::Opaque(bytes) => {
                &&& object_form(value).value_type == "opaque"@
                &&& writes_octets(object_form(value).value, bytes)
                &&& object_form(value).value_bytes_hex matches Some(digits) && writes_octets(
                    digits,
                    bytes,
                )
            },
            ObjectView::NsapAddress(bytes) => {
                &&& object_form(value).value_type == "nsap_address"@
                &&& writes_octets(object_form(value).value, bytes)
                &&& object_form(value).value_bytes_hex matches Some(digits) && writes_octets(
                    digits,
                    bytes,
                )
            },
            ObjectView::BitString { unused_bits, data } => {
                &&& object_form(value).value_type == "bit_string"@
                &&& exists|number: Seq<char>, digits: Seq<char>| #[trigger]
                    writes_number(number, unused_bits as int) && #[trigger] writes_octets(
                        digits,
                        data,
                    ) && object_form(value).value == "unused_bits="@ + number + ",bytes="@ + digits
                &&& object_form(value).value_bytes_hex matches Some(digits) && writes_octets(
                    digits,
                    data,
                )
            },
            ObjectView::UnknownSimple(unknown) => {
                &&& object_form(value).value_type == "unknown_simple"@
                &&& describes_unknown(
                    object_form(value).value,
                    unknown.class,
                    unknown.constructed,
                    unknown.tag,
                    unknown.bytes,
                )
                &&& object_form(value).value_bytes_hex matches Some(digits) && writes_octets(
                    digits,
                    unknown.bytes,
                )
            },
            ObjectView::UnknownApplication(unknown) => {
                &&& object_form(value).value_type == "unknown_application"@
                &&& describes_unknown(
                    object_form(value).value,
                    unknown.class,
                    unknown.constructed,
                    unknown.tag,
                    unknown.bytes,
                )
                &&& object_form(value).value_bytes_hex matches Some(digits) && writes_octets(
                    digits,
                    unknown.bytes,
                )
            },
            ObjectView::String(_) => true,
            _ => object_form(value).value_bytes_hex is None,
        },
{
    match value {
        ObjectView::Opaque(bytes) | ObjectView::NsapAddress(bytes) => {
            hexadecimal_reads_back(bytes);
        },
        ObjectView::BitString { unused_bits, data } => {
            hexadecimal_reads_back(data);
            lemma_writes_number(unused_bits as nat, unused_bits as nat);
            assert(writes_number(decimal(unused_bits as nat), unused_bits as int)
                && writes_octets(hex(data), data));
        },
        ObjectView::UnknownSimple(unknown) | ObjectView::UnknownApplication(unknown) => {
            hexadecimal_reads_back(unknown.bytes);
            lemma_writes_number(unknown.tag as nat, unknown.tag as nat);
            assert(writes_number(decimal(unknown.tag as nat), unknown.tag as int)
                && writes_octets(hex(unknown.bytes), unknown.bytes));
        },
        _ => {},
    }
}

/// Values without a content of their own are told by their text, and no two of them alike; an object
/// identifier is its own text.
pub proof fn plain_values_are_told_apart(value: ObjectView)
    ensures
        value matches ObjectView::Object(oid) ==> object_form(value).value == oid.text
            && object_form(value).value_type == "object_identifier"@,
        value is Empty ==> object_form(value).value == "empty"@ && object_form(value).value_type
            == "empty"@,
        value_form(VarBindView::Value(value)) == object_form(value),
        value_form(VarBindView::Unspecified).value == "unspecified"@,
        value_form(VarBindView::NoSuchObject).value == "noSuchObject"@,
        value_form(VarBindView::NoSuchInstance).value == "noSuchInstance"@,
        value_form(VarBindView::EndOfMibView).value == "endOfMibView"@,
        value_form(VarBindView::Unspecified).value_type == "unspecified"@,
        value_form(VarBindView::NoSuchObject).value_type == "no_such_object"@,
        value_form(VarBindView::NoSuchInstance).value_type == "no_such_instance"@,
        value_form(VarBindView::EndOfMibView).value_type == "end_of_mib_view"@,
        value_form(VarBindView::Unspecified).value_bytes_hex is None,
        value_form(VarBindView::NoSuchObject).value_bytes_hex is None,
        value_form(VarBindView::NoSuchInstance).value_bytes_hex is None,
        value_form(VarBindView::EndOfMibView).value_bytes_hex is None,
{
}

} // verus!
