//! What responses read as.

use crate::ber::{tlv_at, twos_complement};
use crate::encode::{
    ber_value_octets, ber_value_reads_back, high_tag_octets, identifier_octets, integer_octets,
    integer_octets_stand_for_value, length_octets, tlv_octets, tlv_reads_back,
};
use crate::error::PduType;
use crate::mib::table::SymbolView;
use crate::model::{
    MessageView, NetworkAddress, ObjectView, TagClass, UnknownView, VarBindView, VariableView,
};
use crate::notification::v2c_notification;
use crate::raw::{content_of, message_fields};
use crate::response::{
    informs_with_room_are_answered, object_octets, response_octets, response_pdu_octets,
    response_reads_back, value_octets, variable_octets, variables_octets,
};
use vstd::prelude::*;
use vstd::utf8::encode_utf8;

verus! {

/// An element of the tag starts at `offset`, ends at `end` and holds the content.
pub open spec fn element_at(data: Seq<u8>, offset: int, end: int, tag: u8, content: Seq<u8>) -> bool {
    &&& tlv_at(data, offset) matches Ok(element)
    &&& element.tag == tag
    &&& element.content_end == end
    &&& content_of(data, element) == content
}

/// An element of the tag starts at `offset`, ends at `end` and holds the number.
pub open spec fn number_at(data: Seq<u8>, offset: int, end: int, tag: u8, number: int) -> bool {
    &&& tlv_at(data, offset) matches Ok(element)
    &&& element.tag == tag
    &&& element.content_end == end
    &&& content_of(data, element).len() > 0
    &&& twos_complement(content_of(data, element)) == number
}

/// The tag number that the octets from `cursor` on write behind `before`: seven bits each, and the
/// last without the continuation bit.
pub open spec fn tag_number_at(data: Seq<u8>, cursor: int, before: int) -> int
    decreases data.len() - cursor,
{
    if !(0 <= cursor < data.len()) {
        -1
    } else if data[cursor] < 0x80 {
        before * 128 + data[cursor]
    } else {
        tag_number_at(data, cursor + 1, before * 128 + data[cursor] - 128)
    }
}

/// An element starts at `offset`, ends at `end` and has the class, form, tag number and content.
pub open spec fn unknown_at(data: Seq<u8>, offset: int, end: int, value: UnknownView) -> bool {
    &&& tlv_at(data, offset) matches Ok(element)
    &&& element.tag as int / 64 == match value.class {
        TagClass::Universal => 0int,
        TagClass::Application => 1,
        TagClass::ContextSpecific => 2,
        TagClass::Private => 3,
    }
    &&& (element.tag as int / 32) % 2 == if value.constructed {
        1int
    } else {
        0
    }
    &&& if value.tag < 31 {
        element.tag as int % 32 == value.tag
    } else {
        element.tag as int % 32 == 31 && tag_number_at(data, offset + 1, 0) == value.tag
    }
    &&& element.content_end == end
    &&& content_of(data, element) == value.bytes
}

/// The element from `offset` to `end` is the value.
pub open spec fn object_at(data: Seq<u8>, offset: int, end: int, value: ObjectView) -> bool {
    match value {
        ObjectView::Number(number) => number_at(data, offset, end, 0x02, number as int),
        ObjectView::String(bytes) => element_at(data, offset, end, 0x04, bytes),
        ObjectView::Object(oid) => element_at(data, offset, end, 0x06, oid.bytes),
        ObjectView::BitString { unused_bits, data: bits } => {
            &&& tlv_at(data, offset) matches Ok(element)
            &&& element.tag == 0x03
            &&& element.content_end == end
            &&& element.content_start < end
            &&& data[element.content_start] == unused_bits
            &&& data.subrange(element.content_start + 1, end) == bits
        },
        ObjectView::IpAddress(NetworkAddress::IPv4(a, b, c, d)) => {
            &&& tlv_at(data, offset) matches Ok(element)
            &&& element.tag == 0x40
            &&& element.content_end == end
            &&& element.content_start + 4 == end
            &&& data[element.content_start] == a
            &&& data[element.content_start + 1] == b
            &&& data[element.content_start + 2] == c
            &&& data[element.content_start + 3] == d
        },
        ObjectView::Counter32(number) => number_at(data, offset, end, 0x41, number as int),
        ObjectView::Gauge32(number) => number_at(data, offset, end, 0x42, number as int),
        ObjectView::TimeTicks(number) => number_at(data, offset, end, 0x43, number as int),
        ObjectView::Opaque(bytes) => element_at(data, offset, end, 0x44, bytes),
        ObjectView::NsapAddress(bytes) => element_at(data, offset, end, 0x45, bytes),
        ObjectView::Counter64(number) => number_at(data, offset, end, 0x46, number as int),
        ObjectView::UInteger32(number) => number_at(data, offset, end, 0x47, number as int),
        ObjectView::Empty => element_at(data, offset, end, 0x05, Seq::empty()),
        ObjectView::UnknownSimple(unknown) => unknown_at(data, offset, end, unknown),
        ObjectView::UnknownApplication(unknown) => unknown_at(data, offset, end, unknown),
    }
}

/// The element from `offset` to `end` is what a variable is bound to.
pub open spec fn bound_at(data: Seq<u8>, offset: int, end: int, value: VarBindView) -> bool {
    match value {
        VarBindView::Value(value) => object_at(data, offset, end, value),
        VarBindView::Unspecified => element_at(data, offset, end, 0x05, Seq::empty()),
        VarBindView::NoSuchObject => element_at(data, offset, end, 0x80, Seq::empty()),
        VarBindView::NoSuchInstance => element_at(data, offset, end, 0x81, Seq::empty()),
        VarBindView::EndOfMibView => element_at(data, offset, end, 0x82, Seq::empty()),
    }
}

/// The elements from `offset` to `end` are the variable bindings, one behind the other: sequences of
/// an object identifier and a value.
pub open spec fn variables_at(
    data: Seq<u8>,
    offset: int,
    end: int,
    variables: Seq<VariableView>,
) -> bool
    decreases variables.len(),
{
    if variables.len() == 0 {
        offset == end
    } else {
        &&& tlv_at(data, offset) matches Ok(binding)
        &&& binding.tag == 0x30
        &&& tlv_at(data, binding.content_start) matches Ok(oid)
        &&& oid.tag == 0x06
        &&& content_of(data, oid) == variables[0].oid.bytes
        &&& bound_at(data, oid.content_end, binding.content_end, variables[0].val)
        &&& variables_at(data, binding.content_end, end, variables.drop_first())
    }
}

/// The octets are a PDU of these numbers and variable bindings.
pub open spec fn is_pdu(
    data: Seq<u8>,
    request_id: int,
    error_status: int,
    error_index: int,
    variables: Seq<VariableView>,
) -> bool {
    exists|status: int, index: int, list: int|
        {
            &&& #[trigger] number_at(data, 0, status, 0x02, request_id)
            &&& #[trigger] number_at(data, status, index, 0x02, error_status)
            &&& #[trigger] number_at(data, index, list, 0x02, error_index)
            &&& tlv_at(data, list) matches Ok(bindings)
            &&& bindings.tag == 0x30
            &&& bindings.content_end == data.len()
            &&& variables_at(data, bindings.content_start, bindings.content_end, variables)
        }
}

proof fn lemma_element(prefix: Seq<u8>, tag: u8, content: Seq<u8>, rest: Seq<u8>, data: Seq<u8>)
    requires
        tag % 32 != 31,
        data == prefix + tlv_octets(tag, content) + rest,
        data.len() <= usize::MAX,
    ensures
        element_at(
            data,
            prefix.len() as int,
            (prefix.len() + tlv_octets(tag, content).len()) as int,
            tag,
            content,
        ),
        tlv_at(data, prefix.len() as int)->Ok_0.content_start == prefix.len() + 1 + length_octets(
            content.len(),
        ).len(),
{
    tlv_reads_back(prefix, tag, content, rest);
}

proof fn lemma_number(prefix: Seq<u8>, tag: u8, number: int, rest: Seq<u8>, data: Seq<u8>)
    requires
        tag % 32 != 31,
        data == prefix + tlv_octets(tag, integer_octets(number)) + rest,
        data.len() <= usize::MAX,
    ensures
        number_at(
            data,
            prefix.len() as int,
            (prefix.len() + tlv_octets(tag, integer_octets(number)).len()) as int,
            tag,
            number,
        ),
{
    lemma_element(prefix, tag, integer_octets(number), rest, data);
    integer_octets_stand_for_value(number);
}

proof fn lemma_tag_number(data: Seq<u8>, cursor: int, tag: nat)
    requires
        0 <= cursor,
        cursor + high_tag_octets(tag).len() <= data.len(),
        forall|i: int|
            0 <= i < high_tag_octets(tag).len() ==> data[cursor + i] == #[trigger] high_tag_octets(
                tag,
            )[i],
    ensures
        tag_number_at(data, cursor, 0) == tag_number_at(
            data,
            cursor + high_tag_octets(tag).len(),
            tag as int,
        ),
    decreases tag,
{
    if tag > 0 {
        let front = high_tag_octets(tag / 128);
        let all = high_tag_octets(tag);
        assert forall|i: int| 0 <= i < front.len() implies data[cursor + i]
            == #[trigger] front[i] by {
            assert(all[i] == front[i]);
        }
        lemma_tag_number(data, cursor, tag / 128);
        let at = cursor + front.len();
        assert(data[at] == all[front.len() as int]);
        assert(data[at] == 128 + tag % 128);
    }
}

proof fn lemma_unknown(prefix: Seq<u8>, value: UnknownView, rest: Seq<u8>, data: Seq<u8>)
    requires
        data == prefix + ber_value_octets(
            value.class.spec_code(),
            value.constructed,
            value.tag,
            value.bytes,
        ) + rest,
        data.len() <= usize::MAX,
    ensures
        unknown_at(
            data,
            prefix.len() as int,
            (prefix.len() + ber_value_octets(
                value.class.spec_code(),
                value.constructed,
                value.tag,
                value.bytes,
            ).len()) as int,
            value,
        ),
{
    let class = value.class.spec_code();
    ber_value_reads_back(prefix, class, value.constructed, value.tag, value.bytes, rest);
    let identifier = identifier_octets(class, value.constructed, value.tag);
    let octets = ber_value_octets(class, value.constructed, value.tag, value.bytes);
    let offset = prefix.len() as int;
    if value.tag >= 31 {
        let high = high_tag_octets(value.tag as nat / 128);
        assert forall|i: int| 0 <= i < high.len() implies data[offset + 1 + i]
            == #[trigger] high[i] by {
            assert(data[offset + 1 + i] == octets[1 + i]);
            assert(octets[1 + i] == identifier[1 + i]);
        }
        lemma_tag_number(data, offset + 1, value.tag as nat / 128);
        let last = offset + 1 + high.len();
        assert(data[last] == octets[1int + high.len()]);
        assert(octets[1int + high.len()] == identifier[1int + high.len()]);
        assert(data[last] == value.tag % 128);
    }
}

/// A value reads back from its octets, wherever they stand: each kind by its tag, and its content
/// whole and in order.
pub proof fn values_read_back(prefix: Seq<u8>, value: ObjectView, rest: Seq<u8>)
    requires
        (prefix + object_octets(value) + rest).len() <= usize::MAX,
    ensures
        object_at(
            prefix + object_octets(value) + rest,
            prefix.len() as int,
            (prefix.len() + object_octets(value).len()) as int,
            value,
        ),
{
    let data = prefix + object_octets(value) + rest;
    match value {
        ObjectView::Number(number) => lemma_number(prefix, 0x02, number as int, rest, data),
        ObjectView::String(bytes) => lemma_element(prefix, 0x04, bytes, rest, data),
        ObjectView::Object(oid) => lemma_element(prefix, 0x06, oid.bytes, rest, data),
        ObjectView::BitString { unused_bits, data: bits } => {
            let content = seq![unused_bits] + bits;
            lemma_element(prefix, 0x03, content, rest, data);
            let element = tlv_at(data, prefix.len() as int)->Ok_0;
            assert(data[element.content_start] == content_of(data, element)[0]);
            assert(data.subrange(element.content_start + 1, element.content_end) =~= bits) by {
                assert forall|i: int| 0 <= i < bits.len() implies data[element.content_start + 1
                    + i] == bits[i] by {
                    assert(content_of(data, element)[1 + i] == content[1 + i]);
                }
            }
        },
        ObjectView::IpAddress(NetworkAddress::IPv4(a, b, c, d)) => {
            let content = seq![a, b, c, d];
            lemma_element(prefix, 0x40, content, rest, data);
            let element = tlv_at(data, prefix.len() as int)->Ok_0;
            assert(content_of(data, element).len() == 4);
            assert(content_of(data, element)[0] == a);
            assert(content_of(data, element)[1] == b);
            assert(content_of(data, element)[2] == c);
            assert(content_of(data, element)[3] == d);
        },
        ObjectView::Counter32(number) => lemma_number(prefix, 0x41, number as int, rest, data),
        ObjectView::Gauge32(number) => lemma_number(prefix, 0x42, number as int, rest, data),
        ObjectView::TimeTicks(number) => lemma_number(prefix, 0x43, number as int, rest, data),
        ObjectView::Opaque(bytes) => lemma_element(prefix, 0x44, bytes, rest, data),
        ObjectView::NsapAddress(bytes) => lemma_element(prefix, 0x45, bytes, rest, data),
        ObjectView::Counter64(number) => lemma_number(prefix, 0x46, number as int, rest, data),
        ObjectView::UInteger32(number) => lemma_number(prefix, 0x47, number as int, rest, data),
        ObjectView::Empty => lemma_element(prefix, 0x05, Seq::empty(), rest, data),
        ObjectView::UnknownSimple(unknown) | ObjectView::UnknownApplication(unknown) => {
            lemma_unknown(prefix, unknown, rest, data);
        },
    }
}

/// What a variable is bound to reads back from its octets, wherever they stand.
pub proof fn bound_values_read_back(prefix: Seq<u8>, value: VarBindView, rest: Seq<u8>)
    requires
        (prefix + value_octets(value) + rest).len() <= usize::MAX,
    ensures
        bound_at(
            prefix + value_octets(value) + rest,
            prefix.len() as int,
            (prefix.len() + value_octets(value).len()) as int,
            value,
        ),
{
    let data = prefix + value_octets(value) + rest;
    match value {
        VarBindView::Value(value) => values_read_back(prefix, value, rest),
        VarBindView::Unspecified => lemma_element(prefix, 0x05, Seq::empty(), rest, data),
        VarBindView::NoSuchObject => lemma_element(prefix, 0x80, Seq::empty(), rest, data),
        VarBindView::NoSuchInstance => lemma_element(prefix, 0x81, Seq::empty(), rest, data),
        VarBindView::EndOfMibView => lemma_element(prefix, 0x82, Seq::empty(), rest, data),
    }
}

proof fn lemma_variables_octets_first(variables: Seq<VariableView>)
    requires
        variables.len() > 0,
    ensures
        variables_octets(variables) == variable_octets(variables[0]) + variables_octets(
            variables.drop_first(),
        ),
    decreases variables.len(),
{
    let front = variables.drop_last();
    let rest = variables.drop_first();
    if variables.len() == 1 {
        assert(variables_octets(front) =~= Seq::empty());
        assert(variables_octets(rest) =~= Seq::empty());
        assert(variables_octets(variables) =~= variable_octets(variables[0]) + variables_octets(
            rest,
        ));
    } else {
        lemma_variables_octets_first(front);
        assert(front.drop_first() =~= rest.drop_last());
        assert(variables_octets(variables) =~= variable_octets(variables[0]) + (variables_octets(
            rest.drop_last(),
        ) + variable_octets(rest.last())));
    }
}

proof fn lemma_variables(
    prefix: Seq<u8>,
    variables: Seq<VariableView>,
    rest: Seq<u8>,
    data: Seq<u8>,
)
    requires
        data == prefix + variables_octets(variables) + rest,
        data.len() <= usize::MAX,
    ensures
        variables_at(
            data,
            prefix.len() as int,
            (prefix.len() + variables_octets(variables).len()) as int,
            variables,
        ),
    decreases variables.len(),
{
    if variables.len() > 0 {
        lemma_variables_octets_first(variables);
        let first = variables[0];
        let others = variables_octets(variables.drop_first());
        let octets = variable_octets(first);
        let oid = tlv_octets(0x06, first.oid.bytes);
        let value = value_octets(first.val);
        let inner = oid + value;
        let head = prefix + seq![0x30u8] + length_octets(inner.len());
        assert(data =~= prefix + octets + (others + rest));
        lemma_element(prefix, 0x30, inner, others + rest, data);
        assert(data =~= head + oid + (value + (others + rest)));
        lemma_element(head, 0x06, first.oid.bytes, value + (others + rest), data);
        assert(data =~= head + oid + value + (others + rest));
        bound_values_read_back(head + oid, first.val, others + rest);
        assert(data =~= prefix + octets + others + rest);
        lemma_variables(prefix + octets, variables.drop_first(), rest, data);
    } else {
        assert(variables_octets(variables) =~= Seq::empty());
    }
}

/// Variable bindings read back from their octets, wherever they stand: as many, in order, each with
/// its object identifier and its value.
pub proof fn variables_read_back(prefix: Seq<u8>, variables: Seq<VariableView>, rest: Seq<u8>)
    requires
        (prefix + variables_octets(variables) + rest).len() <= usize::MAX,
    ensures
        variables_at(
            prefix + variables_octets(variables) + rest,
            prefix.len() as int,
            (prefix.len() + variables_octets(variables).len()) as int,
            variables,
        ),
{
    lemma_variables(prefix, variables, rest, prefix + variables_octets(variables) + rest);
}

/// The PDU of a response reads back with its numbers and variable bindings.
pub proof fn response_pdus_read_back(
    request_id: int,
    error_status: int,
    error_index: int,
    variables: Seq<VariableView>,
)
    requires
        response_pdu_octets(request_id, error_status, error_index, variables).len() <= usize::MAX,
    ensures
        is_pdu(
            response_pdu_octets(request_id, error_status, error_index, variables),
            request_id,
            error_status,
            error_index,
            variables,
        ),
{
    let data = response_pdu_octets(request_id, error_status, error_index, variables);
    let none = Seq::<u8>::empty();
    let a = tlv_octets(0x02, integer_octets(request_id));
    let b = tlv_octets(0x02, integer_octets(error_status));
    let c = tlv_octets(0x02, integer_octets(error_index));
    let content = variables_octets(variables);
    let list = tlv_octets(0x30, content);
    let head = a + b + c + seq![0x30u8] + length_octets(content.len());
    assert(data =~= none + a + (b + c + list));
    lemma_number(none, 0x02, request_id, b + c + list, data);
    assert(data =~= a + b + (c + list));
    lemma_number(a, 0x02, error_status, c + list, data);
    lemma_number(a + b, 0x02, error_index, list, data);
    assert(data =~= (a + b + c) + list + none);
    lemma_element(a + b + c, 0x30, content, none, data);
    assert(data =~= head + content + none);
    lemma_variables(head, variables, none, data);
    assert(number_at(data, 0, a.len() as int, 0x02, request_id));
    assert(number_at(data, a.len() as int, (a + b).len() as int, 0x02, error_status));
    assert(number_at(data, (a + b).len() as int, (a + b + c).len() as int, 0x02, error_index));
}

/// The response to an inform repeats its request-id and its variable bindings, with no error, or
/// reports that they would make it too big for a datagram.
pub proof fn responses_repeat_their_inform(
    message: MessageView,
    request_id: i64,
    source_addr: Seq<char>,
    names: Map<Seq<u32>, SymbolView>,
    response: Seq<u8>,
)
    requires
        i32::MIN <= request_id <= i32::MAX,
        v2c_notification(message, request_id, source_addr, names) matches Ok(notification)
            && notification.response == Some(response),
    ensures
        message.pdu is Generic,
        message.pdu->Generic_0.pdu_type == PduType::InformRequest,
        response.len() <= 65_507,
        message_fields(response) is Ok,
        ({
            let pdu = message_fields(response)->Ok_0.2;
            let content = content_of(response, pdu);
            let variables = message.pdu->Generic_0.var;
            &&& pdu.tag == 0xa2
            &&& is_pdu(content, request_id as int, 0, 0, variables) || (is_pdu(
                content,
                request_id as int,
                1,
                0,
                Seq::empty(),
            ) && response_octets(
                encode_utf8(message.community),
                request_id as int,
                0,
                0,
                variables,
            ).len() > 65_507)
        }),
{
    let variables = message.pdu->Generic_0.var;
    let community = encode_utf8(message.community);
    let full = response_octets(community, request_id as int, 0, 0, variables);
    if full.len() <= 65_507 {
        response_reads_back(community, request_id as int, 0, 0, variables);
        response_pdus_read_back(request_id as int, 0, 0, variables);
    } else {
        response_reads_back(community, request_id as int, 1, 0, Seq::empty());
        response_pdus_read_back(request_id as int, 1, 0, Seq::empty());
    }
}

/// Every inform that is accepted is answered, if its community leaves room for that, and no trap is.
pub proof fn accepted_informs_are_answered(
    message: MessageView,
    request_id: i64,
    source_addr: Seq<char>,
    names: Map<Seq<u32>, SymbolView>,
)
    requires
        i32::MIN <= request_id <= i32::MAX,
        v2c_notification(message, request_id, source_addr, names) is Ok,
        encode_utf8(message.community).len() + 27 <= 65_507,
    ensures
        v2c_notification(message, request_id, source_addr, names)->Ok_0.response is Some
            <==> message.pdu->Generic_0.pdu_type == PduType::InformRequest,
{
    informs_with_room_are_answered(
        encode_utf8(message.community),
        request_id as int,
        message.pdu->Generic_0.var,
    );
}

} // verus!
