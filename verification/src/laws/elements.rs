//! How elements, numbers and messages are read from octets.

use crate::ber::{
    be_value, integer_content, lemma_be_value_bound, lemma_twos_complement_fits, length_at, pow256,
    tag_number_end, tlv_at, twos_complement, TlvView,
};
use crate::error::ParseErrorView;
use crate::raw::{content_of, message_fields, v1_generic_trap, v2c_request_id};
use vstd::layout::size_of;
use vstd::prelude::*;

verus! {

/// Every octet weighs 256 times as much as the one behind it.
pub proof fn octets_are_weighed(left: Seq<u8>, right: Seq<u8>, octet: u8)
    ensures
        be_value(Seq::empty()) == 0,
        be_value(seq![octet]) == octet,
        be_value(left + right) == be_value(left) * pow256(right.len()) + be_value(right),
    decreases right.len(),
{
    let none = Seq::<u8>::empty();
    assert(seq![octet].drop_last() =~= none);
    reveal_with_fuel(be_value, 2);
    if right.len() == 0 {
        assert(left + right =~= left);
        assert(be_value(left) * pow256(0) == be_value(left)) by (nonlinear_arith)
            requires
                pow256(0) == 1,
        ;
    } else {
        let front = right.drop_last();
        octets_are_weighed(left, front, octet);
        assert((left + right).drop_last() =~= left + front);
        assert(be_value(left) * pow256(right.len()) == be_value(left) * pow256(front.len()) * 256)
            by (nonlinear_arith)
            requires
                pow256(right.len()) == 256 * pow256(front.len()),
        ;
    }
}

/// Octets that repeat the sign do not change a number in two's complement, a first octet below 128
/// means what it means without a sign, and any other means a negative number.
pub proof fn signs_extend(octets: Seq<u8>)
    requires
        octets.len() > 0,
    ensures
        octets[0] < 128 ==> {
            &&& twos_complement(octets) == be_value(octets)
            &&& twos_complement(seq![0u8] + octets) == twos_complement(octets)
        },
        octets[0] >= 128 ==> {
            &&& twos_complement(octets) < 0
            &&& twos_complement(seq![255u8] + octets) == twos_complement(octets)
            &&& twos_complement(seq![0u8] + octets) == be_value(octets)
        },
{
    octets_are_weighed(seq![0u8], octets, 0);
    octets_are_weighed(seq![255u8], octets, 255);
    lemma_be_value_bound(octets);
    let power = pow256(octets.len());
    let high = be_value(seq![255u8]);
    assert(0 * power == 0) by (nonlinear_arith);
    assert(high * power == 255 * power) by (nonlinear_arith)
        requires
            high == 255,
    ;
    assert((seq![255u8] + octets).len() == octets.len() + 1);
    assert(pow256(octets.len() + 1) == 256 * power);
}

/// The octets identify an element: one octet, or several where the first says that the tag number
/// goes on, up to the first below 128.
pub open spec fn is_identifier(octets: Seq<u8>) -> bool {
    if octets.len() == 1 {
        octets[0] % 32 != 31
    } else {
        &&& octets.len() > 1
        &&& octets[0] % 32 == 31
        &&& octets.last() < 128
        &&& forall|i: int| 1 <= i < octets.len() - 1 ==> #[trigger] octets[i] >= 128
    }
}

/// The octets give a length: below 128 by themselves, or else behind the number of octets that the
/// length takes.
pub open spec fn is_length(octets: Seq<u8>, length: int) -> bool {
    if octets.len() == 1 {
        octets[0] < 128 && octets[0] == length
    } else {
        &&& 1 < octets.len() <= 1 + size_of::<usize>()
        &&& octets[0] == 128 + (octets.len() - 1)
        &&& be_value(octets.skip(1)) == length
    }
}

/// An element stands at `offset`: an identifier that starts with the tag, a length, and a content
/// of that length.
pub open spec fn stands_at(data: Seq<u8>, offset: int, element: TlvView) -> bool {
    &&& 0 <= offset < data.len()
    &&& data[offset] == element.tag
    &&& element.content_start <= element.content_end <= data.len()
    &&& exists|split: int|
        offset < split < element.content_start && is_identifier(
            #[trigger] data.subrange(offset, split),
        ) && is_length(
            data.subrange(split, element.content_start),
            element.content_end - element.content_start,
        )
}

proof fn lemma_tag_number_runs(data: Seq<u8>, start: int, end: int)
    requires
        0 <= start < end <= data.len(),
        data[end - 1] < 128,
        forall|i: int| start <= i < end - 1 ==> #[trigger] data[i] >= 128,
    ensures
        tag_number_end(data, start) == Some(end),
    decreases end - start,
{
    if start < end - 1 {
        assert(data[start] >= 128);
        lemma_tag_number_runs(data, start + 1, end);
    }
}

proof fn lemma_tag_number_ends(data: Seq<u8>, start: int)
    requires
        0 <= start,
    ensures
        tag_number_end(data, start) matches Some(end) ==> {
            &&& start < end <= data.len()
            &&& data[end - 1] < 128
            &&& forall|i: int| start <= i < end - 1 ==> #[trigger] data[i] >= 128
        },
    decreases data.len() - start,
{
    if start < data.len() && data[start] >= 128 {
        lemma_tag_number_ends(data, start + 1);
    }
}

proof fn lemma_length_is_read(data: Seq<u8>, offset: int, start: int, length: nat)
    requires
        0 <= offset < start <= data.len() <= usize::MAX,
        is_length(data.subrange(offset, start), length as int),
    ensures
        length_at(data, offset) == Ok::<_, ParseErrorView>((length, start)),
{
    let octets = data.subrange(offset, start);
    assert(octets[0] == data[offset]);
    if octets.len() > 1 {
        assert(octets.skip(1) =~= data.subrange(offset + 1, start));
        assert(size_of::<usize>() <= 8) by {
            vstd::layout::unsigned_int_max_values();
        }
    }
}

/// What is read at an offset is the element that stands there, and what stands there is read.
pub proof fn elements_are_read(data: Seq<u8>, offset: int, element: TlvView)
    requires
        data.len() <= usize::MAX,
    ensures
        tlv_at(data, offset) == Ok::<_, ParseErrorView>(element) <==> stands_at(
            data,
            offset,
            element,
        ),
{
    reveal(tlv_at);
    if stands_at(data, offset, element) {
        let split = choose|split: int|
            offset < split < element.content_start && is_identifier(
                #[trigger] data.subrange(offset, split),
            ) && is_length(
                data.subrange(split, element.content_start),
                element.content_end - element.content_start,
            );
        let identifier = data.subrange(offset, split);
        assert(identifier[0] == data[offset]);
        if identifier.len() > 1 {
            assert(identifier.last() == data[split - 1]);
            assert forall|i: int| offset + 1 <= i < split - 1 implies #[trigger] data[i] >= 128 by {
                assert(identifier[i - offset] == data[i]);
            }
            lemma_tag_number_runs(data, offset + 1, split);
        }
        lemma_length_is_read(
            data,
            split,
            element.content_start,
            (element.content_end - element.content_start) as nat,
        );
    }
    if tlv_at(data, offset) == Ok::<_, ParseErrorView>(element) {
        lemma_tag_number_ends(data, offset + 1);
        let split = if data[offset] % 32 == 31 {
            tag_number_end(data, offset + 1)->0
        } else {
            offset + 1
        };
        let identifier = data.subrange(offset, split);
        let octets = data.subrange(split, element.content_start);
        assert(identifier[0] == data[offset]);
        assert(is_identifier(identifier));
        assert(octets[0] == data[split]);
        if octets.len() > 1 {
            assert(octets.skip(1) =~= data.subrange(split + 1, element.content_start));
        }
        assert(is_length(octets, element.content_end - element.content_start));
    }
}

/// The content of an element is the integer, in at most eight octets.
pub open spec fn holds_integer(data: Seq<u8>, element: TlvView, value: int) -> bool {
    let content = data.subrange(element.content_start, element.content_end);
    &&& element.tag == 2
    &&& 0 < content.len() <= 8
    &&& twos_complement(content) == value
}

/// The message has the version, the community and the PDU, one behind the other.
pub open spec fn is_message(
    data: Seq<u8>,
    version: TlvView,
    community: TlvView,
    pdu: TlvView,
) -> bool {
    &&& exists|message: TlvView|
        #![trigger stands_at(data, 0, message)]
        {
            &&& stands_at(data, 0, message)
            &&& message.tag == 0x30
            &&& stands_at(data, message.content_start, version)
        }
    &&& stands_at(data, version.content_end, community)
    &&& stands_at(data, community.content_end, pdu)
}

/// The fields of a message are those that stand in it.
pub proof fn messages_are_read(data: Seq<u8>, version: TlvView, community: TlvView, pdu: TlvView)
    requires
        data.len() <= usize::MAX,
    ensures
        message_fields(data) == Ok::<_, ParseErrorView>((version, community, pdu)) <==> is_message(
            data,
            version,
            community,
            pdu,
        ),
{
    if is_message(data, version, community, pdu) {
        let message = choose|message: TlvView|
            #![trigger stands_at(data, 0, message)]
            {
                &&& stands_at(data, 0, message)
                &&& message.tag == 0x30
                &&& stands_at(data, message.content_start, version)
            };
        elements_are_read(data, 0, message);
        elements_are_read(data, message.content_start, version);
        elements_are_read(data, version.content_end, community);
        elements_are_read(data, community.content_end, pdu);
    }
    if message_fields(data) == Ok::<_, ParseErrorView>((version, community, pdu)) {
        let message = tlv_at(data, 0)->Ok_0;
        elements_are_read(data, 0, message);
        elements_are_read(data, message.content_start, version);
        elements_are_read(data, version.content_end, community);
        elements_are_read(data, community.content_end, pdu);
        assert(stands_at(data, 0, message));
    }
}

/// The generic-trap of an SNMPv1 trap is the integer behind the enterprise and the agent address.
/// Nothing else gives one.
pub proof fn generic_traps_are_read(
    data: Seq<u8>,
    version: TlvView,
    community: TlvView,
    pdu: TlvView,
    enterprise: TlvView,
    agent: TlvView,
    generic_trap: TlvView,
    value: int,
)
    requires
        data.len() <= usize::MAX,
        is_message(data, version, community, pdu),
        stands_at(data, pdu.content_start, enterprise),
        stands_at(data, enterprise.content_end, agent),
        stands_at(data, agent.content_end, generic_trap),
    ensures
        holds_integer(data, version, 0) && pdu.tag == 0xa4 && holds_integer(
            data,
            generic_trap,
            value,
        ) ==> v1_generic_trap(data) is Ok && v1_generic_trap(data)->Ok_0 == value,
        v1_generic_trap(data) is Ok ==> holds_integer(data, version, 0) && pdu.tag == 0xa4
            && holds_integer(data, generic_trap, v1_generic_trap(data)->Ok_0 as int),
{
    messages_are_read(data, version, community, pdu);
    elements_are_read(data, pdu.content_start, enterprise);
    elements_are_read(data, enterprise.content_end, agent);
    elements_are_read(data, agent.content_end, generic_trap);
    lemma_integer_content(data, version);
    lemma_integer_content(data, generic_trap);
}

proof fn lemma_integer_content(data: Seq<u8>, element: TlvView)
    ensures
        ({
            let content = content_of(data, element);
            &&& 0 < content.len() <= 8 ==> integer_content(content) is Ok && integer_content(
                content,
            )->Ok_0 == twos_complement(content)
            &&& integer_content(content) is Ok ==> 0 < content.len() <= 8
        }),
{
    let content = content_of(data, element);
    if 0 < content.len() <= 8 {
        lemma_twos_complement_fits(content);
    }
}

/// The request-id of an SNMPv2c message is the first integer of its PDU, if it has no more than 32
/// bits. Nothing else gives one.
pub proof fn request_ids_are_read(
    data: Seq<u8>,
    version: TlvView,
    community: TlvView,
    pdu: TlvView,
    request_id: TlvView,
    value: int,
)
    requires
        data.len() <= usize::MAX,
        is_message(data, version, community, pdu),
        stands_at(data, pdu.content_start, request_id),
    ensures
        holds_integer(data, version, 1) && holds_integer(data, request_id, value) && -0x8000_0000
            <= value < 0x8000_0000 ==> v2c_request_id(data) is Ok && v2c_request_id(data)->Ok_0
            == value,
        v2c_request_id(data) is Ok ==> {
            &&& holds_integer(data, version, 1)
            &&& holds_integer(data, request_id, v2c_request_id(data)->Ok_0 as int)
            &&& -0x8000_0000 <= v2c_request_id(data)->Ok_0 < 0x8000_0000
        },
        holds_integer(data, version, 1) && holds_integer(data, request_id, value) && !(-0x8000_0000
            <= value < 0x8000_0000) ==> v2c_request_id(data) is Err && v2c_request_id(
            data,
        )->Err_0 is InvalidRequestId,
{
    messages_are_read(data, version, community, pdu);
    elements_are_read(data, pdu.content_start, request_id);
    lemma_integer_content(data, version);
    lemma_integer_content(data, request_id);
}

} // verus!
