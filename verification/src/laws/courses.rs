//! What the source does and reports on a course of events.

use crate::error::{ParseErrorView, PduType};
use crate::laws::forms::writes_number;
use crate::source::{
    action_after, awaited, is_course, next_step, phase_after, Happening, ReportView,
    SourceEventView,
};
use crate::text::{decimal, numerals_read_back};
use vstd::prelude::*;
use vstd::string::*;

verus! {

/// What is reported on the last event of a course.
pub open spec fn reports_after(course: Seq<Happening>) -> Seq<ReportView> {
    if course.len() == 0 {
        Seq::empty()
    } else {
        next_step(
            phase_after(course.drop_last()),
            course.last().event,
            course.last().parsed,
        ).reports
    }
}

/// The events of a datagram are handed on as they are, with the peer that it came from, and the
/// datagram and its events are counted. Of a datagram that is no notification, the error is
/// reported.
pub proof fn datagrams_are_handed_on(course: Seq<Happening>)
    requires
        is_course(course),
        course.len() > 0,
        course.last().event is Received,
    ensures
        reports_after(course).len() == 2,
        reports_after(course)[0] == ReportView::BytesReceived(
            course.last().event->Received_data.len(),
        ),
        course.last().parsed matches Ok(notification) ==> {
            &&& action_after(course) is Forward
            &&& action_after(course)->events == notification.events
            &&& action_after(course)->Forward_peer == course.last().event->Received_peer
            &&& reports_after(course)[1] == ReportView::EventsReceived(notification.events.len())
        },
        course.last().parsed matches Err(error) ==> {
            &&& action_after(course) is Receive
            &&& reports_after(course)[1] is ParseError
            &&& reports_after(course)[1]->ParseError_0.error == error.message()
            &&& reports_after(course)[1]->ParseError_0.error_code == error.code()
        },
{
}

/// Once the events of a datagram are accepted, it is answered if it asks for that, to the peer that
/// it came from, and nothing is reported before the answer is sent. Where they cannot be accepted,
/// all of them are reported, and the source stops without an answer.
pub proof fn accepted_datagrams_are_answered(course: Seq<Happening>)
    requires
        is_course(course),
        course.len() >= 2,
        course[course.len() - 2].event is Received,
        course[course.len() - 2].parsed is Ok,
    ensures
        course.last().event is Accepted ==> {
            &&& reports_after(course).len() == 0
            &&& match course[course.len() - 2].parsed->Ok_0.response {
                Some(response) => {
                    &&& action_after(course) is Respond
                    &&& action_after(course)->response == response
                    &&& action_after(course)->Respond_peer == course[course.len()
                        - 2].event->Received_peer
                },
                None => action_after(course) is Receive,
            }
        },
        course.last().event is Closed ==> {
            &&& action_after(course) is Stop
            &&& reports_after(course) == seq![
                ReportView::StreamClosed(course[course.len() - 2].parsed->Ok_0.events.len()),
            ]
        },
        course.last().event is Accepted || course.last().event is Closed || course.last().event
            is Shutdown,
{
    let before = course.drop_last();
    assert(before.last() == course[course.len() - 2]);
    assert(phase_after(before) is Forwarding);
}

/// After an answer, whether it was sent or not, and after a failure to receive, the source waits for
/// the next datagram, and reports what happened and nothing else.
pub proof fn failures_do_not_stop_the_source(course: Seq<Happening>)
    requires
        is_course(course),
        course.len() > 0,
    ensures
        course.last().event matches SourceEventView::Sent(byte_size) ==> {
            &&& action_after(course) is Receive
            &&& phase_after(course) is Receiving
            &&& reports_after(course) == seq![ReportView::BytesSent(byte_size)]
        },
        course.last().event matches SourceEventView::SendFailed(error) ==> {
            &&& action_after(course) is Receive
            &&& phase_after(course) is Receiving
            &&& reports_after(course) == seq![ReportView::SendError(error)]
        },
        course.last().event matches SourceEventView::ReceiveFailed(error) ==> {
            &&& action_after(course) is Receive
            &&& phase_after(course) is Receiving
            &&& reports_after(course) == seq![ReportView::ReceiveError(error)]
        },
        course.last().event is Shutdown ==> {
            &&& action_after(course) is Stop
            &&& reports_after(course).len() == 0
        },
        action_after(course) is Stop ==> course.last().event is Shutdown || course.last().event
            is Closed,
{
}

/// An event is always awaited where the action before it asks for it, and a shutdown until the
/// source has stopped.
pub proof fn actions_await_their_events(course: Seq<Happening>, event: SourceEventView)
    requires
        is_course(course),
    ensures
        action_after(course) is Receive <==> phase_after(course) is Receiving,
        action_after(course) is Forward <==> phase_after(course) is Forwarding,
        action_after(course) is Respond <==> phase_after(course) is Responding,
        action_after(course) is Stop <==> phase_after(course) is Stopped,
        awaited(phase_after(course), event) <==> match event {
            SourceEventView::Received { .. } => action_after(course) is Receive,
            SourceEventView::ReceiveFailed(_) => action_after(course) is Receive,
            SourceEventView::Accepted => action_after(course) is Forward,
            SourceEventView::Closed => action_after(course) is Forward,
            SourceEventView::Sent(_) => action_after(course) is Respond,
            SourceEventView::SendFailed(_) => action_after(course) is Respond,
            SourceEventView::Shutdown => !(action_after(course) is Stop),
        },
{
    if course.len() > 0 {
        let before = course.drop_last();
    }
}

/// The text ends with the other.
pub open spec fn ends_with(text: Seq<char>, end: Seq<char>) -> bool {
    text.len() >= end.len() && text.skip(text.len() - end.len()) == end
}

proof fn lemma_ends_with(front: Seq<char>, end: Seq<char>)
    ensures
        ends_with(front + end, end),
{
    assert((front + end).skip(front.len() as int) =~= end);
}

/// The sentence of an error ends with what was found wrong, and tells the number of trailing octets
/// and the kind of the message.
pub proof fn errors_tell_what_is_wrong(error: ParseErrorView)
    ensures
        error matches ParseErrorView::MalformedMessage(detail) ==> ends_with(
            error.message(),
            detail,
        ),
        error matches ParseErrorView::UnsupportedVersion(detail) ==> error.message() == detail,
        error matches ParseErrorView::InvalidV1Trap(detail) ==> ends_with(error.message(), detail),
        error matches ParseErrorView::InvalidV2cNotification(detail) ==> ends_with(
            error.message(),
            detail,
        ),
        error matches ParseErrorView::InvalidRequestId(detail) ==> ends_with(
            error.message(),
            detail,
        ),
        error matches ParseErrorView::InvalidPduType(pdu_type) ==> ends_with(
            error.message(),
            pdu_type.spec_name(),
        ),
        error matches ParseErrorView::TrailingData(count) ==> exists|number: Seq<char>| #[trigger]
            writes_number(number, count as int) && error.message() == "SNMP message contained "@
                + number + " trailing bytes"@,
{
    match error {
        ParseErrorView::MalformedMessage(detail) => {
            lemma_ends_with("failed to parse SNMP message: "@, detail);
        },
        ParseErrorView::UnsupportedVersion(_) => {},
        ParseErrorView::TrailingData(count) => {
            numerals_read_back(count, 10);
            assert(writes_number(decimal(count), count as int));
        },
        ParseErrorView::InvalidPduType(pdu_type) => {
            lemma_ends_with("invalid PDU type for SNMP notification: "@, pdu_type.spec_name());
        },
        ParseErrorView::InvalidV1Trap(detail) => {
            lemma_ends_with("invalid RFC 1157 SNMPv1 trap: "@, detail);
        },
        ParseErrorView::InvalidV2cNotification(detail) => {
            lemma_ends_with("invalid RFC 3416 SNMPv2 notification: "@, detail);
        },
        ParseErrorView::InvalidRequestId(detail) => {
            lemma_ends_with("invalid RFC 3416 request-id: "@, detail);
        },
    }
}

proof fn lemma_codes_differ()
    ensures
        "malformed_message"@.len() == 17,
        "unsupported_version"@.len() == 19,
        "trailing_data"@.len() == 13,
        "invalid_pdu_type"@.len() == 16,
        "invalid_v1_trap"@.len() == 15,
        "invalid_v2c_notification"@.len() == 24,
        "invalid_request_id"@.len() == 18,
{
    reveal_strlit("malformed_message");
    reveal_strlit("unsupported_version");
    reveal_strlit("trailing_data");
    reveal_strlit("invalid_pdu_type");
    reveal_strlit("invalid_v1_trap");
    reveal_strlit("invalid_v2c_notification");
    reveal_strlit("invalid_request_id");
}

/// Errors of different kinds have different codes, and those of one kind the same.
pub proof fn codes_tell_errors_apart(left: ParseErrorView, right: ParseErrorView)
    ensures
        left.code() == right.code() <==> match left {
            ParseErrorView::MalformedMessage(_) => right is MalformedMessage,
            ParseErrorView::UnsupportedVersion(_) => right is UnsupportedVersion,
            ParseErrorView::TrailingData(_) => right is TrailingData,
            ParseErrorView::InvalidPduType(_) => right is InvalidPduType,
            ParseErrorView::InvalidV1Trap(_) => right is InvalidV1Trap,
            ParseErrorView::InvalidV2cNotification(_) => right is InvalidV2cNotification,
            ParseErrorView::InvalidRequestId(_) => right is InvalidRequestId,
        },
{
    lemma_codes_differ();
    let a = left.code().len();
    let b = right.code().len();
}

/// A kind of message has the tag number that it was made of, so that different numbers are different
/// kinds.
pub proof fn kinds_keep_their_code(code: u32, other: u32)
    ensures
        PduType::of_code(code).spec_code() == code,
        PduType::of_code(code) == PduType::of_code(other) ==> code == other,
{
}

proof fn lemma_kind_names()
    ensures
        "GetRequest"@.len() == 10 && "GetRequest"@[0] == 'G',
        "GetNextRequest"@.len() == 14 && "GetNextRequest"@[0] == 'G' && "GetNextRequest"@[3] == 'N',
        "Response"@.len() == 8 && "Response"@[0] == 'R',
        "SetRequest"@.len() == 10 && "SetRequest"@[0] == 'S',
        "TrapV1"@.len() == 6 && "TrapV1"@[0] == 'T' && "TrapV1"@[5] == '1',
        "GetBulkRequest"@.len() == 14 && "GetBulkRequest"@[0] == 'G' && "GetBulkRequest"@[3] == 'B',
        "InformRequest"@.len() == 13 && "InformRequest"@[0] == 'I',
        "TrapV2"@.len() == 6 && "TrapV2"@[0] == 'T' && "TrapV2"@[5] == '2',
        "Report"@.len() == 6 && "Report"@[0] == 'R',
        "PduType("@.len() == 8 && "PduType("@[0] == 'P',
        ")"@.len() == 1,
{
    reveal_strlit("GetRequest");
    reveal_strlit("GetNextRequest");
    reveal_strlit("Response");
    reveal_strlit("SetRequest");
    reveal_strlit("TrapV1");
    reveal_strlit("GetBulkRequest");
    reveal_strlit("InformRequest");
    reveal_strlit("TrapV2");
    reveal_strlit("Report");
    reveal_strlit("PduType(");
    reveal_strlit(")");
}

/// A kind without a name of its own is told by its number, and no two kinds by the same name.
pub proof fn kinds_are_told_apart(left: PduType, right: PduType)
    ensures
        left matches PduType::Other(code) ==> exists|number: Seq<char>| #[trigger]
            writes_number(number, code as int) && left.spec_name() == "PduType("@ + number + ")"@,
        left.spec_name() == right.spec_name() ==> left == right,
{
    lemma_kind_names();
    if let PduType::Other(code) = left {
        numerals_read_back(code as nat, 10);
        assert(writes_number(decimal(code as nat), code as int));
        if let PduType::Other(other) = right {
            numerals_read_back(other as nat, 10);
            let a = left.spec_name();
            let b = right.spec_name();
            assert(a.subrange(8, a.len() - 1) =~= decimal(code as nat));
            assert(b.subrange(8, b.len() - 1) =~= decimal(other as nat));
        }
    }
    assert(left is Other ==> left.spec_name()[0] == 'P');
    assert(right is Other ==> right.spec_name()[0] == 'P');
}

} // verus!
