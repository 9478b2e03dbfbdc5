//! The course of the source: receive a datagram, hand its events on, and acknowledge it.

use crate::error::{ParseError, ParseErrorView};
use crate::event::{EventBatch, LogValueView};
use crate::internal_events::{parse_error_report, ParseErrorReport, SnmpTrapParseError};
use crate::mib::resolver::MibResolver;
use crate::mib::table::SymbolView;
use crate::notification::{
    notification_by, outcome, parse_snmp_trap, patched_v2c, NotificationView,
    ParsedSnmpNotification,
};
use crate::response::{buffer_octets, buffered, opt_buffered};
use crate::wire::{snmp_v1, snmp_v2c, snmp_v3};
use vstd::prelude::*;
use vstd::string::*;

verus! {

/// What the source is waiting for.
enum Phase {
    /// A datagram.
    Receiving,
    /// That the events of a datagram are accepted.
    Forwarding { count: usize, response: Option<bytes::Bytes>, peer: String },
    /// That a response is sent.
    Responding,
    /// Nothing any more.
    Stopped,
}

/// What the source is waiting for, as mathematical values.
pub ghost enum PhaseView {
    Receiving,
    Forwarding { count: nat, response: Option<Seq<u8>>, peer: Seq<char> },
    Responding,
    Stopped,
}

/// What has happened.
pub enum SourceEvent {
    /// A datagram was received.
    Received { data: bytes::Bytes, peer: String },
    /// Receiving failed.
    ReceiveFailed(String),
    /// The events were accepted for forwarding.
    Accepted,
    /// The events were not accepted, for whoever accepts them is gone.
    Closed,
    /// A response of so many bytes was sent.
    Sent(usize),
    /// Sending a response failed.
    SendFailed(String),
    /// The source is to stop.
    Shutdown,
}

/// A [`SourceEvent`] as mathematical values.
pub ghost enum SourceEventView {
    Received { data: Seq<u8>, peer: Seq<char> },
    ReceiveFailed(Seq<char>),
    Accepted,
    Closed,
    Sent(usize),
    SendFailed(Seq<char>),
    Shutdown,
}

impl View for SourceEvent {
    type V = SourceEventView;

    open spec fn view(&self) -> SourceEventView {
        match self {
            SourceEvent::Received { data, peer } => SourceEventView::Received {
                data: buffered(*data),
                peer: peer@,
            },
            SourceEvent::ReceiveFailed(error) => SourceEventView::ReceiveFailed(error@),
            SourceEvent::Accepted => SourceEventView::Accepted,
            SourceEvent::Closed => SourceEventView::Closed,
            SourceEvent::Sent(byte_size) => SourceEventView::Sent(*byte_size),
            SourceEvent::SendFailed(error) => SourceEventView::SendFailed(error@),
            SourceEvent::Shutdown => SourceEventView::Shutdown,
        }
    }
}

/// What the source reports about itself.
pub enum SourceReport {
    BytesReceived(usize),
    ReceiveError(String),
    EventsReceived(usize),
    ParseError(SnmpTrapParseError),
    StreamClosed(usize),
    BytesSent(usize),
    SendError(String),
}

/// A [`SourceReport`] as mathematical values.
pub ghost enum ReportView {
    BytesReceived(nat),
    ReceiveError(Seq<char>),
    EventsReceived(nat),
    ParseError(ParseErrorReport),
    StreamClosed(nat),
    BytesSent(usize),
    SendError(Seq<char>),
}

impl View for SourceReport {
    type V = ReportView;

    open spec fn view(&self) -> ReportView {
        match self {
            SourceReport::BytesReceived(byte_size) => ReportView::BytesReceived(*byte_size as nat),
            SourceReport::ReceiveError(error) => ReportView::ReceiveError(error@),
            SourceReport::EventsReceived(count) => ReportView::EventsReceived(*count as nat),
            SourceReport::ParseError(error) => ReportView::ParseError(error@),
            SourceReport::StreamClosed(count) => ReportView::StreamClosed(*count as nat),
            SourceReport::BytesSent(byte_size) => ReportView::BytesSent(*byte_size),
            SourceReport::SendError(error) => ReportView::SendError(error@),
        }
    }
}

/// What the source does next.
pub enum SourceAction {
    /// Wait for a datagram.
    Receive,
    /// Hand events on, and wait until they are accepted.
    Forward { events: EventBatch, peer: String },
    /// Send a response.
    Respond { response: bytes::Bytes, peer: String },
    /// Stop.
    Stop,
}

/// A [`SourceAction`] as mathematical values.
pub ghost enum SourceActionView {
    Receive,
    Forward { events: Seq<Map<Seq<char>, LogValueView>>, peer: Seq<char> },
    Respond { response: Seq<u8>, peer: Seq<char> },
    Stop,
}

impl View for SourceAction {
    type V = SourceActionView;

    open spec fn view(&self) -> SourceActionView {
        match self {
            SourceAction::Receive => SourceActionView::Receive,
            SourceAction::Forward { events, peer } => SourceActionView::Forward {
                events: events@,
                peer: peer@,
            },
            SourceAction::Respond { response, peer } => SourceActionView::Respond {
                response: buffered(*response),
                peer: peer@,
            },
            SourceAction::Stop => SourceActionView::Stop,
        }
    }
}

/// What the source reports and what it does next.
pub struct SourceStep {
    pub reports: Vec<SourceReport>,
    pub action: SourceAction,
}

/// The reports as mathematical values.
pub open spec fn reports_view(reports: Seq<SourceReport>) -> Seq<ReportView> {
    reports.map_values(|report: SourceReport| report@)
}

/// A step: what the source then waits for, what it reports and what it does.
#[verifier::ext_equal]
pub ghost struct StepView {
    pub phase: PhaseView,
    pub reports: Seq<ReportView>,
    pub action: SourceActionView,
}

/// The source, between two events.
pub struct SnmpTrapSource {
    phase: Phase,
}

impl View for SnmpTrapSource {
    type V = PhaseView;

    closed spec fn view(&self) -> PhaseView {
        match self.phase {
            Phase::Receiving => PhaseView::Receiving,
            Phase::Forwarding { count, response, peer } => PhaseView::Forwarding {
                count: count as nat,
                response: opt_buffered(response),
                peer: peer@,
            },
            Phase::Responding => PhaseView::Responding,
            Phase::Stopped => PhaseView::Stopped,
        }
    }
}

/// The event is one that the source may be waiting for. A shutdown can come at any time.
pub open spec fn awaited(phase: PhaseView, event: SourceEventView) -> bool {
    match event {
        SourceEventView::Received { .. } => phase is Receiving,
        SourceEventView::ReceiveFailed(_) => phase is Receiving,
        SourceEventView::Accepted => phase is Forwarding,
        SourceEventView::Closed => phase is Forwarding,
        SourceEventView::Sent(_) => phase is Responding,
        SourceEventView::SendFailed(_) => phase is Responding,
        SourceEventView::Shutdown => !(phase is Stopped),
    }
}

/// The step on a datagram, by what it parses to: its events are handed on, or the error is
/// reported.
pub open spec fn received_step(
    byte_size: nat,
    peer: Seq<char>,
    parsed: Result<NotificationView, ParseErrorView>,
) -> StepView {
    match parsed {
        Ok(notification) => StepView {
            phase: PhaseView::Forwarding {
                count: notification.events.len(),
                response: notification.response,
                peer,
            },
            reports: seq![
                ReportView::BytesReceived(byte_size),
                ReportView::EventsReceived(notification.events.len()),
            ],
            action: SourceActionView::Forward { events: notification.events, peer },
        },
        Err(error) => StepView {
            phase: PhaseView::Receiving,
            reports: seq![
                ReportView::BytesReceived(byte_size),
                ReportView::ParseError(parse_error_report(error)),
            ],
            action: SourceActionView::Receive,
        },
    }
}

/// The step back to waiting for a datagram.
pub open spec fn receiving_step(reports: Seq<ReportView>) -> StepView {
    StepView { phase: PhaseView::Receiving, reports, action: SourceActionView::Receive }
}

/// The step that ends the source.
pub open spec fn stopping_step(reports: Seq<ReportView>) -> StepView {
    StepView { phase: PhaseView::Stopped, reports, action: SourceActionView::Stop }
}

/// The step on an event, with what the datagram parses to where the event is one. An inform is
/// acknowledged when its events were accepted.
pub open spec fn next_step(
    phase: PhaseView,
    event: SourceEventView,
    parsed: Result<NotificationView, ParseErrorView>,
) -> StepView {
    match event {
        SourceEventView::Received { data, peer } => received_step(data.len(), peer, parsed),
        SourceEventView::ReceiveFailed(error) => receiving_step(
            seq![ReportView::ReceiveError(error)],
        ),
        SourceEventView::Accepted => match phase {
            PhaseView::Forwarding { count: _, response: Some(response), peer } => StepView {
                phase: PhaseView::Responding,
                reports: Seq::empty(),
                action: SourceActionView::Respond { response, peer },
            },
            _ => receiving_step(Seq::empty()),
        },
        SourceEventView::Closed => stopping_step(
            seq![
                ReportView::StreamClosed(
                    match phase {
                        PhaseView::Forwarding { count, response: _, peer: _ } => count,
                        _ => 0,
                    },
                ),
            ],
        ),
        SourceEventView::Sent(byte_size) => receiving_step(seq![ReportView::BytesSent(byte_size)]),
        SourceEventView::SendFailed(error) => receiving_step(seq![ReportView::SendError(error)]),
        SourceEventView::Shutdown => stopping_step(Seq::empty()),
    }
}

/// What a datagram parses to.
pub open spec fn parsed_datagram(
    data: Seq<u8>,
    peer: Seq<char>,
    names: Map<Seq<u32>, SymbolView>,
) -> Result<NotificationView, ParseErrorView> {
    notification_by(
        data,
        snmp_v1(data),
        snmp_v2c(data),
        patched_v2c(data),
        snmp_v3(data),
        peer,
        names,
    )
}

/// What the datagram of an event parses to.
pub open spec fn parsed_event(event: SourceEventView, names: Map<Seq<u32>, SymbolView>) -> Result<
    NotificationView,
    ParseErrorView,
> {
    match event {
        SourceEventView::Received { data, peer } => parsed_datagram(data, peer, names),
        _ => Err(ParseErrorView::MalformedMessage(Seq::empty())),
    }
}

/// The source after a step.
pub open spec fn stepped(source: SnmpTrapSource, step: SourceStep) -> StepView {
    StepView {
        phase: source@,
        reports: reports_view(step.reports@),
        action: step.action@,
    }
}

fn one_report(report: SourceReport) -> (r: Vec<SourceReport>)
    ensures
        reports_view(r@) == seq![report@],
{
    let mut reports: Vec<SourceReport> = Vec::new();
    reports.push(report);
    assert(reports_view(reports@) =~= seq![report@]);
    reports
}

fn no_report() -> (r: Vec<SourceReport>)
    ensures
        reports_view(r@) == Seq::<ReportView>::empty(),
{
    let reports: Vec<SourceReport> = Vec::new();
    assert(reports_view(reports@) =~= Seq::empty());
    reports
}

impl SnmpTrapSource {
    /// A source that waits for its first datagram.
    pub fn new() -> (r: SnmpTrapSource)
        ensures
            r@ == PhaseView::Receiving,
    {
        SnmpTrapSource { phase: Phase::Receiving }
    }

    /// Whether the event is one that the source may be waiting for.
    pub fn awaits(&self, event: &SourceEvent) -> (r: bool)
        ensures
            r == awaited(self@, event@),
    {
        match event {
            SourceEvent::Received { .. } | SourceEvent::ReceiveFailed(_) => match &self.phase {
                Phase::Receiving => true,
                _ => false,
            },
            SourceEvent::Accepted | SourceEvent::Closed => match &self.phase {
                Phase::Forwarding { .. } => true,
                _ => false,
            },
            SourceEvent::Sent(_) | SourceEvent::SendFailed(_) => match &self.phase {
                Phase::Responding => true,
                _ => false,
            },
            SourceEvent::Shutdown => match &self.phase {
                Phase::Stopped => false,
                _ => true,
            },
        }
    }

    /// The step on a datagram, by what it parses to.
    pub fn receive(
        &mut self,
        byte_size: usize,
        peer: String,
        parsed: Result<ParsedSnmpNotification, ParseError>,
    ) -> (r: SourceStep)
        ensures
            stepped(*final(self), r) == received_step(byte_size as nat, peer@, outcome(parsed)),
    {
        let mut reports = one_report(SourceReport::BytesReceived(byte_size));
        let ghost before = reports_view(reports@);
        match parsed {
            Ok(notification) => {
                let count: usize = notification.events.len();
                let report = SourceReport::EventsReceived(count);
                reports.push(report);
                assert(reports_view(reports@) =~= before.push(report@));
                self.phase = Phase::Forwarding {
                    count,
                    response: notification.response,
                    peer: peer.clone(),
                };
                SourceStep {
                    reports,
                    action: SourceAction::Forward { events: notification.events, peer },
                }
            },
            Err(error) => {
                let report = SourceReport::ParseError(SnmpTrapParseError::new(&error));
                reports.push(report);
                assert(reports_view(reports@) =~= before.push(report@));
                self.phase = Phase::Receiving;
                SourceStep { reports, action: SourceAction::Receive }
            },
        }
    }

    fn accepted(&mut self) -> (r: SourceStep)
        ensures
            stepped(*final(self), r) == next_step(
                old(self)@,
                SourceEventView::Accepted,
                Err(ParseErrorView::MalformedMessage(Seq::empty())),
            ),
    {
        let mut phase = Phase::Receiving;
        core::mem::swap(&mut phase, &mut self.phase);
        match phase {
            Phase::Forwarding { count: _, response: Some(response), peer } => {
                self.phase = Phase::Responding;
                SourceStep {
                    reports: no_report(),
                    action: SourceAction::Respond { response, peer },
                }
            },
            _ => SourceStep { reports: no_report(), action: SourceAction::Receive },
        }
    }

    /// Goes on by what has happened.
    pub fn snmp_trap_udp(&mut self, event: SourceEvent, mib_resolver: &MibResolver) -> (r:
        SourceStep)
        requires
            awaited(old(self)@, event@),
        ensures
            stepped(*final(self), r) == next_step(
                old(self)@,
                event@,
                parsed_event(event@, mib_resolver@),
            ),
    {
        match event {
            SourceEvent::Received { data, peer } => {
                let parsed = parse_snmp_trap(&data, peer.as_str(), mib_resolver);
                self.receive(buffer_octets(&data).len(), peer, parsed)
            },
            SourceEvent::ReceiveFailed(error) => {
                self.phase = Phase::Receiving;
                SourceStep {
                    reports: one_report(SourceReport::ReceiveError(error)),
                    action: SourceAction::Receive,
                }
            },
            SourceEvent::Accepted => self.accepted(),
            SourceEvent::Closed => {
                let count: usize = match &self.phase {
                    Phase::Forwarding { count, response: _, peer: _ } => *count,
                    _ => 0,
                };
                self.phase = Phase::Stopped;
                SourceStep {
                    reports: one_report(SourceReport::StreamClosed(count)),
                    action: SourceAction::Stop,
                }
            },
            SourceEvent::Sent(byte_size) => {
                self.phase = Phase::Receiving;
                SourceStep {
                    reports: one_report(SourceReport::BytesSent(byte_size)),
                    action: SourceAction::Receive,
                }
            },
            SourceEvent::SendFailed(error) => {
                self.phase = Phase::Receiving;
                SourceStep {
                    reports: one_report(SourceReport::SendError(error)),
                    action: SourceAction::Receive,
                }
            },
            SourceEvent::Shutdown => {
                self.phase = Phase::Stopped;
                SourceStep { reports: no_report(), action: SourceAction::Stop }
            },
        }
    }
}

/// One event of a course, with what its datagram parses to where it is one.
pub ghost struct Happening {
    pub event: SourceEventView,
    pub parsed: Result<NotificationView, ParseErrorView>,
}

/// What the source is waiting for after a course of events.
pub open spec fn phase_after(course: Seq<Happening>) -> PhaseView
    decreases course.len(),
{
    if course.len() == 0 {
        PhaseView::Receiving
    } else {
        next_step(
            phase_after(course.drop_last()),
            course.last().event,
            course.last().parsed,
        ).phase
    }
}

/// The action that ends a course of events.
pub open spec fn action_after(course: Seq<Happening>) -> SourceActionView {
    if course.len() == 0 {
        SourceActionView::Receive
    } else {
        next_step(
            phase_after(course.drop_last()),
            course.last().event,
            course.last().parsed,
        ).action
    }
}

/// Each event of a course is one that the source was waiting for.
pub open spec fn is_course(course: Seq<Happening>) -> bool
    decreases course.len(),
{
    course.len() > 0 ==> is_course(course.drop_last()) && awaited(
        phase_after(course.drop_last()),
        course.last().event,
    )
}

/// A response is sent only directly after the events of the datagram that it answers were accepted,
/// and to the peer that the datagram came from.
pub proof fn responses_follow_acceptance(course: Seq<Happening>)
    requires
        is_course(course),
        action_after(course) is Respond,
    ensures
        course.len() >= 2,
        course.last().event is Accepted,
        course[course.len() - 2].event is Received,
        course[course.len() - 2].parsed matches Ok(notification) && notification.response == Some(
            action_after(course)->response,
        ),
        course[course.len() - 2].event->Received_peer == action_after(course)->Respond_peer,
{
    let before = course.drop_last();
    assert(phase_after(before) is Forwarding);
    assert(before.len() > 0);
    assert(before.last() == course[course.len() - 2]);
}

/// Once the source has been told to stop, or has found that nobody accepts its events, no event is
/// awaited any more, so that nothing more is sent.
pub proof fn stopping_is_final(course: Seq<Happening>, event: SourceEventView)
    requires
        is_course(course),
        course.len() > 0,
        course.last().event is Shutdown || course.last().event is Closed,
    ensures
        phase_after(course) is Stopped,
        action_after(course) is Stop,
        !awaited(phase_after(course), event),
{
}

/// A datagram that cannot be parsed is answered by nothing: the source waits for the next one.
pub proof fn errors_are_not_answered(course: Seq<Happening>)
    requires
        is_course(course),
        course.len() > 0,
        course.last().event is Received,
        course.last().parsed is Err,
    ensures
        action_after(course) is Receive,
        phase_after(course) is Receiving,
{
}

} // verus!
