//! The agent's connection manager: the state of the one outbound connection,
//! and what the run loop is to do after each attempt to send or to connect.

use vstd::prelude::*;

verus! {

/// The state of the outbound connection.
#[derive(Debug, Clone, Copy, PartialEq, Eq, Structural)]
pub enum ConnectionState {
    /// No connection has been established yet.
    Disconnected,
    /// Records can be sent.
    Connected,
    /// A send has failed and a new connection is being sought.
    Reconnecting,
}

/// The step of the transport at which an error arose.
#[derive(Debug, Clone, Copy, PartialEq, Eq, Structural)]
pub enum TransportStage {
    Connect,
    Write,
    Flush,
}

/// A failure of the transport: where it arose and what the system said.
#[derive(Debug, PartialEq, Eq)]
pub struct TransportError {
    pub stage: TransportStage,
    pub detail: String,
}

/// The mathematical value of a [`TransportError`].
pub struct TransportErrorView {
    pub stage: TransportStage,
    pub detail: Seq<char>,
}

impl View for TransportError {
    type V = TransportErrorView;

    open spec fn view(&self) -> TransportErrorView {
        TransportErrorView { stage: self.stage, detail: self.detail@ }
    }
}

impl TransportError {
    /// A copy of this error.
    pub fn duplicate(&self) -> (copy: TransportError)
        ensures
            copy@ == self@,
    {
        TransportError { stage: self.stage, detail: self.detail.clone() }
    }
}

/// What the run loop observed.
#[derive(Debug, PartialEq, Eq)]
pub enum Event {
    /// A connection attempt succeeded.
    Established,
    /// A connection attempt failed.
    ConnectFailed(TransportError),
    /// A record was written and flushed.
    Sent,
    /// Writing or flushing a record failed.
    SendFailed(TransportError),
}

/// The mathematical value of an [`Event`].
pub enum EventView {
    Established,
    ConnectFailed(TransportErrorView),
    Sent,
    SendFailed(TransportErrorView),
}

impl View for Event {
    type V = EventView;

    open spec fn view(&self) -> EventView {
        match self {
            Event::Established => EventView::Established,
            Event::ConnectFailed(error) => EventView::ConnectFailed(error@),
            Event::Sent => EventView::Sent,
            Event::SendFailed(error) => EventView::SendFailed(error@),
        }
    }
}

/// What the run loop is to do next.
#[derive(Debug, PartialEq, Eq)]
pub enum Directive {
    /// Wait `wait_ms` milliseconds, then collect and send the next record.
    /// `report` holds the number of records sent when a status line is due.
    Proceed { wait_ms: u64, report: Option<u64> },
    /// Wait `backoff_ms` milliseconds, then try once to connect anew.
    Reconnect { backoff_ms: u64 },
    /// Leave the run loop and surface `error`.
    Terminate { error: TransportError },
}

/// The mathematical value of a [`Directive`].
pub enum DirectiveView {
    Proceed { wait_ms: u64, report: Option<u64> },
    Reconnect { backoff_ms: u64 },
    Terminate { error: TransportErrorView },
}

impl View for Directive {
    type V = DirectiveView;

    open spec fn view(&self) -> DirectiveView {
        match self {
            Directive::Proceed { wait_ms, report } => DirectiveView::Proceed {
                wait_ms: *wait_ms,
                report: *report,
            },
            Directive::Reconnect { backoff_ms } => DirectiveView::Reconnect {
                backoff_ms: *backoff_ms,
            },
            Directive::Terminate { error } => DirectiveView::Terminate { error: error@ },
        }
    }
}

/// The fixed intervals of an agent.
#[derive(Debug, Clone, Copy, PartialEq, Eq, Structural)]
pub struct Timing {
    /// Milliseconds between two records.
    pub interval_ms: u64,
    /// Milliseconds to wait before a reconnection attempt.
    pub backoff_ms: u64,
    /// After how many records a status line is due; zero for never.
    pub report_every: u64,
}

impl Timing {
    /// The usual intervals: a record every second, two seconds before a
    /// reconnection, a status line every ten records.
    pub fn standard() -> (timing: Timing)
        ensures
            timing == (Timing { interval_ms: 1_000, backoff_ms: 2_000, report_every: 10 }),
    {
        Timing { interval_ms: 1_000, backoff_ms: 2_000, report_every: 10 }
    }
}

/// The mathematical value of a [`ConnectionManager`].
pub struct ManagerView {
    pub timing: Timing,
    pub state: ConnectionState,
    /// Records sent since the connection was last established.
    pub sent: u64,
    /// The send failure that recovery is under way for.
    pub failure: Option<TransportErrorView>,
}

/// Whether a manager remembers a send failure exactly while it reconnects.
pub open spec fn consistent(manager: ManagerView) -> bool {
    manager.failure is Some <==> manager.state == ConnectionState::Reconnecting
}

/// The count of records after one more was sent; it stays at the largest
/// value once that is reached.
pub open spec fn counted(sent: u64) -> u64 {
    if sent < u64::MAX {
        (sent + 1) as u64
    } else {
        sent
    }
}

/// The status report due once `sent` records are out: every
/// `report_every`-th record calls for one.
pub open spec fn report_due(timing: Timing, sent: u64) -> Option<u64> {
    if timing.report_every > 0 && sent % timing.report_every == 0 {
        Some(sent)
    } else {
        None
    }
}

/// The transition relation of the connection manager: the state after
/// `event` and the directive for the run loop, or `None` where the event has
/// no meaning in the state, which then stays as it is.
pub open spec fn transition(manager: ManagerView, event: EventView) -> Option<
    (ManagerView, DirectiveView),
> {
    match (manager.state, event) {
        (ConnectionState::Disconnected, EventView::Established) => Some(
            (
                ManagerView { state: ConnectionState::Connected, sent: 0, failure: None, ..manager },
                DirectiveView::Proceed { wait_ms: 0, report: None },
            ),
        ),
        (ConnectionState::Disconnected, EventView::ConnectFailed(error)) => Some(
            (manager, DirectiveView::Terminate { error }),
        ),
        (ConnectionState::Connected, EventView::Sent) => Some(
            (
                ManagerView { sent: counted(manager.sent), ..manager },
                DirectiveView::Proceed {
                    wait_ms: manager.timing.interval_ms,
                    report: report_due(manager.timing, counted(manager.sent)),
                },
            ),
        ),
        (ConnectionState::Connected, EventView::SendFailed(error)) => Some(
            (
                ManagerView {
                    state: ConnectionState::Reconnecting,
                    failure: Some(error),
                    ..manager
                },
                DirectiveView::Reconnect { backoff_ms: manager.timing.backoff_ms },
            ),
        ),
        (ConnectionState::Reconnecting, EventView::Established) => Some(
            (
                ManagerView { state: ConnectionState::Connected, sent: 0, failure: None, ..manager },
                DirectiveView::Proceed { wait_ms: manager.timing.interval_ms, report: None },
            ),
        ),
        (ConnectionState::Reconnecting, EventView::ConnectFailed(_)) => match manager.failure {
            Some(error) => Some((manager, DirectiveView::Terminate { error })),
            None => None,
        },
        _ => None,
    }
}

/// The manager after `event`: as the transition says, or unchanged where the
/// event has no meaning.
pub open spec fn after(manager: ManagerView, event: EventView) -> ManagerView {
    match transition(manager, event) {
        Some((next, _)) => next,
        None => manager,
    }
}

/// The directive that `event` calls for, if any.
pub open spec fn directed(manager: ManagerView, event: EventView) -> Option<DirectiveView> {
    match transition(manager, event) {
        Some((_, action)) => Some(action),
        None => None,
    }
}

/// The mathematical value of an optional directive.
pub open spec fn directive_view(directive: Option<Directive>) -> Option<DirectiveView> {
    match directive {
        Some(given) => Some(given@),
        None => None,
    }
}

/// Every transition keeps the manager consistent and leaves its timing alone.
pub proof fn lemma_transition_keeps_consistency(manager: ManagerView, event: EventView)
    requires
        consistent(manager),
    ensures
        consistent(after(manager, event)),
        after(manager, event).timing == manager.timing,
{
}

/// A reconnection is called for by a failed send on an established
/// connection and by nothing else, so each send failure triggers exactly one
/// attempt.
pub proof fn lemma_reconnect_follows_send_failure(manager: ManagerView, event: EventView)
    requires
        consistent(manager),
    ensures
        (directed(manager, event) matches Some(action) && action is Reconnect) <==> (manager.state
            == ConnectionState::Connected && event is SendFailed),
{
}

/// The run loop is told to end only when an attempt to connect has failed.
pub proof fn lemma_terminate_follows_connect_failure(manager: ManagerView, event: EventView)
    requires
        consistent(manager),
    ensures
        (directed(manager, event) matches Some(action) && action is Terminate) <==> (manager.state
            != ConnectionState::Connected && event is ConnectFailed),
{
}

/// A send that fails once, followed by a reconnection that succeeds, leaves
/// the manager `Connected` with its counter at zero, and the send of the next
/// tick counts as the first on the new connection.
pub proof fn lemma_recovery_resumes_sending(manager: ManagerView, failure: TransportErrorView)
    requires
        consistent(manager),
        manager.state == ConnectionState::Connected,
    ensures
        ({
            let failed = after(manager, EventView::SendFailed(failure));
            let recovered = after(failed, EventView::Established);
            let resumed = after(recovered, EventView::Sent);
            &&& failed.state == ConnectionState::Reconnecting
            &&& directed(manager, EventView::SendFailed(failure)) == Some(
                DirectiveView::Reconnect { backoff_ms: manager.timing.backoff_ms },
            )
            &&& recovered.state == ConnectionState::Connected
            &&& recovered.sent == 0
            &&& recovered.failure is None
            &&& directed(failed, EventView::Established) == Some(
                DirectiveView::Proceed { wait_ms: manager.timing.interval_ms, report: None },
            )
            &&& resumed.state == ConnectionState::Connected
            &&& resumed.sent == 1
            &&& directed(recovered, EventView::Sent) matches Some(action) && action is Proceed
        }),
{
}

/// A send failure followed by a failed reconnection ends the run loop, and
/// the error surfaced is that of the send, not that of the reconnection.
pub proof fn lemma_failed_recovery_terminates(
    manager: ManagerView,
    failure: TransportErrorView,
    refusal: TransportErrorView,
)
    requires
        consistent(manager),
        manager.state == ConnectionState::Connected,
    ensures
        ({
            let failed = after(manager, EventView::SendFailed(failure));
            &&& after(failed, EventView::ConnectFailed(refusal)) == failed
            &&& directed(failed, EventView::ConnectFailed(refusal)) == Some(
                DirectiveView::Terminate { error: failure },
            )
        }),
{
}

/// The bookkeeping of the one outbound connection of an agent.
pub struct ConnectionManager {
    timing: Timing,
    state: ConnectionState,
    sent: u64,
    failure: Option<TransportError>,
}

impl View for ConnectionManager {
    type V = ManagerView;

    closed spec fn view(&self) -> ManagerView {
        ManagerView {
            timing: self.timing,
            state: self.state,
            sent: self.sent,
            failure: match self.failure {
                Some(error) => Some(error@),
                None => None,
            },
        }
    }
}

impl ConnectionManager {
    /// The invariant of every manager: it remembers a send failure exactly
    /// while it reconnects.
    #[verifier::type_invariant]
    spec fn remembers_while_reconnecting(&self) -> bool {
        self.failure is Some <==> self.state == ConnectionState::Reconnecting
    }

    /// What holds of every manager.
    pub open spec fn well_formed(&self) -> bool {
        consistent(self@)
    }

    /// Creates the manager of an agent that has not connected yet.
    pub fn new(timing: Timing) -> (manager: ConnectionManager)
        ensures
            manager.well_formed(),
            manager@ == (ManagerView {
                timing,
                state: ConnectionState::Disconnected,
                sent: 0,
                failure: None,
            }),
    {
        ConnectionManager { timing, state: ConnectionState::Disconnected, sent: 0, failure: None }
    }

    /// The current state of the connection.
    pub fn state(&self) -> (state: ConnectionState)
        ensures
            state == self@.state,
    {
        self.state
    }

    /// The number of records sent since the connection was last established.
    pub fn sent(&self) -> (sent: u64)
        ensures
            sent == self@.sent,
    {
        self.sent
    }

    /// Takes note of `event` and says what the run loop is to do. An event
    /// that has no meaning in the current state changes nothing and yields
    /// `None`.
    pub fn step(&mut self, event: Event) -> (directive: Option<Directive>)
        ensures
            final(self).well_formed(),
            final(self)@ == after(old(self)@, event@),
            directive_view(directive) == directed(old(self)@, event@),
    {
        proof {
            use_type_invariant(&*self);
        }
        match (self.state, event) {
            (ConnectionState::Disconnected, Event::Established) => {
                self.state = ConnectionState::Connected;
                self.sent = 0;
                Some(Directive::Proceed { wait_ms: 0, report: None })
            },
            (ConnectionState::Disconnected, Event::ConnectFailed(error)) => {
                Some(Directive::Terminate { error })
            },
            (ConnectionState::Connected, Event::Sent) => {
                if self.sent < u64::MAX {
                    self.sent = self.sent + 1;
                }
                let report = if self.timing.report_every > 0 && self.sent
                    % self.timing.report_every == 0 {
                    Some(self.sent)
                } else {
                    None
                };
                Some(Directive::Proceed { wait_ms: self.timing.interval_ms, report })
            },
            (ConnectionState::Connected, Event::SendFailed(error)) => {
                *self = ConnectionManager {
                    timing: self.timing,
                    state: ConnectionState::Reconnecting,
                    sent: self.sent,
                    failure: Some(error),
                };
                Some(Directive::Reconnect { backoff_ms: self.timing.backoff_ms })
            },
            (ConnectionState::Reconnecting, Event::Established) => {
                *self = ConnectionManager {
                    timing: self.timing,
                    state: ConnectionState::Connected,
                    sent: 0,
                    failure: None,
                };
                Some(Directive::Proceed { wait_ms: self.timing.interval_ms, report: None })
            },
            (ConnectionState::Reconnecting, Event::ConnectFailed(_)) => {
                match &self.failure {
                    Some(remembered) => Some(Directive::Terminate { error: remembered.duplicate() }),
                    None => None,
                }
            },
            _ => None,
        }
    }
}

} // verus!
