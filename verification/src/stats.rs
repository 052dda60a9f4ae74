//! The process-wide counters that every session updates and the telemetry
//! reads.

use vstd::prelude::*;
use vstd::utf8::encode_utf8;

verus! {

/// Throughput counters, the latest command and the state of the downstream
/// endpoint. The counters never decrease: they stop at `usize::MAX`.
#[derive(Debug, PartialEq, Eq)]
pub struct DashboardStats {
    pub data_sent: usize,
    pub data_received: usize,
    pub last_command: String,
    pub downstream_online: bool,
}

/// The mathematical content of a [`DashboardStats`].
pub struct StatsView {
    pub data_sent: nat,
    pub data_received: nat,
    pub last_command: Seq<char>,
    pub downstream_online: bool,
}

impl View for DashboardStats {
    type V = StatsView;

    open spec fn view(&self) -> StatsView {
        StatsView {
            data_sent: self.data_sent as nat,
            data_received: self.data_received as nat,
            last_command: self.last_command@,
            downstream_online: self.downstream_online,
        }
    }
}

/// A counter's value for the true total `total`.
pub open spec fn capped(total: nat) -> nat {
    if total > usize::MAX {
        usize::MAX as nat
    } else {
        total
    }
}

/// The number of bytes that `text` takes on the wire (UTF-8).
pub open spec fn byte_len(text: Seq<char>) -> nat {
    encode_utf8(text).len()
}

impl StatsView {
    /// Whether both counters hold values that a counter can hold.
    pub open spec fn in_range(self) -> bool {
        self.data_sent <= usize::MAX && self.data_received <= usize::MAX
    }

    /// The statistics of a process that has seen no traffic.
    pub open spec fn initial() -> StatsView {
        StatsView {
            data_sent: 0,
            data_received: 0,
            last_command: Seq::empty(),
            downstream_online: false,
        }
    }

    /// After a payload of `n` bytes arrived.
    pub open spec fn received(self, n: nat) -> StatsView {
        StatsView { data_received: capped(self.data_received + n), ..self }
    }

    /// After `command` was handed to the forwarder.
    pub open spec fn attempted(self, command: Seq<char>) -> StatsView {
        StatsView { last_command: command, ..self }
    }

    /// After the downstream endpoint answered the sending of `command`
    /// (`delivered`), or could not be reached or refused it.
    pub open spec fn completed(self, command: Seq<char>, delivered: bool) -> StatsView {
        if delivered {
            StatsView {
                data_sent: capped(self.data_sent + byte_len(command)),
                downstream_online: true,
                ..self
            }
        } else {
            StatsView { downstream_online: false, ..self }
        }
    }
}

impl DashboardStats {
    /// The statistics of a process that has seen no traffic.
    pub fn new() -> (stats: DashboardStats)
        ensures
            stats@ == StatsView::initial(),
    {
        DashboardStats {
            data_sent: 0,
            data_received: 0,
            last_command: String::new(),
            downstream_online: false,
        }
    }

    /// Counts a payload of `n` bytes as received.
    pub fn record_received(&mut self, n: usize)
        ensures
            final(self)@ == old(self)@.received(n as nat),
    {
        self.data_received = self.data_received.saturating_add(n);
    }

    /// Notes `command` as the latest command handed to the forwarder.
    pub fn record_attempt(&mut self, command: &str)
        ensures
            final(self)@ == old(self)@.attempted(command@),
    {
        self.last_command = command.to_owned();
    }

    /// Notes how the sending of `command` ended: delivered, it counts as
    /// sent and the endpoint as online; otherwise the endpoint is offline.
    pub fn record_outcome(&mut self, command: &str, delivered: bool)
        ensures
            final(self)@ == old(self)@.completed(command@, delivered),
    {
        if delivered {
            self.data_sent = self.data_sent.saturating_add(command.as_bytes().len());
            self.downstream_online = true;
        } else {
            self.downstream_online = false;
        }
    }
}

impl Clone for DashboardStats {
    fn clone(&self) -> (copy: DashboardStats)
        ensures
            copy == *self,
    {
        DashboardStats {
            data_sent: self.data_sent,
            data_received: self.data_received,
            last_command: self.last_command.clone(),
            downstream_online: self.downstream_online,
        }
    }
}

/// One update of the statistics, by whichever session.
pub enum StatsEvent {
    /// A payload of so many bytes arrived.
    Received(nat),
    /// A command was handed to the forwarder.
    Attempted(Seq<char>),
    /// The sending of a command ended, delivered or not.
    Completed(Seq<char>, bool),
}

impl StatsView {
    /// The statistics after `event`.
    pub open spec fn after(self, event: StatsEvent) -> StatsView {
        match event {
            StatsEvent::Received(n) => self.received(n),
            StatsEvent::Attempted(command) => self.attempted(command),
            StatsEvent::Completed(command, delivered) => self.completed(command, delivered),
        }
    }

    /// The statistics after `events`, in their order.
    pub open spec fn after_all(self, events: Seq<StatsEvent>) -> StatsView
        decreases events.len(),
    {
        if events.len() == 0 {
            self
        } else {
            self.after_all(events.drop_last()).after(events.last())
        }
    }
}

/// The bytes of all payloads that arrive in `events`.
pub open spec fn received_bytes(events: Seq<StatsEvent>) -> nat
    decreases events.len(),
{
    if events.len() == 0 {
        0
    } else {
        received_bytes(events.drop_last()) + match events.last() {
            StatsEvent::Received(n) => n,
            _ => 0,
        }
    }
}

/// The bytes of all commands that are delivered in `events`.
pub open spec fn delivered_bytes(events: Seq<StatsEvent>) -> nat
    decreases events.len(),
{
    if events.len() == 0 {
        0
    } else {
        delivered_bytes(events.drop_last()) + match events.last() {
            StatsEvent::Completed(command, true) => byte_len(command),
            _ => 0,
        }
    }
}

/// The command that was handed to the forwarder last in `events`;
/// `before` where none was.
pub open spec fn latest_attempt(events: Seq<StatsEvent>, before: Seq<char>) -> Seq<char>
    decreases events.len(),
{
    if events.len() == 0 {
        before
    } else {
        match events.last() {
            StatsEvent::Attempted(command) => command,
            _ => latest_attempt(events.drop_last(), before),
        }
    }
}

/// Whether `merged` holds the events of `a` and those of `b`, each in its
/// own order, and no others.
pub open spec fn interleaves(merged: Seq<StatsEvent>, a: Seq<StatsEvent>, b: Seq<StatsEvent>) -> bool
    decreases merged.len(),
{
    if merged.len() == 0 {
        a.len() == 0 && b.len() == 0
    } else {
        ||| a.len() > 0 && a.last() == merged.last() && interleaves(
            merged.drop_last(),
            a.drop_last(),
            b,
        )
        ||| b.len() > 0 && b.last() == merged.last() && interleaves(
            merged.drop_last(),
            a,
            b.drop_last(),
        )
    }
}

/// After any run of updates the counter of received bytes has grown by
/// the bytes of all payloads in it, and the counter of sent bytes by the
/// bytes of all delivered commands; each stops at the greatest value it
/// can hold.
pub proof fn lemma_counters_add_up(stats: StatsView, events: Seq<StatsEvent>)
    requires
        stats.in_range(),
    ensures
        stats.after_all(events).data_received == capped(
            stats.data_received + received_bytes(events),
        ),
        stats.after_all(events).data_sent == capped(stats.data_sent + delivered_bytes(events)),
    decreases events.len(),
{
    if events.len() > 0 {
        lemma_counters_add_up(stats, events.drop_last());
    }
}

/// The counters never decrease.
pub proof fn lemma_counters_grow(stats: StatsView, event: StatsEvent)
    requires
        stats.in_range(),
    ensures
        stats.data_received <= stats.after(event).data_received <= usize::MAX,
        stats.data_sent <= stats.after(event).data_sent <= usize::MAX,
{
}

/// However the updates of two sessions interleave, the payloads of both
/// are counted: the total is the sum of the two sessions' own totals.
pub proof fn lemma_interleaving_adds_up(
    merged: Seq<StatsEvent>,
    a: Seq<StatsEvent>,
    b: Seq<StatsEvent>,
)
    requires
        interleaves(merged, a, b),
    ensures
        received_bytes(merged) == received_bytes(a) + received_bytes(b),
        delivered_bytes(merged) == delivered_bytes(a) + delivered_bytes(b),
    decreases merged.len(),
{
    if merged.len() > 0 {
        if a.len() > 0 && a.last() == merged.last() && interleaves(
            merged.drop_last(),
            a.drop_last(),
            b,
        ) {
            lemma_interleaving_adds_up(merged.drop_last(), a.drop_last(), b);
        } else {
            lemma_interleaving_adds_up(merged.drop_last(), a, b.drop_last());
        }
    }
}

/// The payloads that a session receives are counted in full, whatever
/// other sessions do in between: after the session's updates `own` and
/// the others' updates `others`, interleaved in any way, the counter of
/// received bytes has grown by the bytes of the session's payloads and
/// those of the others.
pub proof fn lemma_session_payloads_counted(
    stats: StatsView,
    own: Seq<StatsEvent>,
    others: Seq<StatsEvent>,
    merged: Seq<StatsEvent>,
)
    requires
        stats.in_range(),
        interleaves(merged, own, others),
    ensures
        stats.after_all(merged).data_received == capped(
            stats.data_received + received_bytes(own) + received_bytes(others),
        ),
{
    lemma_counters_add_up(stats, merged);
    lemma_interleaving_adds_up(merged, own, others);
}

/// The latest command is the one that was handed to the forwarder last,
/// whether or not any sending succeeded.
pub proof fn lemma_last_command_is_latest_attempt(stats: StatsView, events: Seq<StatsEvent>)
    ensures
        stats.after_all(events).last_command == latest_attempt(events, stats.last_command),
    decreases events.len(),
{
    if events.len() > 0 {
        lemma_last_command_is_latest_attempt(stats, events.drop_last());
    }
}

/// Once a command was handed to the forwarder it is the latest command,
/// however its sending ends.
pub proof fn lemma_attempt_outlives_outcome(stats: StatsView, command: Seq<char>, delivered: bool)
    ensures
        stats.attempted(command).completed(command, delivered).last_command == command,
{
}

} // verus!
