//! One inbound connection, from the moment it is accepted to its end:
//! screening by address, the handshake, and the session that relays
//! payloads. The caller owns the socket and the downstream client; this
//! module decides, from what the caller read, what becomes of the shared
//! state and what the caller does next.

use crate::auth::calculate_response;
use crate::client::{
    disconnected_status, error_status, fresh_client, sent_status, status_disconnected,
    status_error, status_sent, ClientView,
};
use crate::config::{Config, ConfigView};
use crate::forwarder::{command_for, format_command};
use crate::registry::{
    distinct_ips, has_ip, lemma_same_ips_distinct, lemma_upsert_distinct, upsert, with_activity,
    with_status, SessionRegistry,
};
use crate::stats::{capped, DashboardStats, StatsView};
use crate::text::{trim, trimmed};
use crate::trusted::{decode_lossy, lossy_text};
use vstd::prelude::*;
use vstd::string::StrSliceExecFns;

verus! {

/// The most bytes that one read takes from a connection.
pub const READ_BUFFER_SIZE: usize = 1024;

/// How far a connection has come.
#[derive(Clone, Copy, Debug, PartialEq, Eq, Structural)]
pub enum Phase {
    /// Its address is not on the whitelist: nothing is read from it.
    Rejected,
    /// It may try the handshake: its first payload is taken as the token.
    AwaitingToken,
    /// It has authenticated: its payloads are relayed.
    Active,
    /// Its handshake failed: it was dropped without an entry.
    Denied,
    /// Its session is over: the peer closed it or a read failed.
    Ended,
}

/// Why a handshake failed.
#[derive(Clone, Copy, Debug, PartialEq, Eq, Structural)]
pub enum Denial {
    /// The peer closed before it sent anything.
    EmptyRead,
    /// What the peer sent is not the token.
    WrongToken,
    /// Reading the token failed.
    ReadFailed,
}

/// Why a session ended.
#[derive(Clone, Copy, Debug, PartialEq, Eq, Structural)]
pub enum Ending {
    /// The peer closed the connection.
    PeerClosed,
    /// A read failed.
    ReadFailed,
}

/// What one read on the socket gave: the bytes read, none where the peer
/// has closed; or a failure.
#[derive(Clone, Debug, PartialEq, Eq)]
pub enum ReadEvent {
    Data(Vec<u8>),
    Failed,
}

/// The mathematical content of a [`ReadEvent`].
pub enum Event {
    Data(Seq<u8>),
    Failed,
}

impl View for ReadEvent {
    type V = Event;

    open spec fn view(&self) -> Event {
        match self {
            ReadEvent::Data(bytes) => Event::Data(bytes@),
            ReadEvent::Failed => Event::Failed,
        }
    }
}

/// What the caller does after a read was handled.
#[derive(Clone, Debug, PartialEq, Eq)]
pub enum Directive {
    /// The handshake failed: drop the connection.
    Deny(Denial),
    /// The peer authenticated and is registered: start its session and
    /// read its first payload.
    Serve,
    /// Send this command downstream, note how that ended in the
    /// statistics, and read on.
    Forward(String),
    /// Nothing to send: read on.
    Continue,
    /// The session is over: stop reading.
    Finish(Ending),
    /// The connection was rejected or is over: nothing was done.
    Ignore,
}

/// The mathematical content of a [`Directive`].
pub enum DirectiveView {
    Deny(Denial),
    Serve,
    Forward(Seq<char>),
    Continue,
    Finish(Ending),
    Ignore,
}

impl View for Directive {
    type V = DirectiveView;

    open spec fn view(&self) -> DirectiveView {
        match self {
            Directive::Deny(denial) => DirectiveView::Deny(*denial),
            Directive::Serve => DirectiveView::Serve,
            Directive::Forward(command) => DirectiveView::Forward(command@),
            Directive::Continue => DirectiveView::Continue,
            Directive::Finish(ending) => DirectiveView::Finish(*ending),
            Directive::Ignore => DirectiveView::Ignore,
        }
    }
}

/// A connection as the state machine sees it: the peer's address and the
/// phase.
pub struct ConnView {
    pub ip: Seq<char>,
    pub phase: Phase,
}

/// The state that all connections share.
pub struct World {
    pub registry: Seq<ClientView>,
    pub stats: StatsView,
}

/// The outcome of handling one read.
pub struct Step {
    pub conn: ConnView,
    pub world: World,
    pub directive: DirectiveView,
}

/// A new connection from the address `ip`: rejected unless the
/// configuration admits the address.
pub open spec fn accepted(config: ConfigView, ip: Seq<char>) -> ConnView {
    ConnView {
        ip,
        phase: if config.admits(ip) {
            Phase::AwaitingToken
        } else {
            Phase::Rejected
        },
    }
}

/// Whether `text`, as received, is the token: without its surrounding
/// white space it equals the configured secret.
pub open spec fn token_matches(config: ConfigView, text: Seq<char>) -> bool {
    trimmed(text) == config.auth_token
}

/// `conn` in the phase `phase`.
pub open spec fn in_phase(conn: ConnView, phase: Phase) -> ConnView {
    ConnView { phase, ..conn }
}

/// Nothing happens.
pub open spec fn ignored(conn: ConnView, world: World) -> Step {
    Step { conn, world, directive: DirectiveView::Ignore }
}

/// The handshake on a first payload that read as `text`: the right token
/// registers the peer as connected at `now` and makes the connection
/// active; any other ends the connection and changes nothing else.
pub open spec fn token_step(
    conn: ConnView,
    config: ConfigView,
    world: World,
    text: Seq<char>,
    now: u64,
) -> Step {
    if conn.phase != Phase::AwaitingToken {
        ignored(conn, world)
    } else if token_matches(config, text) {
        Step {
            conn: in_phase(conn, Phase::Active),
            world: World { registry: upsert(world.registry, fresh_client(conn.ip, now)), ..world },
            directive: DirectiveView::Serve,
        }
    } else {
        Step {
            conn: in_phase(conn, Phase::Denied),
            world,
            directive: DirectiveView::Deny(Denial::WrongToken),
        }
    }
}

/// A handshake that ends without a token to judge.
pub open spec fn denied(conn: ConnView, world: World, denial: Denial) -> Step {
    if conn.phase != Phase::AwaitingToken {
        ignored(conn, world)
    } else {
        Step { conn: in_phase(conn, Phase::Denied), world, directive: DirectiveView::Deny(denial) }
    }
}

/// A payload of `n` bytes that read as `text`, on an active connection at
/// `now`: the peer's entry shows the activity, the bytes count as
/// received, and the command made of the text, if any, becomes the latest
/// command and is to be sent.
pub open spec fn payload_step(conn: ConnView, world: World, text: Seq<char>, n: nat, now: u64) -> Step {
    if conn.phase != Phase::Active {
        ignored(conn, world)
    } else {
        let registry = with_activity(world.registry, conn.ip, now, status_sent(text));
        let counted = world.stats.received(n);
        let command = command_for(text);
        if command.len() == 0 {
            Step {
                conn,
                world: World { registry, stats: counted },
                directive: DirectiveView::Continue,
            }
        } else {
            Step {
                conn,
                world: World { registry, stats: counted.attempted(command) },
                directive: DirectiveView::Forward(command),
            }
        }
    }
}

/// The end of a session: the peer's entry stays, with the status that
/// tells how the session ended.
pub open spec fn finished(conn: ConnView, world: World, ending: Ending) -> Step {
    if conn.phase != Phase::Active {
        ignored(conn, world)
    } else {
        let status = match ending {
            Ending::PeerClosed => status_disconnected(),
            Ending::ReadFailed => status_error(),
        };
        Step {
            conn: in_phase(conn, Phase::Ended),
            world: World { registry: with_status(world.registry, conn.ip, status), ..world },
            directive: DirectiveView::Finish(ending),
        }
    }
}

/// What one read does to a connection and to the shared state.
pub open spec fn step(conn: ConnView, config: ConfigView, world: World, event: Event, now: u64) -> Step {
    match conn.phase {
        Phase::AwaitingToken => match event {
            Event::Data(bytes) => if bytes.len() == 0 {
                denied(conn, world, Denial::EmptyRead)
            } else {
                token_step(conn, config, world, lossy_text(bytes), now)
            },
            Event::Failed => denied(conn, world, Denial::ReadFailed),
        },
        Phase::Active => match event {
            Event::Data(bytes) => if bytes.len() == 0 {
                finished(conn, world, Ending::PeerClosed)
            } else {
                payload_step(conn, world, lossy_text(bytes), bytes.len(), now)
            },
            Event::Failed => finished(conn, world, Ending::ReadFailed),
        },
        _ => ignored(conn, world),
    }
}

/// One inbound connection.
pub struct Connection {
    ip: String,
    phase: Phase,
}

impl View for Connection {
    type V = ConnView;

    closed spec fn view(&self) -> ConnView {
        ConnView { ip: self.ip@, phase: self.phase }
    }
}

impl Connection {
    /// Takes in a connection from the address `ip`. Where the
    /// configuration has a whitelist without that address, the connection
    /// is rejected for good.
    pub fn accept(config: &Config, ip: String) -> (conn: Connection)
        ensures
            conn@ == accepted(config@, ip@),
    {
        let phase = if config.admits(ip.as_str()) {
            Phase::AwaitingToken
        } else {
            Phase::Rejected
        };
        Connection { ip, phase }
    }

    /// The address of the peer.
    pub fn ip(&self) -> (ip: &str)
        ensures
            ip@ == self@.ip,
    {
        self.ip.as_str()
    }

    /// How far the connection has come.
    pub fn phase(&self) -> (phase: Phase)
        ensures
            phase == self@.phase,
    {
        self.phase
    }

    /// Judges the first payload, which read as `text`.
    pub fn on_token(
        &mut self,
        config: &Config,
        registry: &mut SessionRegistry,
        stats: &mut DashboardStats,
        text: &str,
        now: u64,
    ) -> (directive: Directive)
        ensures
            ({
                let s = token_step(
                    old(self)@,
                    config@,
                    World { registry: old(registry)@, stats: old(stats)@ },
                    text@,
                    now,
                );
                &&& final(self)@ == s.conn
                &&& final(registry)@ == s.world.registry
                &&& final(stats)@ == s.world.stats
                &&& directive@ == s.directive
            }),
    {
        if self.phase != Phase::AwaitingToken {
            return Directive::Ignore;
        }
        let received = trim(text);
        let expected = calculate_response(config.auth_token.as_str());
        if received == expected {
            registry.register(self.ip.as_str(), now);
            self.phase = Phase::Active;
            Directive::Serve
        } else {
            self.phase = Phase::Denied;
            Directive::Deny(Denial::WrongToken)
        }
    }

    fn on_denied(&mut self, denial: Denial) -> (directive: Directive)
        ensures
            old(self)@.phase != Phase::AwaitingToken ==> final(self)@ == old(self)@ && directive@
                == DirectiveView::Ignore,
            old(self)@.phase == Phase::AwaitingToken ==> final(self)@ == in_phase(
                old(self)@,
                Phase::Denied,
            ) && directive@ == DirectiveView::Deny(denial),
    {
        if self.phase != Phase::AwaitingToken {
            return Directive::Ignore;
        }
        self.phase = Phase::Denied;
        Directive::Deny(denial)
    }

    /// Relays a payload of `n` bytes, which read as `text`.
    pub fn on_payload(
        &mut self,
        registry: &mut SessionRegistry,
        stats: &mut DashboardStats,
        text: &str,
        n: usize,
        now: u64,
    ) -> (directive: Directive)
        ensures
            ({
                let s = payload_step(
                    old(self)@,
                    World { registry: old(registry)@, stats: old(stats)@ },
                    text@,
                    n as nat,
                    now,
                );
                &&& final(self)@ == s.conn
                &&& final(registry)@ == s.world.registry
                &&& final(stats)@ == s.world.stats
                &&& directive@ == s.directive
            }),
    {
        if self.phase != Phase::Active {
            return Directive::Ignore;
        }
        registry.record_activity(self.ip.as_str(), now, sent_status(text));
        stats.record_received(n);
        let command = format_command(text);
        if command.as_str().unicode_len() == 0 {
            Directive::Continue
        } else {
            stats.record_attempt(command.as_str());
            Directive::Forward(command)
        }
    }

    fn on_finished(&mut self, registry: &mut SessionRegistry, ending: Ending) -> (directive:
        Directive)
        ensures
            old(self)@.phase != Phase::Active ==> final(self)@ == old(self)@ && final(registry)@
                == old(registry)@ && directive@ == DirectiveView::Ignore,
            old(self)@.phase == Phase::Active ==> final(self)@ == in_phase(
                old(self)@,
                Phase::Ended,
            ) && final(registry)@ == with_status(
                old(registry)@,
                old(self)@.ip,
                match ending {
                    Ending::PeerClosed => status_disconnected(),
                    Ending::ReadFailed => status_error(),
                },
            ) && directive@ == DirectiveView::Finish(ending),
    {
        if self.phase != Phase::Active {
            return Directive::Ignore;
        }
        let status = match ending {
            Ending::PeerClosed => disconnected_status(),
            Ending::ReadFailed => error_status(),
        };
        registry.set_status(self.ip.as_str(), status);
        self.phase = Phase::Ended;
        Directive::Finish(ending)
    }

    /// Handles what a read on the socket gave.
    pub fn on_read(
        &mut self,
        config: &Config,
        registry: &mut SessionRegistry,
        stats: &mut DashboardStats,
        event: &ReadEvent,
        now: u64,
    ) -> (directive: Directive)
        ensures
            ({
                let s = step(
                    old(self)@,
                    config@,
                    World { registry: old(registry)@, stats: old(stats)@ },
                    event@,
                    now,
                );
                &&& final(self)@ == s.conn
                &&& final(registry)@ == s.world.registry
                &&& final(stats)@ == s.world.stats
                &&& directive@ == s.directive
            }),
    {
        match self.phase {
            Phase::AwaitingToken => match event {
                ReadEvent::Data(bytes) => {
                    if bytes.len() == 0 {
                        self.on_denied(Denial::EmptyRead)
                    } else {
                        let text = decode_lossy(bytes.as_slice());
                        self.on_token(config, registry, stats, text.as_str(), now)
                    }
                },
                ReadEvent::Failed => self.on_denied(Denial::ReadFailed),
            },
            Phase::Active => match event {
                ReadEvent::Data(bytes) => {
                    if bytes.len() == 0 {
                        self.on_finished(registry, Ending::PeerClosed)
                    } else {
                        let text = decode_lossy(bytes.as_slice());
                        self.on_payload(registry, stats, text.as_str(), bytes.len(), now)
                    }
                },
                ReadEvent::Failed => self.on_finished(registry, Ending::ReadFailed),
            },
            _ => Directive::Ignore,
        }
    }
}

/// Whether a first read brings the token: it brings bytes, and they read
/// as the configured secret, give or take surrounding white space.
pub open spec fn brings_token(config: ConfigView, event: Event) -> bool {
    match event {
        Event::Data(bytes) => bytes.len() > 0 && token_matches(config, lossy_text(bytes)),
        Event::Failed => false,
    }
}

/// What a run of reads, each with its time, does to a connection and to
/// the shared state; the directive is that of the last read.
pub open spec fn run(
    conn: ConnView,
    config: ConfigView,
    world: World,
    reads: Seq<(Event, u64)>,
) -> Step
    decreases reads.len(),
{
    if reads.len() == 0 {
        ignored(conn, world)
    } else {
        let before = run(conn, config, world, reads.drop_last());
        step(before.conn, config, before.world, reads.last().0, reads.last().1)
    }
}

/// The handshake lets a connection in exactly when its first read brings
/// the token. Then the peer is registered as connected and the statistics
/// stay as they are. Otherwise the connection is over and the shared
/// state is untouched: no entry is made and no session starts.
pub proof fn lemma_handshake_decides(
    conn: ConnView,
    config: ConfigView,
    world: World,
    event: Event,
    now: u64,
)
    requires
        conn.phase == Phase::AwaitingToken,
    ensures
        brings_token(config, event) ==> step(conn, config, world, event, now) == (Step {
            conn: in_phase(conn, Phase::Active),
            world: World { registry: upsert(world.registry, fresh_client(conn.ip, now)), ..world },
            directive: DirectiveView::Serve,
        }),
        !brings_token(config, event) ==> {
            let s = step(conn, config, world, event, now);
            &&& s.conn == in_phase(conn, Phase::Denied)
            &&& s.world == world
            &&& s.directive is Deny
        },
{
}

/// A connection that was rejected or is over does nothing any more.
pub proof fn lemma_over_is_over(
    conn: ConnView,
    config: ConfigView,
    world: World,
    reads: Seq<(Event, u64)>,
)
    requires
        conn.phase == Phase::Rejected || conn.phase == Phase::Denied || conn.phase == Phase::Ended,
    ensures
        run(conn, config, world, reads) == ignored(conn, world),
    decreases reads.len(),
{
    if reads.len() > 0 {
        lemma_over_is_over(conn, config, world, reads.drop_last());
    }
}

/// A connection from an address that the whitelist lacks never gets to
/// the handshake: whatever is read from it, it stays rejected, the shared
/// state stays as it is, and nothing is asked of the caller.
pub proof fn lemma_unlisted_address_is_shut_out(
    config: ConfigView,
    ip: Seq<char>,
    world: World,
    reads: Seq<(Event, u64)>,
)
    requires
        !config.admits(ip),
    ensures
        accepted(config, ip).phase == Phase::Rejected,
        run(accepted(config, ip), config, world, reads) == ignored(accepted(config, ip), world),
{
    lemma_over_is_over(accepted(config, ip), config, world, reads);
}

/// A connection whose first read does not bring the token is over for
/// good: whatever it sends later, no entry is made for it, no session
/// starts, and the statistics stay as they are.
pub proof fn lemma_failed_handshake_is_final(
    conn: ConnView,
    config: ConfigView,
    world: World,
    reads: Seq<(Event, u64)>,
)
    requires
        conn.phase == Phase::AwaitingToken,
        reads.len() > 0,
        !brings_token(config, reads[0].0),
    ensures
        run(conn, config, world, reads).conn == in_phase(conn, Phase::Denied),
        run(conn, config, world, reads).world == world,
    decreases reads.len(),
{
    let earlier = reads.drop_last();
    if earlier.len() == 0 {
        assert(run(conn, config, world, earlier) == ignored(conn, world));
        assert(reads.last() == reads[0]);
    } else {
        assert(earlier[0] == reads[0]);
        lemma_failed_handshake_is_final(conn, config, world, earlier);
    }
}

/// What every read keeps true of the registry: no entry leaves it and
/// each keeps its place and identity; identities stay distinct; and an
/// entry is added by a successful handshake only, so that none exists
/// before its peer has authenticated.
pub proof fn lemma_registry_grows_by_handshake_only(
    conn: ConnView,
    config: ConfigView,
    world: World,
    event: Event,
    now: u64,
)
    ensures
        ({
            let after = step(conn, config, world, event, now).world.registry;
            &&& after.len() >= world.registry.len()
            &&& forall|i: int|
                0 <= i < world.registry.len() ==> (#[trigger] after[i]).ip == world.registry[i].ip
            &&& distinct_ips(world.registry) ==> distinct_ips(after)
            &&& after.len() > world.registry.len() ==> conn.phase == Phase::AwaitingToken
                && brings_token(config, event) && !has_ip(world.registry, conn.ip)
        }),
        step(conn, config, world, event, now).conn.phase == Phase::Active ==> conn.phase
            == Phase::Active || (conn.phase == Phase::AwaitingToken && brings_token(
            config,
            event,
        )),
        step(conn, config, world, event, now).conn.ip == conn.ip,
{
    let s = step(conn, config, world, event, now);
    let after = s.world.registry;
    if conn.phase == Phase::AwaitingToken && brings_token(config, event) {
        let fresh = fresh_client(conn.ip, now);
        assert(after == upsert(world.registry, fresh));
        if distinct_ips(world.registry) {
            lemma_upsert_distinct(world.registry, fresh);
        }
    } else if conn.phase == Phase::Active {
        if distinct_ips(world.registry) {
            lemma_same_ips_distinct(world.registry, after);
        }
    }
}

/// A peer that has authenticated has an entry, and has it still after
/// whatever is read from any connection.
pub proof fn lemma_entries_stay(
    conn: ConnView,
    config: ConfigView,
    world: World,
    event: Event,
    now: u64,
    ip: Seq<char>,
)
    requires
        has_ip(world.registry, ip) || (ip == conn.ip && conn.phase == Phase::AwaitingToken
            && brings_token(config, event)),
    ensures
        has_ip(step(conn, config, world, event, now).world.registry, ip),
{
    let after = step(conn, config, world, event, now).world.registry;
    if has_ip(world.registry, ip) {
        let k = choose|k: int| 0 <= k < world.registry.len() && (#[trigger] world.registry[k]).ip
            == ip;
        lemma_registry_grows_by_handshake_only(conn, config, world, event, now);
        assert(after[k].ip == ip);
    } else {
        let fresh = fresh_client(conn.ip, now);
        assert(after == upsert(world.registry, fresh));
        assert(after[world.registry.len() as int].ip == ip);
    }
}

/// Every payload that an active connection receives counts in full, and
/// what is made of it is the latest command from then on: after a read
/// of `bytes`, the counter of received bytes has grown by their number,
/// and where the read asks for a command to be sent, that command is the
/// latest command.
pub proof fn lemma_payload_is_counted(
    conn: ConnView,
    config: ConfigView,
    world: World,
    bytes: Seq<u8>,
    now: u64,
)
    requires
        conn.phase == Phase::Active,
        bytes.len() > 0,
    ensures
        ({
            let s = step(conn, config, world, Event::Data(bytes), now);
            &&& s.conn == conn
            &&& s.world.stats.data_received == capped(world.stats.data_received + bytes.len())
            &&& s.world.stats.data_sent == world.stats.data_sent
            &&& s.directive matches DirectiveView::Forward(command) ==> s.world.stats.last_command
                == command && command == command_for(lossy_text(bytes)) && command.len() > 0
            &&& s.directive is Forward || (s.directive is Continue && s.world.stats.last_command
                == world.stats.last_command)
        }),
{
}

} // verus!
