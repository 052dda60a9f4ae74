//! The bridge as a whole: every connection that was accepted, and the
//! registry and statistics that they share. The connections take turns
//! in any order; what holds of the shared state holds after every turn.

use crate::client::fresh_client;
use crate::connection::{
    accepted, lemma_entries_stay, lemma_registry_grows_by_handshake_only, step, ConnView,
    DirectiveView, Event, Phase, World,
};
use crate::config::ConfigView;
use crate::registry::{distinct_ips, has_ip, upsert};
use crate::stats::{capped, StatsView};
use vstd::prelude::*;

verus! {

/// All connections, in the order in which they were accepted, and the
/// shared state.
pub struct System {
    pub connections: Seq<ConnView>,
    pub world: World,
}

/// One turn of the bridge.
pub enum Move {
    /// A connection from this address is accepted.
    Accept(Seq<char>),
    /// The connection at this place has read this, at this time.
    Read(int, Event, u64),
    /// The sending of this command has ended, delivered or not.
    Outcome(Seq<char>, bool),
}

/// The bridge at its start: no connection, no entry, no traffic.
pub open spec fn initial() -> System {
    System {
        connections: Seq::empty(),
        world: World { registry: Seq::empty(), stats: StatsView::initial() },
    }
}

/// The bridge after the turn `m`. A read on a place that holds no
/// connection changes nothing.
pub open spec fn after(sys: System, config: ConfigView, m: Move) -> System {
    match m {
        Move::Accept(ip) => System {
            connections: sys.connections.push(accepted(config, ip)),
            ..sys
        },
        Move::Read(who, event, now) => if 0 <= who < sys.connections.len() {
            let s = step(sys.connections[who], config, sys.world, event, now);
            System { connections: sys.connections.update(who, s.conn), world: s.world }
        } else {
            sys
        },
        Move::Outcome(command, delivered) => System {
            world: World { stats: sys.world.stats.completed(command, delivered), ..sys.world },
            ..sys
        },
    }
}

/// The bridge after the turns `moves`, in their order.
pub open spec fn after_all(sys: System, config: ConfigView, moves: Seq<Move>) -> System
    decreases moves.len(),
{
    if moves.len() == 0 {
        sys
    } else {
        after(after_all(sys, config, moves.drop_last()), config, moves.last())
    }
}

/// Whether a connection in this phase has passed the handshake.
pub open spec fn has_authenticated(phase: Phase) -> bool {
    phase == Phase::Active || phase == Phase::Ended
}

/// Whether a connection from the address `ip` has passed the handshake.
pub open spec fn is_known(connections: Seq<ConnView>, ip: Seq<char>) -> bool {
    exists|i: int|
        0 <= i < connections.len() && (#[trigger] connections[i]).ip == ip && has_authenticated(
            connections[i].phase,
        )
}

/// What holds of the bridge at all times: the registry has one entry for
/// each identity; each entry belongs to a connection that has passed the
/// handshake, live or over; each such connection has its entry; and the
/// counters are within their range.
pub open spec fn consistent(sys: System) -> bool {
    &&& distinct_ips(sys.world.registry)
    &&& forall|k: int|
        0 <= k < sys.world.registry.len() ==> is_known(
            sys.connections,
            (#[trigger] sys.world.registry[k]).ip,
        )
    &&& forall|i: int|
        0 <= i < sys.connections.len() && has_authenticated((#[trigger] sys.connections[i]).phase)
            ==> has_ip(sys.world.registry, sys.connections[i].ip)
    &&& sys.world.stats.in_range()
}

/// The bridge starts consistent.
pub proof fn lemma_initially_consistent()
    ensures
        consistent(initial()),
{
}

/// A connection that has passed the handshake is known under its address
/// wherever it stands.
proof fn lemma_known_at(connections: Seq<ConnView>, i: int)
    requires
        0 <= i < connections.len(),
        has_authenticated(connections[i].phase),
    ensures
        is_known(connections, connections[i].ip),
{
}

/// An address stays known while the connections that have passed the
/// handshake keep their places and addresses.
proof fn lemma_known_stays(before: Seq<ConnView>, after: Seq<ConnView>, ip: Seq<char>)
    requires
        is_known(before, ip),
        after.len() >= before.len(),
        forall|i: int|
            0 <= i < before.len() && has_authenticated((#[trigger] before[i]).phase) ==> after[i].ip
                == before[i].ip && has_authenticated(after[i].phase),
    ensures
        is_known(after, ip),
{
    let i = choose|i: int|
        0 <= i < before.len() && (#[trigger] before[i]).ip == ip && has_authenticated(
            before[i].phase,
        );
    assert(after[i].ip == ip && has_authenticated(after[i].phase));
}

/// Every turn keeps the bridge consistent: no entry exists before its
/// peer has authenticated, and none is lost afterwards.
pub proof fn lemma_turn_keeps_consistent(sys: System, config: ConfigView, m: Move)
    requires
        consistent(sys),
    ensures
        consistent(after(sys, config, m)),
{
    let next = after(sys, config, m);
    let conns = sys.connections;
    let reg = sys.world.registry;
    match m {
        Move::Accept(ip) => {
            assert forall|k: int| 0 <= k < reg.len() implies is_known(
                next.connections,
                (#[trigger] next.world.registry[k]).ip,
            ) by {
                lemma_known_stays(conns, next.connections, reg[k].ip);
            }
            assert forall|i: int|
                0 <= i < next.connections.len() && has_authenticated(
                    (#[trigger] next.connections[i]).phase,
                ) implies has_ip(next.world.registry, next.connections[i].ip) by {
                assert(i < conns.len());
                assert(next.connections[i] == conns[i]);
            }
        },
        Move::Read(who, event, now) => {
            if 0 <= who < conns.len() {
                let conn = conns[who];
                let s = step(conn, config, sys.world, event, now);
                let reg2 = s.world.registry;
                lemma_registry_grows_by_handshake_only(
                    conn,
                    config,
                    sys.world,
                    event,
                    now,
                );
                assert(s.conn.ip == conn.ip);
                assert(has_authenticated(conn.phase) ==> has_authenticated(s.conn.phase));
                assert forall|k: int| 0 <= k < reg2.len() implies is_known(
                    next.connections,
                    (#[trigger] reg2[k]).ip,
                ) by {
                    if k < reg.len() {
                        assert(reg2[k].ip == reg[k].ip);
                        lemma_known_stays(conns, next.connections, reg[k].ip);
                    } else {
                        assert(reg2 == upsert(reg, fresh_client(conn.ip, now)));
                        assert(reg2[k].ip == conn.ip);
                        lemma_known_at(next.connections, who);
                    }
                }
                assert forall|i: int|
                    0 <= i < next.connections.len() && has_authenticated(
                        (#[trigger] next.connections[i]).phase,
                    ) implies has_ip(reg2, next.connections[i].ip) by {
                    if i == who && !has_authenticated(conn.phase) {
                        lemma_entries_stay(
                            conn,
                            config,
                            sys.world,
                            event,
                            now,
                            conn.ip,
                        );
                    } else {
                        assert(has_authenticated(conns[i].phase));
                        assert(next.connections[i].ip == conns[i].ip);
                        lemma_entries_stay(
                            conn,
                            config,
                            sys.world,
                            event,
                            now,
                            conns[i].ip,
                        );
                    }
                }
            }
        },
        Move::Outcome(command, delivered) => {},
    }
}

/// The bridge is consistent after any turns, in any order.
pub proof fn lemma_always_consistent(sys: System, config: ConfigView, moves: Seq<Move>)
    requires
        consistent(sys),
    ensures
        consistent(after_all(sys, config, moves)),
    decreases moves.len(),
{
    if moves.len() > 0 {
        lemma_always_consistent(sys, config, moves.drop_last());
        lemma_turn_keeps_consistent(
            after_all(sys, config, moves.drop_last()),
            config,
            moves.last(),
        );
    }
}

/// The bytes that the turn `m` brings to an authenticated session.
pub open spec fn payload_of(sys: System, m: Move) -> nat {
    match m {
        Move::Read(who, Event::Data(bytes), _) => if 0 <= who < sys.connections.len()
            && sys.connections[who].phase == Phase::Active {
            bytes.len()
        } else {
            0
        },
        _ => 0,
    }
}

/// The bytes of all payloads that authenticated sessions receive in
/// `moves`, whichever session receives them.
pub open spec fn payload_bytes(sys: System, config: ConfigView, moves: Seq<Move>) -> nat
    decreases moves.len(),
{
    if moves.len() == 0 {
        0
    } else {
        payload_bytes(sys, config, moves.drop_last()) + payload_of(
            after_all(sys, config, moves.drop_last()),
            moves.last(),
        )
    }
}

/// However the turns of the sessions interleave, the counter of received
/// bytes grows by the bytes of every payload that an authenticated
/// session receives, and by nothing else; it stops at the greatest value
/// it can hold.
pub proof fn lemma_every_payload_is_counted(sys: System, config: ConfigView, moves: Seq<Move>)
    requires
        sys.world.stats.in_range(),
    ensures
        after_all(sys, config, moves).world.stats.data_received == capped(
            sys.world.stats.data_received + payload_bytes(sys, config, moves),
        ),
    decreases moves.len(),
{
    if moves.len() > 0 {
        lemma_every_payload_is_counted(sys, config, moves.drop_last());
    }
}

/// The command that the turn `m` hands to the forwarder, if any.
pub open spec fn attempt_of(sys: System, config: ConfigView, m: Move) -> Option<Seq<char>> {
    match m {
        Move::Read(who, event, now) => if 0 <= who < sys.connections.len() {
            match step(sys.connections[who], config, sys.world, event, now).directive {
                DirectiveView::Forward(command) => Some(command),
                _ => None,
            }
        } else {
            None
        },
        _ => None,
    }
}

/// The command that was handed to the forwarder last in `moves`; the
/// latest command of `sys` where none was.
pub open spec fn latest_attempt(sys: System, config: ConfigView, moves: Seq<Move>) -> Seq<char>
    decreases moves.len(),
{
    if moves.len() == 0 {
        sys.world.stats.last_command
    } else {
        match attempt_of(after_all(sys, config, moves.drop_last()), config, moves.last()) {
            Some(command) => command,
            None => latest_attempt(sys, config, moves.drop_last()),
        }
    }
}

/// The latest command is the one that was handed to the forwarder last by
/// whichever session, whether or not any sending succeeded.
pub proof fn lemma_latest_command_is_latest_attempt(
    sys: System,
    config: ConfigView,
    moves: Seq<Move>,
)
    ensures
        after_all(sys, config, moves).world.stats.last_command == latest_attempt(
            sys,
            config,
            moves,
        ),
    decreases moves.len(),
{
    if moves.len() > 0 {
        lemma_latest_command_is_latest_attempt(sys, config, moves.drop_last());
    }
}

/// A connection from an address that the whitelist lacks is rejected when
/// it is accepted, and no turn of its own makes an entry for it or lets
/// it pass the handshake.
pub proof fn lemma_unlisted_connection_stays_rejected(
    sys: System,
    config: ConfigView,
    who: int,
    m: Move,
)
    requires
        0 <= who < sys.connections.len(),
        sys.connections[who].phase == Phase::Rejected,
    ensures
        after(sys, config, m).connections[who] == sys.connections[who],
        m matches Move::Read(w, _, _) && w == who ==> after(sys, config, m) == sys,
{
    match m {
        Move::Read(w, event, now) => {
            if w == who {
                assert(sys.connections.update(who, sys.connections[who]) =~= sys.connections);
            }
        },
        _ => {},
    }
}

} // verus!
