//! What the read-only HTTP surface answers with. Encoding the answers and
//! serving them is left to the caller.

use crate::client::{ClientInfo, ClientView};
use crate::dashboard::{elapsed, elapsed_ms};
use crate::registry::views_of;
use crate::stats::{DashboardStats, StatsView};
use vstd::prelude::*;

verus! {

/// The port that the HTTP surface listens on.
pub const API_PORT: u16 = 8080;

/// The path that answers with the aggregate statistics.
pub const STATS_PATH: &'static str = "stats";

/// The path that answers with the list of clients.
pub const CLIENTS_PATH: &'static str = "clients";

/// The aggregate statistics as the HTTP surface gives them.
#[derive(Clone, Debug, PartialEq, Eq)]
pub struct StatsResponse {
    pub data_sent: usize,
    pub data_received: usize,
    pub last_command: String,
}

/// The mathematical content of a [`StatsResponse`].
pub struct StatsReply {
    pub data_sent: nat,
    pub data_received: nat,
    pub last_command: Seq<char>,
}

impl View for StatsResponse {
    type V = StatsReply;

    open spec fn view(&self) -> StatsReply {
        StatsReply {
            data_sent: self.data_sent as nat,
            data_received: self.data_received as nat,
            last_command: self.last_command@,
        }
    }
}

/// One client as the HTTP surface gives it: ages in whole seconds.
#[derive(Clone, Debug, PartialEq, Eq)]
pub struct ClientInfoResponse {
    pub ip: String,
    pub connected_at_secs: u64,
    pub last_activity_secs: u64,
    pub status: String,
}

/// The mathematical content of a [`ClientInfoResponse`].
pub struct ClientReply {
    pub ip: Seq<char>,
    pub connected_at_secs: nat,
    pub last_activity_secs: nat,
    pub status: Seq<char>,
}

impl View for ClientInfoResponse {
    type V = ClientReply;

    open spec fn view(&self) -> ClientReply {
        ClientReply {
            ip: self.ip@,
            connected_at_secs: self.connected_at_secs as nat,
            last_activity_secs: self.last_activity_secs as nat,
            status: self.status@,
        }
    }
}

/// The answer for the statistics `stats`: the two counters and the latest
/// command.
pub open spec fn stats_reply(stats: StatsView) -> StatsReply {
    StatsReply {
        data_sent: stats.data_sent,
        data_received: stats.data_received,
        last_command: stats.last_command,
    }
}

/// The answer for `client` at `now`: its identity and status, and the
/// whole seconds since it connected and since it was last active.
pub open spec fn client_reply(client: ClientView, now: u64) -> ClientReply {
    ClientReply {
        ip: client.ip,
        connected_at_secs: elapsed_ms(now, client.connected_at) / 1000,
        last_activity_secs: elapsed_ms(now, client.last_activity) / 1000,
        status: client.status,
    }
}

/// The views of `replies`, in order.
pub open spec fn replies_of(replies: Seq<ClientInfoResponse>) -> Seq<ClientReply> {
    replies.map_values(|r: ClientInfoResponse| r@)
}

/// The answer for the statistics `stats`.
pub fn stats_response(stats: &DashboardStats) -> (response: StatsResponse)
    ensures
        response@ == stats_reply(stats@),
{
    StatsResponse {
        data_sent: stats.data_sent,
        data_received: stats.data_received,
        last_command: stats.last_command.clone(),
    }
}

/// The answer for `client` at `now`.
pub fn client_response(client: &ClientInfo, now: u64) -> (response: ClientInfoResponse)
    ensures
        response@ == client_reply(client@, now),
{
    ClientInfoResponse {
        ip: client.ip.clone(),
        connected_at_secs: elapsed(now, client.connected_at) / 1000,
        last_activity_secs: elapsed(now, client.last_activity) / 1000,
        status: client.status.clone(),
    }
}

/// The answers for `clients` at `now`, one for each, in their order.
pub fn clients_response(clients: &Vec<ClientInfo>, now: u64) -> (responses: Vec<
    ClientInfoResponse,
>)
    ensures
        replies_of(responses@) == Seq::new(
            clients@.len(),
            |i: int| client_reply(views_of(clients@)[i], now),
        ),
{
    let mut responses: Vec<ClientInfoResponse> = Vec::new();
    let mut i: usize = 0;
    while i < clients.len()
        invariant
            i <= clients.len(),
            replies_of(responses@) == Seq::new(
                i as nat,
                |k: int| client_reply(views_of(clients@)[k], now),
            ),
        decreases clients.len() - i,
    {
        let ghost above = replies_of(responses@);
        let ghost reply = client_reply(views_of(clients@)[i as int], now);
        assert(views_of(clients@)[i as int] == clients@[i as int]@);
        responses.push(client_response(&clients[i], now));
        i += 1;
        assert(replies_of(responses@) =~= above.push(reply));
        assert(above.push(reply) =~= Seq::new(
            i as nat,
            |k: int| client_reply(views_of(clients@)[k], now),
        ));
    }
    responses
}

} // verus!
