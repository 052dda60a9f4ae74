//! One authenticated connection as the telemetry sees it.

use vstd::prelude::*;
use vstd::string::StringExecFns;

verus! {

/// Metadata of one authenticated connection. Times are milliseconds on a
/// monotonic clock of the caller's choosing.
#[derive(Debug, PartialEq, Eq)]
pub struct ClientInfo {
    pub ip: String,
    pub connected_at: u64,
    pub last_activity: u64,
    pub status: String,
}

/// The mathematical content of a [`ClientInfo`].
pub struct ClientView {
    pub ip: Seq<char>,
    pub connected_at: u64,
    pub last_activity: u64,
    pub status: Seq<char>,
}

impl View for ClientInfo {
    type V = ClientView;

    open spec fn view(&self) -> ClientView {
        ClientView {
            ip: self.ip@,
            connected_at: self.connected_at,
            last_activity: self.last_activity,
            status: self.status@,
        }
    }
}

/// Status of a connection that has authenticated and sent nothing yet.
pub open spec fn status_connected() -> Seq<char> {
    "✅ Connected"@
}

/// Status of a connection whose peer has closed it.
pub open spec fn status_disconnected() -> Seq<char> {
    "🔌 Disconnected"@
}

/// Status of a connection that ended in a read error.
pub open spec fn status_error() -> Seq<char> {
    "❌ Error"@
}

/// Status of a connection whose latest payload read as `payload`.
pub open spec fn status_sent(payload: Seq<char>) -> Seq<char> {
    "📡 Sent: "@ + payload
}

/// What registration records for the peer `ip` at time `now`.
pub open spec fn fresh_client(ip: Seq<char>, now: u64) -> ClientView {
    ClientView { ip, connected_at: now, last_activity: now, status: status_connected() }
}

/// The status text of a freshly authenticated connection.
pub fn connected_status() -> (s: String)
    ensures
        s@ == status_connected(),
{
    "✅ Connected".to_owned()
}

/// The status text of a connection closed by its peer.
pub fn disconnected_status() -> (s: String)
    ensures
        s@ == status_disconnected(),
{
    "🔌 Disconnected".to_owned()
}

/// The status text of a connection that failed while reading.
pub fn error_status() -> (s: String)
    ensures
        s@ == status_error(),
{
    "❌ Error".to_owned()
}

/// The status text after a payload that read as `payload`.
pub fn sent_status(payload: &str) -> (s: String)
    ensures
        s@ == status_sent(payload@),
{
    let mut s = "📡 Sent: ".to_owned();
    s.append(payload);
    s
}

impl ClientView {
    /// Whether the connection is still served: its status tells neither
    /// that the peer closed it nor that reading failed.
    pub open spec fn is_live(self) -> bool {
        self.status != status_disconnected() && self.status != status_error()
    }
}

impl ClientInfo {
    /// Whether the connection is still served.
    pub fn is_live(&self) -> (live: bool)
        ensures
            live == self@.is_live(),
    {
        !self.status.as_str().eq("🔌 Disconnected") && !self.status.as_str().eq("❌ Error")
    }

    /// The record of the peer `ip`, authenticated at time `now`.
    pub fn new_authenticated(ip: String, now: u64) -> (info: ClientInfo)
        ensures
            info@ == fresh_client(ip@, now),
    {
        ClientInfo { ip, connected_at: now, last_activity: now, status: connected_status() }
    }
}

impl Clone for ClientInfo {
    fn clone(&self) -> (copy: ClientInfo)
        ensures
            copy == *self,
    {
        ClientInfo {
            ip: self.ip.clone(),
            connected_at: self.connected_at,
            last_activity: self.last_activity,
            status: self.status.clone(),
        }
    }
}

} // verus!
