//! The registry of authenticated connections, keyed by peer identity.

use crate::client::{fresh_client, ClientInfo, ClientView};
use vstd::prelude::*;

verus! {

/// Whether some entry belongs to the peer `ip`.
pub open spec fn has_ip(entries: Seq<ClientView>, ip: Seq<char>) -> bool {
    exists|i: int| 0 <= i < entries.len() && (#[trigger] entries[i]).ip == ip
}

/// No two entries belong to the same peer.
pub open spec fn distinct_ips(entries: Seq<ClientView>) -> bool {
    forall|i: int, j: int|
        0 <= i < j < entries.len() ==> (#[trigger] entries[i]).ip != (#[trigger] entries[j]).ip
}

/// The entries after `v` was stored under its identity: it takes the place
/// of the peer's earlier entry, or comes last where the peer had none.
pub open spec fn upsert(entries: Seq<ClientView>, v: ClientView) -> Seq<ClientView> {
    if has_ip(entries, v.ip) {
        Seq::new(
            entries.len(),
            |i: int|
                if entries[i].ip == v.ip {
                    v
                } else {
                    entries[i]
                },
        )
    } else {
        entries.push(v)
    }
}

/// The entries after the peer `ip` got the status `status`; a peer without
/// an entry gains none.
pub open spec fn with_status(entries: Seq<ClientView>, ip: Seq<char>, status: Seq<char>) -> Seq<
    ClientView,
> {
    Seq::new(
        entries.len(),
        |i: int|
            if entries[i].ip == ip {
                ClientView { status, ..entries[i] }
            } else {
                entries[i]
            },
    )
}

/// The entries after the peer `ip` was active at `now` and got the status
/// `status`; a peer without an entry gains none.
pub open spec fn with_activity(
    entries: Seq<ClientView>,
    ip: Seq<char>,
    now: u64,
    status: Seq<char>,
) -> Seq<ClientView> {
    Seq::new(
        entries.len(),
        |i: int|
            if entries[i].ip == ip {
                ClientView { last_activity: now, status, ..entries[i] }
            } else {
                entries[i]
            },
    )
}

/// Storing an entry keeps identities distinct.
pub proof fn lemma_upsert_distinct(entries: Seq<ClientView>, v: ClientView)
    requires
        distinct_ips(entries),
    ensures
        distinct_ips(upsert(entries, v)),
        has_ip(upsert(entries, v), v.ip),
        upsert(entries, v).len() == entries.len() + (if has_ip(entries, v.ip) {
            0int
        } else {
            1int
        }),
{
    let after = upsert(entries, v);
    if has_ip(entries, v.ip) {
        let k = choose|k: int| 0 <= k < entries.len() && (#[trigger] entries[k]).ip == v.ip;
        assert(after[k].ip == v.ip);
        assert forall|i: int, j: int| 0 <= i < j < after.len() implies (#[trigger] after[i]).ip != (
        #[trigger] after[j]).ip by {
            assert(after[i].ip == entries[i].ip);
            assert(after[j].ip == entries[j].ip);
        }
    } else {
        assert(after[entries.len() as int].ip == v.ip);
        assert forall|i: int, j: int| 0 <= i < j < after.len() implies (#[trigger] after[i]).ip != (
        #[trigger] after[j]).ip by {
            if j < entries.len() {
                assert(after[i] == entries[i] && after[j] == entries[j]);
            } else {
                assert(after[i] == entries[i]);
            }
        }
    }
}

/// The views of `entries`, in order.
pub open spec fn views_of(entries: Seq<ClientInfo>) -> Seq<ClientView> {
    entries.map_values(|c: ClientInfo| c@)
}

/// Entries that keep their identities keep them distinct.
pub proof fn lemma_same_ips_distinct(before: Seq<ClientView>, after: Seq<ClientView>)
    requires
        distinct_ips(before),
        after.len() == before.len(),
        forall|i: int| 0 <= i < before.len() ==> (#[trigger] after[i]).ip == before[i].ip,
    ensures
        distinct_ips(after),
{
    assert forall|i: int, j: int| 0 <= i < j < after.len() implies (#[trigger] after[i]).ip != (
    #[trigger] after[j]).ip by {
        assert(before[i].ip != before[j].ip);
    }
}

/// The live and former connections that authenticated, one entry for each
/// peer identity, in the order in which the identities first registered.
pub struct SessionRegistry {
    entries: Vec<ClientInfo>,
}

impl View for SessionRegistry {
    type V = Seq<ClientView>;

    closed spec fn view(&self) -> Seq<ClientView> {
        views_of(self.entries@)
    }
}

impl SessionRegistry {
    #[verifier::type_invariant]
    spec fn identities_distinct(&self) -> bool {
        distinct_ips(self@)
    }

    /// A registry without entries.
    pub fn new() -> (registry: SessionRegistry)
        ensures
            registry@ == Seq::<ClientView>::empty(),
    {
        let registry = SessionRegistry { entries: Vec::new() };
        assert(registry@ =~= Seq::<ClientView>::empty());
        registry
    }

    /// The number of entries. No two of them share an identity.
    pub fn len(&self) -> (n: usize)
        ensures
            n == self@.len(),
            distinct_ips(self@),
    {
        proof {
            use_type_invariant(self);
        }
        self.entries.len()
    }

    fn take_entries(&mut self) -> (entries: Vec<ClientInfo>)
        ensures
            entries == old(self).entries,
            final(self).entries@.len() == 0,
    {
        let mut entries: Vec<ClientInfo> = Vec::new();
        core::mem::swap(&mut self.entries, &mut entries);
        entries
    }

    fn index_of(&self, ip: &str) -> (found: Option<usize>)
        ensures
            match found {
                Some(i) => i < self@.len() && self@[i as int].ip == ip@,
                None => !has_ip(self@, ip@),
            },
    {
        let mut i: usize = 0;
        while i < self.entries.len()
            invariant
                i <= self.entries.len(),
                forall|j: int| 0 <= j < i ==> (#[trigger] self@[j]).ip != ip@,
            decreases self.entries.len() - i,
        {
            if self.entries[i].ip.as_str().eq(ip) {
                return Some(i);
            }
            i += 1;
        }
        None
    }

    /// Whether the peer `ip` has an entry.
    pub fn contains(&self, ip: &str) -> (found: bool)
        ensures
            found == has_ip(self@, ip@),
    {
        self.index_of(ip).is_some()
    }

    /// The entry of the peer `ip`.
    pub fn get(&self, ip: &str) -> (found: Option<&ClientInfo>)
        ensures
            found is Some <==> has_ip(self@, ip@),
            found matches Some(info) ==> info@.ip == ip@ && self@.contains(info@),
    {
        match self.index_of(ip) {
            Some(i) => {
                assert(self@[i as int] == self.entries@[i as int]@);
                Some(&self.entries[i])
            },
            None => None,
        }
    }

    /// The entry at position `i`.
    pub fn entry(&self, i: usize) -> (info: &ClientInfo)
        requires
            i < self@.len(),
        ensures
            info@ == self@[i as int],
    {
        &self.entries[i]
    }

    /// Stores `info` under its identity, in place of the peer's earlier
    /// entry where it had one.
    pub fn insert(&mut self, info: ClientInfo)
        ensures
            final(self)@ == upsert(old(self)@, info@),
    {
        proof {
            use_type_invariant(&*self);
            lemma_upsert_distinct(self@, info@);
        }
        let ghost before = self@;
        let ghost v = info@;
        let found = self.index_of(info.ip.as_str());
        let mut entries = self.take_entries();
        match found {
            Some(i) => {
                entries.set(i, info);
            },
            None => {
                entries.push(info);
            },
        }
        assert(views_of(entries@) =~= upsert(before, v));
        self.entries = entries;
    }

    /// Registers the peer `ip` as authenticated at `now`.
    pub fn register(&mut self, ip: &str, now: u64)
        ensures
            final(self)@ == upsert(old(self)@, fresh_client(ip@, now)),
    {
        self.insert(ClientInfo::new_authenticated(ip.to_owned(), now));
    }

    /// Gives the entry of the peer `ip` the status `status`.
    pub fn set_status(&mut self, ip: &str, status: String)
        ensures
            final(self)@ == with_status(old(self)@, ip@, status@),
    {
        proof {
            use_type_invariant(&*self);
        }
        let ghost before = self@;
        let found = self.index_of(ip);
        let mut entries = self.take_entries();
        let ghost text = status@;
        if let Some(i) = found {
            let info = ClientInfo {
                ip: entries[i].ip.clone(),
                connected_at: entries[i].connected_at,
                last_activity: entries[i].last_activity,
                status,
            };
            entries.set(i, info);
        }
        assert(views_of(entries@) =~= with_status(before, ip@, text));
        proof {
            lemma_same_ips_distinct(before, views_of(entries@));
        }
        self.entries = entries;
    }

    /// Notes that the peer `ip` was active at `now`, with the status `status`.
    pub fn record_activity(&mut self, ip: &str, now: u64, status: String)
        ensures
            final(self)@ == with_activity(old(self)@, ip@, now, status@),
    {
        proof {
            use_type_invariant(&*self);
        }
        let ghost before = self@;
        let found = self.index_of(ip);
        let mut entries = self.take_entries();
        let ghost text = status@;
        if let Some(i) = found {
            let info = ClientInfo {
                ip: entries[i].ip.clone(),
                connected_at: entries[i].connected_at,
                last_activity: now,
                status,
            };
            entries.set(i, info);
        }
        assert(views_of(entries@) =~= with_activity(before, ip@, now, text));
        proof {
            lemma_same_ips_distinct(before, views_of(entries@));
        }
        self.entries = entries;
    }

    /// A copy of every entry, in order.
    pub fn snapshot(&self) -> (copy: Vec<ClientInfo>)
        ensures
            views_of(copy@) == self@,
    {
        let mut copy: Vec<ClientInfo> = Vec::new();
        let mut i: usize = 0;
        while i < self.entries.len()
            invariant
                i <= self.entries.len(),
                copy@ == self.entries@.take(i as int),
            decreases self.entries.len() - i,
        {
            copy.push(self.entries[i].clone());
            assert(self.entries@.take(i + 1) =~= self.entries@.take(i as int).push(
                self.entries@[i as int],
            ));
            i += 1;
        }
        assert(self.entries@.take(i as int) =~= self.entries@);
        copy
    }
}

} // verus!
