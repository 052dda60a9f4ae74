//! The settings that the bridge is started with.

use vstd::prelude::*;

verus! {

/// Where to listen, the shared secret, and the peers that may try it.
/// Without a whitelist every peer may.
#[derive(Clone, Debug, PartialEq, Eq)]
pub struct Config {
    pub listener_ip: String,
    pub auth_token: String,
    pub whitelist: Option<Vec<String>>,
}

/// The mathematical content of a [`Config`].
pub struct ConfigView {
    pub listener_ip: Seq<char>,
    pub auth_token: Seq<char>,
    pub whitelist: Option<Seq<Seq<char>>>,
}

/// The texts of `list`, in order.
pub open spec fn texts_of(list: Seq<String>) -> Seq<Seq<char>> {
    list.map_values(|s: String| s@)
}

impl View for Config {
    type V = ConfigView;

    open spec fn view(&self) -> ConfigView {
        ConfigView {
            listener_ip: self.listener_ip@,
            auth_token: self.auth_token@,
            whitelist: match self.whitelist {
                Some(list) => Some(texts_of(list@)),
                None => None,
            },
        }
    }
}

impl ConfigView {
    /// Whether a connection from the address `ip` may attempt the
    /// handshake: there is no whitelist, or the address is on it.
    pub open spec fn admits(self, ip: Seq<char>) -> bool {
        match self.whitelist {
            Some(list) => list.contains(ip),
            None => true,
        }
    }
}

impl Config {
    /// Whether a connection from the address `ip` may attempt the handshake.
    pub fn admits(&self, ip: &str) -> (admitted: bool)
        ensures
            admitted == self@.admits(ip@),
    {
        match &self.whitelist {
            None => true,
            Some(list) => {
                let mut i: usize = 0;
                while i < list.len()
                    invariant
                        i <= list.len(),
                        self@.whitelist == Some(texts_of(list@)),
                        forall|j: int| 0 <= j < i ==> (#[trigger] texts_of(list@)[j]) != ip@,
                    decreases list.len() - i,
                {
                    if list[i].as_str().eq(ip) {
                        assert(texts_of(list@)[i as int] == ip@);
                        return true;
                    }
                    i += 1;
                }
                false
            },
        }
    }
}

} // verus!
