//! A Minecraft-protocol reverse proxy: the wire codec, the per-connection
//! state machine and the event dispatch rules, each with its contract.
use vstd::prelude::*;

pub mod error;
pub mod event;
pub mod packet;
pub mod player;
pub mod server;

use crate::event::EventResult;
use crate::player::TrafficForwardingResult;
use crate::server::ProxiedServer;

verus! {

/// The proxy's settings: where it listens and which backends it knows, by
/// name.
#[derive(Debug)]
pub struct ProxyConfiguration {
    pub proxy_port: i16,
    pub address: Option<String>,
    pub servers: Option<Vec<(String, ProxiedServer)>>,
}

/// Whether no two entries of `servers` have the same name.
pub open spec fn names_unique(servers: Seq<(String, ProxiedServer)>) -> bool {
    forall|i: int, j: int|
        0 <= i < j < servers.len() ==> (#[trigger] servers[i]).0@ != (#[trigger] servers[j]).0@
}

/// The position of the entry named `name`, if any.
pub open spec fn name_position(servers: Seq<(String, ProxiedServer)>, name: Seq<char>) -> Option<
    int,
> {
    if exists|i: int| 0 <= i < servers.len() && (#[trigger] servers[i]).0@ == name {
        Some(choose|i: int| 0 <= i < servers.len() && (#[trigger] servers[i]).0@ == name)
    } else {
        None
    }
}

/// `servers` with `server` added under `name`: in place of the entry of
/// that name if there is one, else at the end.
pub open spec fn with_server(
    servers: Seq<(String, ProxiedServer)>,
    name: String,
    server: ProxiedServer,
) -> Seq<(String, ProxiedServer)> {
    match name_position(servers, name@) {
        Some(i) => servers.update(i, (name, server)),
        None => servers.push((name, server)),
    }
}

/// Adding a backend keeps it, and keeps every entry of another name.
pub proof fn lemma_with_server_keeps(
    servers: Seq<(String, ProxiedServer)>,
    name: String,
    server: ProxiedServer,
)
    ensures
        with_server(servers, name, server).contains((name, server)),
        forall|e: (String, ProxiedServer)|
            servers.contains(e) && e.0@ != name@ ==> #[trigger] with_server(
                servers,
                name,
                server,
            ).contains(e),
{
    let r = with_server(servers, name, server);
    match name_position(servers, name@) {
        Some(i) => {
            assert(servers[i].0@ == name@);
            assert(r[i] == (name, server));
            assert forall|e: (String, ProxiedServer)|
                servers.contains(e) && e.0@ != name@ implies #[trigger] r.contains(e) by {
                let j = choose|j: int| 0 <= j < servers.len() && servers[j] == e;
                assert(j != i);
                assert(r[j] == e);
            }
        },
        None => {
            assert(r[servers.len() as int] == (name, server));
            assert forall|e: (String, ProxiedServer)|
                servers.contains(e) && e.0@ != name@ implies #[trigger] r.contains(e) by {
                let j = choose|j: int| 0 <= j < servers.len() && servers[j] == e;
                assert(r[j] == e);
            }
        },
    }
}

/// Two backends added under different names are both there afterwards,
/// whichever was added first.
pub proof fn lemma_two_insertions_kept(
    servers: Seq<(String, ProxiedServer)>,
    name1: String,
    server1: ProxiedServer,
    name2: String,
    server2: ProxiedServer,
)
    requires
        name1@ != name2@,
    ensures
        with_server(with_server(servers, name1, server1), name2, server2).contains(
            (name1, server1),
        ),
        with_server(with_server(servers, name1, server1), name2, server2).contains(
            (name2, server2),
        ),
        with_server(with_server(servers, name2, server2), name1, server1).contains(
            (name1, server1),
        ),
        with_server(with_server(servers, name2, server2), name1, server1).contains(
            (name2, server2),
        ),
{
    lemma_with_server_keeps(servers, name1, server1);
    lemma_with_server_keeps(with_server(servers, name1, server1), name2, server2);
    lemma_with_server_keeps(servers, name2, server2);
    lemma_with_server_keeps(with_server(servers, name2, server2), name1, server1);
}

/// Adds `server` under `name` to a list of backends with distinct names.
fn insert_named(servers: &mut Vec<(String, ProxiedServer)>, name: String, server: ProxiedServer)
    requires
        names_unique(old(servers)@),
        old(servers)@.len() < usize::MAX,
    ensures
        names_unique(final(servers)@),
        final(servers)@ == with_server(old(servers)@, name, server),
{
    let mut i: usize = 0;
    while i < servers.len()
        invariant
            i <= servers@.len(),
            servers@ == old(servers)@,
            names_unique(old(servers)@),
            forall|j: int| 0 <= j < i ==> (#[trigger] servers@[j]).0@ != name@,
        decreases servers.len() - i,
    {
        if servers[i].0 == name {
            proof {
                let s = old(servers)@;
                let k = name_position(s, name@)->0;
                assert(s[i as int].0@ == name@);
                assert(k == i) by {
                    if k != i {
                        if k < i {
                            assert(s[k].0@ != name@);
                        } else {
                            assert(s[i as int].0@ != s[k].0@);
                        }
                    }
                }
            }
            servers.set(i, (name, server));
            proof {
                let s = servers@;
                assert forall|a: int, b: int| 0 <= a < b < s.len() implies (
                #[trigger] s[a]).0@ != (#[trigger] s[b]).0@ by {
                    let o = old(servers)@;
                    if a != i && b != i {
                        assert(o[a] == s[a] && o[b] == s[b]);
                    } else if a == i {
                        assert(o[b] == s[b]);
                        assert(o[a].0@ != o[b].0@);
                    } else {
                        assert(o[a] == s[a]);
                        assert(o[b].0@ != o[a].0@);
                    }
                }
            }
            return ;
        }
        i += 1;
    }
    servers.push((name, server));
    proof {
        let s = servers@;
        let o = old(servers)@;
        assert forall|a: int, b: int| 0 <= a < b < s.len() implies (#[trigger] s[a]).0@ != (
        #[trigger] s[b]).0@ by {
            if b < o.len() {
                assert(o[a] == s[a] && o[b] == s[b]);
            } else {
                assert(o[a] == s[a]);
            }
        }
    }
}

/// The state shared by all connections: the backends by name, and the
/// configuration the proxy started with.
#[derive(Debug)]
pub struct ProxyInstance {
    pub servers: Vec<(String, ProxiedServer)>,
    pub config: ProxyConfiguration,
}

impl ProxyInstance {
    /// No two backends share a name.
    pub open spec fn wf(&self) -> bool {
        names_unique(self.servers@)
    }

    /// Adds backend `server` under `name`, replacing the one of that name if
    /// there is one.
    pub fn insert_server(&mut self, name: String, server: ProxiedServer)
        requires
            old(self).wf(),
            old(self).servers@.len() < usize::MAX,
        ensures
            final(self).wf(),
            final(self).config == old(self).config,
            final(self).servers@ == with_server(old(self).servers@, name, server),
    {
        insert_named(&mut self.servers, name, server);
    }
    /// Whether any backend is known.
    pub fn has_servers(&self) -> (r: bool)
        ensures
            r == (self.servers@.len() > 0),
    {
        self.servers.len() > 0
    }

    /// The address to listen on: the configured one, else `0.0.0.0`.
    pub fn bind_address(&self) -> (r: String)
        ensures
            match self.config.address {
                Some(a) => r@ == a@,
                None => r@ == "0.0.0.0"@,
            },
    {
        match &self.config.address {
            Some(a) => a.clone(),
            None => "0.0.0.0".to_owned(),
        }
    }

    /// The backend that a player who dialled `address` is sent to: the first
    /// whose host is `address`, else the only backend where there is exactly
    /// one, else none.
    pub fn select_server(&self, address: &String) -> (r: Option<usize>)
        ensures
            match r {
                Some(i) => i < self.servers@.len() && ((self.servers@[i as int].1.address@
                    == address@ && forall|j: int|
                    0 <= j < i ==> (#[trigger] self.servers@[j]).1.address@ != address@) || (
                i == 0 && self.servers@.len() == 1 && self.servers@[0].1.address@ != address@)),
                None => self.servers@.len() != 1 && forall|j: int|
                    0 <= j < self.servers@.len() ==> (#[trigger] self.servers@[j]).1.address@
                        != address@,
            },
    {
        let mut i: usize = 0;
        while i < self.servers.len()
            invariant
                i <= self.servers@.len(),
                forall|j: int| 0 <= j < i ==> (#[trigger] self.servers@[j]).1.address@ != address@,
            decreases self.servers.len() - i,
        {
            if self.servers[i].1.address == *address {
                return Some(i);
            }
            i += 1;
        }
        if self.servers.len() == 1 {
            Some(0)
        } else {
            None
        }
    }
}

/// Builds the shared state from a configuration, which it keeps as given:
/// every backend the configuration names, each name once. Where the names
/// are distinct (as the keys of a configuration file are), the backends are
/// exactly the configured list.
pub fn new_instance(config: ProxyConfiguration) -> (r: ProxyInstance)
    ensures
        r.wf(),
        r.config == config,
        config.servers is None ==> r.servers@.len() == 0,
        config.servers is Some ==> forall|i: int|
            0 <= i < config.servers->0@.len() ==> name_position(
                r.servers@,
                (#[trigger] config.servers->0@[i]).0@,
            ) is Some,
        config.servers is Some ==> forall|i: int|
            0 <= i < r.servers@.len() ==> config.servers->0@.contains(#[trigger] r.servers@[i]),
        config.servers is Some && names_unique(config.servers->0@) ==> r.servers@
            == config.servers->0@,
{
    let mut servers: Vec<(String, ProxiedServer)> = Vec::new();
    if let Some(list) = &config.servers {
        let mut i: usize = 0;
        while i < list.len()
            invariant
                i <= list@.len(),
                names_unique(servers@),
                servers@.len() <= i,
                forall|j: int|
                    0 <= j < i ==> name_position(servers@, (#[trigger] list@[j]).0@) is Some,
                forall|j: int| 0 <= j < servers@.len() ==> list@.contains(#[trigger] servers@[j]),
                names_unique(list@) ==> servers@ == list@.subrange(0, i as int),
            decreases list@.len() - i,
        {
            let entry = &list[i];
            let name = entry.0.clone();
            let server = ProxiedServer::new(
                entry.1.name.clone(),
                entry.1.address.clone(),
                entry.1.port,
            );
            let ghost before = servers@;
            assert((name, server) == list@[i as int]);
            proof {
                if names_unique(list@) {
                    assert forall|j: int| 0 <= j < before.len() implies (#[trigger] before[j]).0@
                        != name@ by {
                        assert(before[j] == list@[j]);
                    }
                }
            }
            insert_named(&mut servers, name, server);
            proof {
                let after = servers@;
                lemma_with_server_keeps(before, name, server);
                assert forall|j: int| 0 <= j < after.len() implies list@.contains(
                    #[trigger] after[j],
                ) by {
                    if j < before.len() && after[j] == before[j] {
                        assert(list@.contains(before[j]));
                    } else {
                        assert(list@[i as int] == after[j]);
                    }
                }
                assert forall|j: int| 0 <= j <= i implies name_position(
                    after,
                    (#[trigger] list@[j]).0@,
                ) is Some by {
                    let key = list@[j].0@;
                    if j == i {
                        match name_position(before, key) {
                            Some(k) => assert(after[k].0@ == key),
                            None => assert(after[before.len() as int].0@ == key),
                        }
                    } else {
                        let k = name_position(before, key)->0;
                        assert(before[k].0@ == key);
                        assert(after[k].0@ == key);
                    }
                }
                if names_unique(list@) {
                    assert(name_position(before, name@) is None);
                    assert(after =~= list@.subrange(0, i + 1));
                }
            }
            i += 1;
        }
        proof {
            if names_unique(list@) {
                assert(list@.subrange(0, i as int) =~= list@);
            }
        }
    }
    ProxyInstance { servers, config }
}

/// What the proxy does once it read a client's handshake.
#[derive(Clone, Copy, Debug, PartialEq, Eq, Structural)]
pub enum HandshakeDecision {
    /// The client asks to log in but no backend is known: refuse the login.
    RejectNoServers,
    /// Go on with the login phase.
    Login,
    /// Anything else (a status request): end the session.
    Close,
}

/// The next state that a handshake asks for to log in.
pub const LOGIN_NEXT_STATE: u32 = 2;

/// What the proxy does after a handshake asking for `next_state`.
pub fn after_handshake(next_state: u32, has_servers: bool) -> (r: HandshakeDecision)
    ensures
        r == if next_state != LOGIN_NEXT_STATE {
            HandshakeDecision::Close
        } else if !has_servers {
            HandshakeDecision::RejectNoServers
        } else {
            HandshakeDecision::Login
        },
{
    if next_state != LOGIN_NEXT_STATE {
        HandshakeDecision::Close
    } else if !has_servers {
        HandshakeDecision::RejectNoServers
    } else {
        HandshakeDecision::Login
    }
}

/// Whether a player is connected to a backend after the listeners of
/// `PlayerJoinedProxy` answered `result`: `Stop` turns the player away.
pub fn join_proxy_proceeds(result: Option<EventResult>) -> (r: bool)
    ensures
        r == (result != Some(EventResult::Stop)),
{
    match result {
        Some(EventResult::Stop) => false,
        _ => true,
    }
}

/// Whether the player is told of a kick before the connection closes.
pub fn kick_notice_owed(result: TrafficForwardingResult) -> (r: bool)
    ensures
        r == (result == TrafficForwardingResult::ServerKickedPlayer),
{
    result == TrafficForwardingResult::ServerKickedPlayer
}

} // verus!
