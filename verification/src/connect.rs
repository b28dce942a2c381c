use vstd::prelude::*;

use crate::config::LndNodeConfig;
use crate::error::LndConnectError;
use crate::nodes::{entries_map, LndNodeClients};
use crate::validate::{
    alias_accepted, all_aliases_accepted, config_aliases, first_rejected, validate_node_configs,
};

verus! {

/// The map that results from inserting each client under its alias, in order,
/// into an empty map.
pub open spec fn connected_map<C>(aliases: Seq<Seq<char>>, clients: Seq<C>) -> Map<Seq<char>, C>
    decreases aliases.len(),
{
    if aliases.len() == 0 || clients.len() == 0 {
        Map::empty()
    } else {
        connected_map(aliases.drop_last(), clients.drop_last()).insert(
            aliases.last(),
            clients.last(),
        )
    }
}

/// Aliases pass the checks exactly when none is empty and no two are equal.
pub proof fn lemma_accepted_iff_distinct_nonempty(aliases: Seq<Seq<char>>)
    ensures
        all_aliases_accepted(aliases) <==> (aliases.no_duplicates() && forall|i: int|
            0 <= i < aliases.len() ==> #[trigger] aliases[i].len() > 0),
{
    if all_aliases_accepted(aliases) {
        assert forall|a: int, b: int|
            0 <= a < aliases.len() && 0 <= b < aliases.len() && a != b implies aliases[a]
            != aliases[b] by {
            if a < b {
                assert(alias_accepted(aliases, b));
            } else {
                assert(alias_accepted(aliases, a));
            }
        }
        assert forall|i: int| 0 <= i < aliases.len() implies #[trigger] aliases[i].len() > 0 by {
            assert(alias_accepted(aliases, i));
        }
    }
    if aliases.no_duplicates() && forall|i: int|
        0 <= i < aliases.len() ==> #[trigger] aliases[i].len() > 0 {
        assert forall|i: int| 0 <= i < aliases.len() implies #[trigger] alias_accepted(aliases, i) by {
            assert(aliases[i].len() > 0);
        }
    }
}

proof fn lemma_connected_map_is_entries_map<C>(aliases: Seq<Seq<char>>, clients: Seq<C>)
    requires
        aliases.len() == clients.len(),
        aliases.no_duplicates(),
    ensures
        connected_map(aliases, clients) == entries_map(aliases, clients),
    decreases aliases.len(),
{
    if aliases.len() == 0 {
        assert(entries_map(aliases, clients) =~= Map::empty());
    } else {
        let ka = aliases.drop_last();
        let kc = clients.drop_last();
        assert(ka.no_duplicates());
        lemma_connected_map_is_entries_map(ka, kc);
        assert(!ka.contains(aliases.last())) by {
            if ka.contains(aliases.last()) {
                let j = choose|j: int| 0 <= j < ka.len() && ka[j] == aliases.last();
                assert(aliases[j] == aliases[aliases.len() - 1]);
            }
        }
        crate::nodes::lemma_entries_map_push(ka, kc, aliases.last(), clients.last());
        assert(ka.push(aliases.last()) =~= aliases);
        assert(kc.push(clients.last()) =~= clients);
    }
}

/// When every alias of a set of node configurations passes the checks and
/// every node connects, the collection holds one client per node, under
/// that node's alias, and as many clients as there were configurations.
pub proof fn lemma_all_connected<C>(aliases: Seq<Seq<char>>, clients: Seq<C>)
    requires
        all_aliases_accepted(aliases),
        aliases.len() == clients.len(),
    ensures
        connected_map(aliases, clients).len() == aliases.len(),
        connected_map(aliases, clients).dom() == aliases.to_set(),
        forall|i: int|
            0 <= i < aliases.len() ==> #[trigger] connected_map(aliases, clients)[aliases[i]]
                == clients[i],
{
    lemma_accepted_iff_distinct_nonempty(aliases);
    lemma_connected_map_is_entries_map(aliases, clients);
    crate::nodes::lemma_entries_map(aliases, clients);
    assert forall|i: int| 0 <= i < aliases.len() implies #[trigger] connected_map(
        aliases,
        clients,
    )[aliases[i]] == clients[i] by {
        assert(entries_map(aliases, clients).contains_key(aliases[i]));
    }
}

/// Inserting one more client extends the map of the clients before it.
proof fn lemma_connected_map_step<C>(aliases: Seq<Seq<char>>, clients: Seq<C>, n: int, c: C)
    requires
        0 <= n < aliases.len(),
        clients.len() == n,
    ensures
        connected_map(aliases.take(n + 1), clients.push(c)) == connected_map(
            aliases.take(n),
            clients,
        ).insert(aliases[n], c),
{
    assert(aliases.take(n + 1).drop_last() =~= aliases.take(n));
    assert(clients.push(c).drop_last() =~= clients);
}

/// Connecting to a set of nodes, one node after the other, in the order of
/// their configurations. The configurations have passed the alias checks;
/// the nodes before `connected` have been connected, and the collection
/// holds their clients under their aliases.
pub struct ConnectNodes<C> {
    configs: Vec<LndNodeConfig>,
    next: usize,
    clients: LndNodeClients<C>,
    received: Ghost<Seq<C>>,
}

impl<C> ConnectNodes<C> {
    /// The configurations of the nodes to connect, in order.
    pub closed spec fn configs(&self) -> Seq<LndNodeConfig> {
        self.configs@
    }

    /// How many nodes have been connected so far.
    pub closed spec fn connected(&self) -> nat {
        self.next as nat
    }

    /// The clients of the nodes connected so far, in order.
    pub closed spec fn received(&self) -> Seq<C> {
        self.received@
    }

    /// The collection of the clients connected so far.
    pub closed spec fn clients(&self) -> Map<Seq<char>, C> {
        self.clients@
    }

    #[verifier::type_invariant]
    spec fn well_formed(self) -> bool {
        &&& self.next <= self.configs@.len()
        &&& all_aliases_accepted(config_aliases(self.configs@))
        &&& self.received@.len() == self.next
        &&& self.clients@ == connected_map(
            config_aliases(self.configs@).take(self.next as int),
            self.received@,
        )
    }

    /// Starts connecting to a set of nodes. Their aliases are checked first,
    /// in order, exactly as `validate_node_configs` does; when they pass,
    /// no node is connected yet.
    pub fn start(configs: Vec<LndNodeConfig>) -> (res: Result<Self, LndConnectError>)
        ensures
            res is Ok <==> all_aliases_accepted(config_aliases(configs@)),
            match res {
                Ok(run) => run.configs() == configs@ && run.connected() == 0 && run.clients()
                    == Map::<Seq<char>, C>::empty(),
                Err(LndConnectError::EmptyAlias) => exists|i: int|
                    first_rejected(config_aliases(configs@), i) && configs@[i].alias@.len() == 0,
                Err(LndConnectError::DuplicateAlias(alias)) => exists|i: int|
                    first_rejected(config_aliases(configs@), i) && configs@[i].alias@.len() > 0
                        && alias@ == configs@[i].alias@,
                Err(LndConnectError::NodeConnect { .. }) => false,
            },
    {
        let configs = validate_node_configs(configs)?;
        let clients = LndNodeClients::new();
        proof {
            assert(config_aliases(configs@).take(0).len() == 0);
        }
        Ok(ConnectNodes { configs, next: 0, clients, received: Ghost(Seq::empty()) })
    }

    /// The configuration of the node to connect next; `None` once every
    /// node is connected.
    pub fn next_node(&self) -> (node: Option<&LndNodeConfig>)
        ensures
            match node {
                Some(config) => self.connected() < self.configs().len() && *config
                    == self.configs()[self.connected() as int],
                None => self.connected() == self.configs().len(),
            },
    {
        proof {
            use_type_invariant(self);
        }
        if self.next < self.configs.len() {
            Some(&self.configs[self.next])
        } else {
            None
        }
    }

    /// Records the outcome of connecting to the next node: its client joins
    /// the collection under its alias; a failure, with its message, becomes
    /// the error that stops connecting and names the node.
    pub fn record(&mut self, outcome: Result<C, String>) -> (res: Result<(), LndConnectError>)
        requires
            old(self).connected() < old(self).configs().len(),
        ensures
            final(self).configs() == old(self).configs(),
            match outcome {
                Ok(client) => res is Ok && final(self).connected() == old(self).connected() + 1
                    && final(self).received() == old(self).received().push(client)
                    && final(self).clients() == old(self).clients().insert(
                    old(self).configs()[old(self).connected() as int].alias@,
                    client,
                ),
                Err(message) => final(self).connected() == old(self).connected()
                    && final(self).received() == old(self).received() && final(self).clients()
                    == old(self).clients() && match res {
                    Err(LndConnectError::NodeConnect { alias, message: m }) => alias@
                        == old(self).configs()[old(self).connected() as int].alias@ && m@
                        == message@,
                    _ => false,
                },
            },
    {
        proof {
            use_type_invariant(&*self);
        }
        let alias = self.configs[self.next].alias.clone();
        match outcome {
            Ok(client) => {
                let mut taken: ConnectNodes<C> = ConnectNodes {
                    configs: Vec::new(),
                    next: 0,
                    clients: LndNodeClients::new(),
                    received: Ghost(Seq::empty()),
                };
                proof {
                    assert(config_aliases(Seq::<LndNodeConfig>::empty()).take(0).len() == 0);
                }
                std::mem::swap(self, &mut taken);
                let ConnectNodes { configs, next, mut clients, received } = taken;
                let ghost aliases = config_aliases(configs@);
                let total = configs.len();
                assert(next < total);
                proof {
                    lemma_connected_map_step(aliases, received@, next as int, client);
                }
                let ghost now = received@.push(client);
                clients.insert(alias, client);
                *self = ConnectNodes { configs, next: next + 1, clients, received: Ghost(now) };
                Ok(())
            },
            Err(message) => Err(LndConnectError::NodeConnect { alias, message }),
        }
    }

    /// The collection once every node is connected: one client per node,
    /// under that node's alias.
    pub fn finish(self) -> (clients: LndNodeClients<C>)
        requires
            self.connected() == self.configs().len(),
        ensures
            clients@ == connected_map(config_aliases(self.configs()), self.received()),
            clients@.len() == self.configs().len(),
            clients@.dom() == config_aliases(self.configs()).to_set(),
            forall|i: int|
                0 <= i < self.configs().len() ==> #[trigger] clients@[self.configs()[i].alias@]
                    == self.received()[i],
    {
        proof {
            use_type_invariant(&self);
            let aliases = config_aliases(self.configs@);
            assert(aliases.take(self.next as int) =~= aliases);
            lemma_all_connected(aliases, self.received@);
            assert forall|i: int| 0 <= i < self.configs().len() implies #[trigger] self.clients@[self.configs()[i].alias@]
                    == self.received()[i] by {
                assert(aliases[i] == self.configs()[i].alias@);
            }
        }
        self.clients
    }
}

} // verus!
