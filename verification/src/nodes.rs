use vstd::prelude::*;

verus! {

/// The map from aliases to values that two aligned sequences describe.
pub open spec fn entries_map<C>(keys: Seq<Seq<char>>, vals: Seq<C>) -> Map<Seq<char>, C> {
    Map::new(|k: Seq<char>| keys.contains(k), |k: Seq<char>| vals[keys.index_of(k)])
}

/// The characters of each string, in order.
pub open spec fn string_views(strings: Seq<String>) -> Seq<Seq<char>> {
    strings.map_values(|s: String| s@)
}

/// Facts about `entries_map` over aligned sequences whose keys are distinct.
pub(crate) proof fn lemma_entries_map<C>(keys: Seq<Seq<char>>, vals: Seq<C>)
    requires
        keys.len() == vals.len(),
        keys.no_duplicates(),
    ensures
        entries_map(keys, vals).dom() == keys.to_set(),
        entries_map(keys, vals).dom().finite(),
        entries_map(keys, vals).len() == keys.len(),
        forall|i: int|
            0 <= i < keys.len() ==> #[trigger] entries_map(keys, vals).contains_key(keys[i])
                && entries_map(keys, vals)[keys[i]] == vals[i],
{
    broadcast use vstd::seq_lib::seq_to_set_is_finite;

    assert(entries_map(keys, vals).dom() =~= keys.to_set());
    keys.unique_seq_to_set();
    assert forall|i: int| 0 <= i < keys.len() implies #[trigger] entries_map(
        keys,
        vals,
    ).contains_key(keys[i]) && entries_map(keys, vals)[keys[i]] == vals[i] by {
        assert(keys.contains(keys[i]));
        let j = keys.index_of(keys[i]);
        assert(0 <= j < keys.len() && keys[j] == keys[i]);
    }
}

/// Appending a new key and its value inserts them into the map.
pub(crate) proof fn lemma_entries_map_push<C>(keys: Seq<Seq<char>>, vals: Seq<C>, k: Seq<char>, v: C)
    requires
        keys.len() == vals.len(),
        keys.no_duplicates(),
        !keys.contains(k),
    ensures
        keys.push(k).no_duplicates(),
        entries_map(keys.push(k), vals.push(v)) == entries_map(keys, vals).insert(k, v),
{
    let nk = keys.push(k);
    let nv = vals.push(v);
    assert forall|a: int, b: int| 0 <= a < nk.len() && 0 <= b < nk.len() && a != b implies nk[a]
        != nk[b] by {
        if a == keys.len() {
            assert(keys.contains(nk[b]) ==> nk[b] != k);
            assert(keys[b] == nk[b]);
        } else if b == keys.len() {
            assert(keys[a] == nk[a]);
        }
    }
    lemma_entries_map(nk, nv);
    lemma_entries_map(keys, vals);
    assert forall|x: Seq<char>| #[trigger] entries_map(nk, nv).contains_key(x)
        <==> entries_map(keys, vals).insert(k, v).contains_key(x) by {
        if keys.contains(x) {
            let j = choose|j: int| 0 <= j < keys.len() && keys[j] == x;
            assert(nk[j] == x);
        }
        if nk.contains(x) && x != k {
            let j = choose|j: int| 0 <= j < nk.len() && nk[j] == x;
            assert(j != keys.len());
            assert(keys[j] == x);
        }
        assert(nk[keys.len() as int] == k);
    }
    assert forall|x: Seq<char>| #[trigger] entries_map(nk, nv).contains_key(x) implies entries_map(
        nk,
        nv,
    )[x] == entries_map(keys, vals).insert(k, v)[x] by {
        if x == k {
            assert(nk[keys.len() as int] == k);
        } else {
            let j = choose|j: int| 0 <= j < nk.len() && nk[j] == x;
            assert(j != keys.len());
            assert(keys[j] == nk[j]);
            assert(nv[j] == vals[j]);
        }
    }
    assert(entries_map(nk, nv) =~= entries_map(keys, vals).insert(k, v));
}

/// Replacing the value at a position updates that key in the map.
proof fn lemma_entries_map_update<C>(keys: Seq<Seq<char>>, vals: Seq<C>, i: int, v: C)
    requires
        keys.len() == vals.len(),
        keys.no_duplicates(),
        0 <= i < keys.len(),
    ensures
        entries_map(keys, vals.update(i, v)) == entries_map(keys, vals).insert(keys[i], v),
{
    let nv = vals.update(i, v);
    lemma_entries_map(keys, nv);
    lemma_entries_map(keys, vals);
    assert forall|x: Seq<char>| #[trigger] entries_map(keys, nv).contains_key(x) implies entries_map(
        keys,
        nv,
    )[x] == entries_map(keys, vals).insert(keys[i], v)[x] by {
        let j = choose|j: int| 0 <= j < keys.len() && keys[j] == x;
        assert(keys[j] == x);
    }
    assert(entries_map(keys, nv) =~= entries_map(keys, vals).insert(keys[i], v));
}

/// Reading a node back after storing it: the alias now gives the stored
/// client, every other alias gives what it gave before, and the number of
/// nodes grows by one exactly when the alias was new.
pub proof fn lemma_insert_then_get<C>(
    nodes: Map<Seq<char>, C>,
    alias: Seq<char>,
    client: C,
    other: Seq<char>,
)
    requires
        nodes.dom().finite(),
    ensures
        nodes.insert(alias, client).contains_key(alias),
        nodes.insert(alias, client)[alias] == client,
        other != alias ==> (nodes.insert(alias, client).contains_key(other) <==> nodes.contains_key(
            other,
        )),
        other != alias && nodes.contains_key(other) ==> nodes.insert(alias, client)[other]
            == nodes[other],
        nodes.insert(alias, client).len() == if nodes.contains_key(alias) {
            nodes.len()
        } else {
            nodes.len() + 1
        },
{
    if nodes.contains_key(alias) {
        assert(nodes.insert(alias, client).dom() =~= nodes.dom());
    }
}

/// The connected clients of a set of LND nodes, each under its alias.
/// No alias occurs twice.
pub struct LndNodeClients<C> {
    aliases: Vec<String>,
    clients: Vec<C>,
}

impl<C> View for LndNodeClients<C> {
    type V = Map<Seq<char>, C>;

    closed spec fn view(&self) -> Map<Seq<char>, C> {
        entries_map(string_views(self.aliases@), self.clients@)
    }
}

impl<C> LndNodeClients<C> {
    /// The aliases in the order in which `aliases`, `iter` and `iter_mut`
    /// list the nodes: the order in which they were first inserted.
    pub closed spec fn order(&self) -> Seq<Seq<char>> {
        string_views(self.aliases@)
    }

    #[verifier::type_invariant]
    spec fn well_formed(self) -> bool {
        &&& self.aliases@.len() == self.clients@.len()
        &&& string_views(self.aliases@).no_duplicates()
    }

    /// An empty collection.
    pub fn new() -> (nodes: Self)
        ensures
            nodes@ == Map::<Seq<char>, C>::empty(),
            nodes.order() == Seq::<Seq<char>>::empty(),
    {
        let nodes = LndNodeClients { aliases: Vec::new(), clients: Vec::new() };
        assert(nodes@ =~= Map::<Seq<char>, C>::empty());
        assert(nodes.order() =~= Seq::<Seq<char>>::empty());
        nodes
    }

    /// The position of `alias` among the stored aliases, if it is there.
    fn position(&self, alias: &String) -> (pos: Option<usize>)
        ensures
            match pos {
                Some(i) => i < self.aliases@.len() && string_views(self.aliases@)[i as int]
                    == alias@,
                None => !string_views(self.aliases@).contains(alias@),
            },
    {
        let ghost keys = string_views(self.aliases@);
        let mut i: usize = 0;
        while i < self.aliases.len()
            invariant
                keys == string_views(self.aliases@),
                0 <= i <= self.aliases@.len(),
                forall|j: int| 0 <= j < i ==> keys[j] != alias@,
            decreases self.aliases@.len() - i,
        {
            if self.aliases[i].eq(alias) {
                return Some(i);
            }
            i = i + 1;
        }
        proof {
            if keys.contains(alias@) {
                let j = choose|j: int| 0 <= j < keys.len() && keys[j] == alias@;
                assert(keys[j] != alias@);
            }
        }
        None
    }

    /// The number of nodes.
    pub fn len(&self) -> (n: usize)
        ensures
            n == self@.len(),
    {
        proof {
            use_type_invariant(self);
            lemma_entries_map(string_views(self.aliases@), self.clients@);
        }
        self.aliases.len()
    }

    /// Whether there is no node at all.
    pub fn is_empty(&self) -> (empty: bool)
        ensures
            empty == (self@.len() == 0),
    {
        proof {
            use_type_invariant(self);
            lemma_entries_map(string_views(self.aliases@), self.clients@);
        }
        self.aliases.len() == 0
    }

    /// Whether a node is stored under `alias`.
    pub fn contains(&self, alias: &str) -> (found: bool)
        ensures
            found == self@.contains_key(alias@),
    {
        let key = alias.to_owned();
        match self.position(&key) {
            Some(_) => true,
            None => false,
        }
    }

    /// The client stored under `alias`, if any.
    pub fn get(&self, alias: &str) -> (client: Option<&C>)
        ensures
            match client {
                Some(c) => self@.contains_key(alias@) && *c == self@[alias@],
                None => !self@.contains_key(alias@),
            },
    {
        proof {
            use_type_invariant(self);
            lemma_entries_map(string_views(self.aliases@), self.clients@);
        }
        let key = alias.to_owned();
        match self.position(&key) {
            Some(i) => Some(&self.clients[i]),
            None => None,
        }
    }

    /// The client stored under `alias`, if any, to be changed in place.
    pub fn get_mut(&mut self, alias: &str) -> (client: Option<&mut C>)
        ensures
            final(self).order() == old(self).order(),
            match client {
                Some(c) => old(self)@.contains_key(alias@) && *c == old(self)@[alias@]
                    && final(self)@ == old(self)@.insert(alias@, *final(c)),
                None => !old(self)@.contains_key(alias@) && final(self)@ == old(self)@,
            },
    {
        proof {
            use_type_invariant(&*self);
            lemma_entries_map(string_views(self.aliases@), self.clients@);
        }
        let key = alias.to_owned();
        match self.position(&key) {
            Some(i) => Some(&mut self.clients[i]),
            None => None,
        }
    }

    /// A copy of the client stored under `alias`, if any.
    pub fn get_cloned(&self, alias: &str) -> (client: Option<C>) where C: Clone
        ensures
            match client {
                Some(c) => self@.contains_key(alias@) && cloned(self@[alias@], c),
                None => !self@.contains_key(alias@),
            },
    {
        match self.get(alias) {
            Some(c) => Some(c.clone()),
            None => None,
        }
    }

    /// The aliases of all nodes, each once.
    pub fn aliases(&self) -> (names: Vec<String>)
        ensures
            names@.len() == self@.len(),
            string_views(names@).no_duplicates(),
            string_views(names@).to_set() == self@.dom(),
            string_views(names@) == self.order(),
    {
        proof {
            use_type_invariant(self);
            lemma_entries_map(string_views(self.aliases@), self.clients@);
        }
        let mut names: Vec<String> = Vec::new();
        let mut i: usize = 0;
        while i < self.aliases.len()
            invariant
                0 <= i <= self.aliases@.len(),
                names@.len() == i,
                forall|j: int| 0 <= j < i ==> (#[trigger] names@[j])@ == self.aliases@[j]@,
            decreases self.aliases@.len() - i,
        {
            names.push(self.aliases[i].clone());
            i = i + 1;
        }
        assert(string_views(names@) =~= string_views(self.aliases@));
        names
    }

    /// Every node as its alias and its client, each alias once.
    pub fn iter(&self) -> (entries: Vec<(&str, &C)>)
        ensures
            entries@.len() == self@.len(),
            entries@.map_values(|e: (&str, &C)| e.0@).no_duplicates(),
            forall|i: int|
                0 <= i < entries@.len() ==> self@.contains_key(#[trigger] entries@[i].0@)
                    && *entries@[i].1 == self@[entries@[i].0@] && entries@[i].0@ == self.order()[i],
    {
        proof {
            use_type_invariant(self);
            lemma_entries_map(string_views(self.aliases@), self.clients@);
        }
        let ghost keys = string_views(self.aliases@);
        let mut entries: Vec<(&str, &C)> = Vec::new();
        let mut i: usize = 0;
        while i < self.aliases.len()
            invariant
                keys == string_views(self.aliases@),
                self.aliases@.len() == self.clients@.len(),
                0 <= i <= self.aliases@.len(),
                entries@.len() == i,
                forall|j: int|
                    0 <= j < i ==> (#[trigger] entries@[j]).0@ == keys[j] && *entries@[j].1
                        == self.clients@[j],
            decreases self.aliases@.len() - i,
        {
            entries.push((self.aliases[i].as_str(), &self.clients[i]));
            i = i + 1;
        }
        assert(entries@.map_values(|e: (&str, &C)| e.0@) =~= keys);
        entries
    }

    /// The node at position `index` in `order`, as its alias and its client,
    /// the client to be changed in place; `None` past the last node.
    pub fn iter_mut(&mut self, index: usize) -> (entry: Option<(&str, &mut C)>)
        ensures
            final(self).order() == old(self).order(),
            match entry {
                Some((alias, c)) => index < old(self)@.len() && alias@ == old(self).order()[index as int]
                    && old(self)@.contains_key(alias@) && *c == old(self)@[alias@]
                    && final(self)@ == old(self)@.insert(alias@, *final(c)),
                None => index >= old(self)@.len() && final(self)@ == old(self)@,
            },
    {
        proof {
            use_type_invariant(&*self);
            lemma_entries_map(string_views(self.aliases@), self.clients@);
        }
        if index < self.aliases.len() {
            Some((self.aliases[index].as_str(), &mut self.clients[index]))
        } else {
            None
        }
    }

    /// Hands the nodes out as pairs of alias and client, each alias once.
    pub fn into_inner(self) -> (entries: Vec<(String, C)>)
        ensures
            entries@.len() == self@.len(),
            entries@.map_values(|e: (String, C)| e.0@).no_duplicates(),
            forall|i: int|
                0 <= i < entries@.len() ==> self@.contains_key(#[trigger] entries@[i].0@)
                    && entries@[i].1 == self@[entries@[i].0@],
    {
        proof {
            use_type_invariant(&self);
            lemma_entries_map(string_views(self.aliases@), self.clients@);
        }
        let ghost keys = string_views(self.aliases@);
        let ghost vals = self.clients@;
        let LndNodeClients { mut aliases, mut clients } = self;
        let ghost n = aliases@.len();
        let mut entries: Vec<(String, C)> = Vec::new();
        while aliases.len() > 0
            invariant
                aliases@.len() == clients@.len(),
                n == keys.len(),
                vals.len() == n,
                aliases@.len() + entries@.len() == n,
                forall|j: int| 0 <= j < aliases@.len() ==> (#[trigger] aliases@[j])@ == keys[j],
                forall|j: int| 0 <= j < clients@.len() ==> #[trigger] clients@[j] == vals[j],
                forall|j: int|
                    0 <= j < entries@.len() ==> (#[trigger] entries@[j]).0@ == keys[n - 1 - j]
                        && entries@[j].1 == vals[n - 1 - j],
            decreases aliases@.len(),
        {
            let alias = aliases.pop().unwrap();
            let client = clients.pop().unwrap();
            entries.push((alias, client));
        }
        let ghost names = entries@.map_values(|e: (String, C)| e.0@);
        assert forall|a: int, b: int| 0 <= a < names.len() && 0 <= b < names.len() && a != b implies names[a] != names[b] by {
            assert(names[a] == keys[n - 1 - a]);
            assert(names[b] == keys[n - 1 - b]);
        }
        assert forall|i: int| 0 <= i < entries@.len() implies self@.contains_key(#[trigger] entries@[i].0@)
                    && entries@[i].1 == self@[entries@[i].0@] by {
            assert(entries@[i].0@ == keys[n - 1 - i]);
        }
        entries
    }

    /// Stores `client` under `alias`, replacing and returning the client that
    /// was stored there before, if any.
    pub fn insert(&mut self, alias: String, client: C) -> (previous: Option<C>)
        ensures
            final(self)@ == old(self)@.insert(alias@, client),
            final(self).order() == if old(self)@.contains_key(alias@) {
                old(self).order()
            } else {
                old(self).order().push(alias@)
            },
            match previous {
                Some(p) => old(self)@.contains_key(alias@) && p == old(self)@[alias@],
                None => !old(self)@.contains_key(alias@),
            },
    {
        proof {
            use_type_invariant(&*self);
            lemma_entries_map(string_views(self.aliases@), self.clients@);
        }
        let position = self.position(&alias);
        let mut taken = Self::new();
        std::mem::swap(self, &mut taken);
        let LndNodeClients { mut aliases, mut clients } = taken;
        let previous = match position {
            Some(i) => {
                proof {
                    lemma_entries_map_update(string_views(aliases@), clients@, i as int, client);
                }
                let mut previous = client;
                std::mem::swap(&mut clients[i], &mut previous);
                Some(previous)
            },
            None => {
                proof {
                    lemma_entries_map_push(string_views(aliases@), clients@, alias@, client);
                    assert(string_views(aliases@.push(alias)) =~= string_views(aliases@).push(alias@));
                }
                aliases.push(alias);
                clients.push(client);
                None
            },
        };
        *self = LndNodeClients { aliases, clients };
        previous
    }
}

impl<C: Clone> Clone for LndNodeClients<C> {
    /// A copy with the same aliases, in the same order, each with a copy of
    /// its client.
    fn clone(&self) -> (copy: Self)
        ensures
            copy.order() == self.order(),
            copy@.dom() == self@.dom(),
            forall|k: Seq<char>| #[trigger] self@.contains_key(k) ==> cloned(self@[k], copy@[k]),
    {
        proof {
            use_type_invariant(self);
        }
        let mut aliases: Vec<String> = Vec::new();
        let mut clients: Vec<C> = Vec::new();
        let mut i: usize = 0;
        while i < self.aliases.len()
            invariant
                self.aliases@.len() == self.clients@.len(),
                0 <= i <= self.aliases@.len(),
                aliases@.len() == i,
                clients@.len() == i,
                forall|j: int| 0 <= j < i ==> (#[trigger] aliases@[j])@ == self.aliases@[j]@,
                forall|j: int| 0 <= j < i ==> cloned(self.clients@[j], #[trigger] clients@[j]),
            decreases self.aliases@.len() - i,
        {
            aliases.push(self.aliases[i].clone());
            clients.push(self.clients[i].clone());
            i = i + 1;
        }
        proof {
            assert(string_views(aliases@) =~= string_views(self.aliases@));
            lemma_entries_map(string_views(self.aliases@), self.clients@);
            lemma_entries_map(string_views(aliases@), clients@);
        }
        let copy = LndNodeClients { aliases, clients };
        proof {
            let keys = string_views(self.aliases@);
            assert(copy@.dom() =~= self@.dom());
            assert forall|k: Seq<char>| #[trigger] self@.contains_key(k) implies cloned(self@[k], copy@[k]) by {
                let j = choose|j: int| 0 <= j < keys.len() && keys[j] == k;
                assert(self@[keys[j]] == self.clients@[j]);
            }
        }
        copy
    }
}

} // verus!
