//! Which engine handles which client.
//!
//! Every client has an engine of its own. Engines are numbered in the order in
//! which their clients first appear.
use std::collections::HashMap;
use vstd::prelude::*;

verus! {

broadcast use vstd::std_specs::hash::group_hash_axioms;

/// Where a row goes.
#[derive(Debug, Clone, Copy, PartialEq, Eq, Structural)]
pub struct Route {
    /// The number of the engine.
    pub actor: usize,
    /// The engine is new and has to be started first.
    pub spawn: bool,
}

/// The clients seen, each with its engine.
pub struct Router {
    slots: HashMap<u16, usize>,
    clients: Vec<u16>,
}

impl View for Router {
    type V = Seq<u16>;

    /// The clients in order of first appearance.
    closed spec fn view(&self) -> Seq<u16> {
        self.clients@
    }
}

/// The route of a client among these clients.
pub open spec fn route_of(clients: Seq<u16>, client: u16) -> Route {
    if clients.contains(client) {
        Route { actor: clients.index_of(client) as usize, spawn: false }
    } else {
        Route { actor: clients.len() as usize, spawn: true }
    }
}

/// The clients after a row of this client.
pub open spec fn clients_after(clients: Seq<u16>, client: u16) -> Seq<u16> {
    if clients.contains(client) {
        clients
    } else {
        clients.push(client)
    }
}

impl Router {
    /// No client appears twice, and each is found under its number.
    pub closed spec fn wf(self) -> bool {
        &&& self.clients@.no_duplicates()
        &&& forall|c: u16| #[trigger] self.slots@.contains_key(c) <==> self.clients@.contains(c)
        &&& forall|c: u16| #[trigger]
            self.slots@.contains_key(c) ==> self.slots@[c] < self.clients@.len()
                && self.clients@[self.slots@[c] as int] == c
    }

    /// A router that has seen no client.
    pub fn new() -> (router: Router)
        ensures
            router@ == Seq::<u16>::empty(),
            router.wf(),
    {
        Router { slots: HashMap::new(), clients: Vec::new() }
    }

    /// Route a row of `client`.
    pub fn route(&mut self, client: u16) -> (route: Route)
        requires
            old(self).wf(),
        ensures
            route == route_of(old(self)@, client),
            final(self)@ == clients_after(old(self)@, client),
            final(self).wf(),
    {
        match self.slots.get(&client) {
            Some(actor) => {
                let actor = *actor;
                assert(self.clients@[self.clients@.index_of(client)] == client);
                Route { actor, spawn: false }
            },
            None => {
                let actor = self.clients.len();
                let ghost before = self.clients@;
                self.slots.insert(client, actor);
                self.clients.push(client);
                proof {
                    let after = self.clients@;
                    assert(after[actor as int] == client);
                    assert forall|c: u16| #[trigger] self.slots@.contains_key(c) <==> after.contains(c) by {
                        if before.contains(c) {
                            assert(after[before.index_of(c)] == c);
                        }
                        if after.contains(c) && c != client {
                            assert(before[after.index_of(c)] == c);
                        }
                    }
                }
                Route { actor, spawn: true }
            },
        }
    }
}

/// A client keeps its engine, whichever rows come in between, and the engine is
/// started once.
pub proof fn law_client_keeps_its_actor(clients: Seq<u16>, client: u16, other: u16)
    requires
        clients.no_duplicates(),
        clients.contains(client),
    ensures
        route_of(clients_after(clients, other), client) == route_of(clients, client),
        !route_of(clients, client).spawn,
{
    let after = clients_after(clients, other);
    let i = clients.index_of(client);
    assert(after[i] == client);
    let j = after.index_of(client);
    assert(after[j] == client);
    if j < clients.len() {
        assert(clients[j] == client);
    }
}

/// Two clients never share an engine.
pub proof fn law_actors_are_not_shared(clients: Seq<u16>, a: u16, b: u16)
    requires
        a != b,
        clients.contains(a),
        clients.contains(b),
        clients.len() <= usize::MAX,
    ensures
        route_of(clients, a).actor != route_of(clients, b).actor,
{
    assert(clients[clients.index_of(a)] == a);
    assert(clients[clients.index_of(b)] == b);
}

/// The clients after a stream of rows, each row given by its client.
pub open spec fn clients_of(rows: Seq<u16>) -> Seq<u16>
    decreases rows.len(),
{
    if rows.len() == 0 {
        Seq::empty()
    } else {
        clients_after(clients_of(rows.drop_last()), rows.last())
    }
}

/// The engine that the `i`-th row of a stream is sent to.
pub open spec fn actor_of(rows: Seq<u16>, i: int) -> usize {
    route_of(clients_of(rows.take(i)), rows[i]).actor
}

pub proof fn lemma_clients_of(rows: Seq<u16>)
    ensures
        clients_of(rows).no_duplicates(),
        clients_of(rows).len() <= rows.len(),
        forall|c: u16| #[trigger] clients_of(rows).contains(c) <==> rows.contains(c),
    decreases rows.len(),
{
    if rows.len() > 0 {
        let rest = rows.drop_last();
        let before = clients_of(rest);
        let after = clients_of(rows);
        lemma_clients_of(rest);
        assert forall|c: u16| #[trigger] after.contains(c) <==> rows.contains(c) by {
            assert(before.contains(c) <==> rest.contains(c));
            if rest.contains(c) {
                assert(rows[rest.index_of(c)] == c);
                assert(after[before.index_of(c)] == c);
            }
            if c == rows.last() {
                assert(rows[rows.len() - 1] == c);
                if !before.contains(c) {
                    assert(after[before.len() as int] == c);
                }
            }
            if rows.contains(c) && c != rows.last() {
                assert(rest[rows.index_of(c)] == c);
            }
            if after.contains(c) && c != rows.last() {
                assert(before[after.index_of(c)] == c);
            }
        }
    }
}

/// A row's engine is the one that its client has at any later time.
proof fn lemma_actor_stays(rows: Seq<u16>, i: int, n: int)
    requires
        0 <= i < n <= rows.len() <= usize::MAX,
    ensures
        clients_of(rows.take(n)).contains(rows[i]),
        route_of(clients_of(rows.take(n)), rows[i]).actor == actor_of(rows, i),
    decreases n,
{
    let before = clients_of(rows.take(n - 1));
    let after = clients_of(rows.take(n));
    assert(rows.take(n).drop_last() =~= rows.take(n - 1));
    assert(rows.take(n).last() == rows[n - 1]);
    lemma_clients_of(rows.take(n - 1));
    lemma_clients_of(rows.take(n));
    if n - 1 > i {
        lemma_actor_stays(rows, i, n - 1);
        law_client_keeps_its_actor(before, rows[i], rows[n - 1]);
    } else if !before.contains(rows[i]) {
        assert(after[before.len() as int] == rows[i]);
    }
    assert(rows.take(n)[i] == rows[i]);
    assert(rows.take(n).contains(rows[i]));
}

/// The engine of a row is the place of its client among all clients of the
/// stream.
pub proof fn lemma_actor_is_place_of_client(rows: Seq<u16>, i: int)
    requires
        0 <= i < rows.len() <= usize::MAX,
    ensures
        clients_of(rows).contains(rows[i]),
        actor_of(rows, i) == clients_of(rows).index_of(rows[i]),
{
    assert(rows.take(rows.len() as int) =~= rows);
    lemma_actor_stays(rows, i, rows.len() as int);
    lemma_clients_of(rows);
}

/// In a whole stream two rows go to the same engine exactly if they are of the
/// same client.
pub proof fn law_stream_has_one_actor_per_client(rows: Seq<u16>, i: int, j: int)
    requires
        0 <= i < rows.len(),
        0 <= j < rows.len(),
        rows.len() <= usize::MAX,
    ensures
        actor_of(rows, i) == actor_of(rows, j) <==> rows[i] == rows[j],
{
    lemma_actor_is_place_of_client(rows, i);
    lemma_actor_is_place_of_client(rows, j);
    lemma_clients_of(rows);
    let clients = clients_of(rows);
    assert(clients[clients.index_of(rows[i])] == rows[i]);
    assert(clients[clients.index_of(rows[j])] == rows[j]);
}

/// A row starts an engine exactly if no row before it is of the same client. The
/// engine gets the next number: that of the engines started before.
pub proof fn law_first_row_starts_next_actor(rows: Seq<u16>, i: int)
    requires
        0 <= i < rows.len() <= usize::MAX,
    ensures
        route_of(clients_of(rows.take(i)), rows[i]).spawn <==> forall|j: int| 0 <= j < i ==> rows[j] != rows[i],
        route_of(clients_of(rows.take(i)), rows[i]).spawn ==> actor_of(rows, i) == clients_of(rows.take(i)).len(),
        clients_of(rows.take(i + 1)).len() == clients_of(rows.take(i)).len() + if route_of(
            clients_of(rows.take(i)),
            rows[i],
        ).spawn {
            1int
        } else {
            0
        },
        clients_of(rows.take(0)).len() == 0,
{
    let before = rows.take(i);
    lemma_clients_of(before);
    assert(rows.take(i + 1).drop_last() =~= before);
    assert(clients_of(before).contains(rows[i]) <==> before.contains(rows[i]));
    if before.contains(rows[i]) {
        let j = before.index_of(rows[i]);
        assert(rows[j] == before[j]);
    } else {
        assert forall|j: int| 0 <= j < i implies rows[j] != rows[i] by {
            assert(before[j] == rows[j]);
        }
    }
}

/// What a router has seen is its list of clients.
proof fn law_router_shows_its_clients(router: Router)
    ensures
        router@ == router.clients@,
{
}

} // verus!
