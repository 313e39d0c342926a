use vstd::prelude::*;

use crate::ids::DeviceId;
use std::collections::BTreeMap;

verus! {

/// Whether a node gets a new connection: when asked to force it, when it has none,
/// or when its connection failed or its subscription ended.
pub open spec fn should_connect(table: Map<u64, bool>, node: DeviceId, force_reconnect: bool) -> bool {
    force_reconnect || !table.contains_key(node) || table[node]
}

/// The table after offering `nodes` a connection in order, with the number of new
/// connections made.
pub open spec fn offer_all(table: Map<u64, bool>, nodes: Seq<DeviceId>, force_reconnect: bool) -> (
    Map<u64, bool>,
    nat,
)
    decreases nodes.len(),
{
    if nodes.len() == 0 {
        (table, 0)
    } else {
        let (before, added) = offer_all(table, nodes.drop_last(), force_reconnect);
        if should_connect(before, nodes.last(), force_reconnect) {
            (before.insert(nodes.last(), false), added + 1)
        } else {
            (before, added)
        }
    }
}

/// The connections to nodes, each with whether it may be replaced by a timed
/// reconnect: a connection may once it failed or its subscription ended.
pub struct ConnectionTable {
    connections: BTreeMap<DeviceId, bool>,
}

impl ConnectionTable {
    /// For each connected node, whether its connection may be replaced.
    pub closed spec fn view(&self) -> Map<u64, bool> {
        self.connections@
    }

    /// A table without connections.
    pub fn new() -> (r: Self)
        ensures
            r.view() == Map::<u64, bool>::empty(),
    {
        ConnectionTable { connections: BTreeMap::new() }
    }

    /// Offers `node` a connection; says whether a new one was made, replacing the old.
    pub fn add_node(&mut self, node: DeviceId, force_reconnect: bool) -> (r: bool)
        ensures
            r == should_connect(old(self).view(), node, force_reconnect),
            r ==> final(self).view() == old(self).view().insert(node, false),
            !r ==> final(self).view() == old(self).view(),
    {
        let connect = force_reconnect || match self.connections.get(&node) {
            None => true,
            Some(allow) => *allow,
        };
        if connect {
            self.connections.insert(node, false);
        }
        connect
    }

    /// Offers each of `nodes` a connection in order; returns one more than the number
    /// of new connections made.
    pub fn add_nodes(&mut self, nodes: &[DeviceId], force_reconnect: bool) -> (r: usize)
        requires
            nodes@.len() < usize::MAX,
        ensures
            final(self).view() == offer_all(old(self).view(), nodes@, force_reconnect).0,
            r == offer_all(old(self).view(), nodes@, force_reconnect).1 + 1,
    {
        let mut counter: usize = 1;
        let mut i: usize = 0;
        while i < nodes.len()
            invariant
                i <= nodes@.len(),
                nodes@.len() < usize::MAX,
                self.view() == offer_all(old(self).view(), nodes@.take(i as int), force_reconnect).0,
                counter == offer_all(old(self).view(), nodes@.take(i as int), force_reconnect).1 + 1,
                counter <= i + 1,
            decreases nodes@.len() - i,
        {
            proof {
                assert(nodes@.take(i + 1).drop_last() =~= nodes@.take(i as int));
                assert(nodes@.take(i + 1).last() == nodes@[i as int]);
            }
            if self.add_node(nodes[i], force_reconnect) {
                counter = counter + 1;
            }
            i = i + 1;
        }
        proof {
            assert(nodes@.take(i as int) =~= nodes@);
        }
        counter
    }

    /// Lets the connection to `node`, if there is one, be replaced by a timed reconnect.
    pub fn allow_timed_reconnect(&mut self, node: DeviceId)
        ensures
            old(self).view().contains_key(node) ==> final(self).view() == old(self).view().insert(node, true),
            !old(self).view().contains_key(node) ==> final(self).view() == old(self).view(),
    {
        if self.connections.contains_key(&node) {
            self.connections.insert(node, true);
        }
    }

    /// Whether `node` has a connection.
    pub fn is_connected(&self, node: DeviceId) -> (r: bool)
        ensures
            r == self.view().contains_key(node),
    {
        self.connections.contains_key(&node)
    }
}

/// A live connection is kept when a node is offered a connection again without force;
/// once it failed or ended, the offer replaces it.
pub proof fn law_live_connection_is_kept(table: Map<u64, bool>, node: DeviceId)
    ensures
        !should_connect(table.insert(node, false), node, false),
        should_connect(table.insert(node, true), node, false),
        should_connect(table, node, true),
{
}


/// Offering nodes with force makes a new connection to each of them, every offer counted,
/// and leaves each offered node with a live connection; other nodes keep theirs.
pub proof fn law_forced_offer_connects_all(table: Map<u64, bool>, nodes: Seq<DeviceId>)
    ensures
        offer_all(table, nodes, true).1 == nodes.len(),
        forall|n: DeviceId| #[trigger] nodes.contains(n) ==> offer_all(table, nodes, true).0.contains_key(n)
            && offer_all(table, nodes, true).0[n] == false,
        forall|n: DeviceId| !nodes.contains(n) ==> (#[trigger] offer_all(table, nodes, true).0.contains_key(n)
            == table.contains_key(n)) && (table.contains_key(n) ==> offer_all(table, nodes, true).0[n]
            == table[n]),
    decreases nodes.len(),
{
    if nodes.len() > 0 {
        let init = nodes.drop_last();
        law_forced_offer_connects_all(table, init);
        let before = offer_all(table, init, true);
        assert(should_connect(before.0, nodes.last(), true));
        assert(offer_all(table, nodes, true) == (before.0.insert(nodes.last(), false), before.1 + 1));
        assert forall|n: DeviceId| #[trigger] nodes.contains(n) implies offer_all(table, nodes, true).0.contains_key(n)
            && offer_all(table, nodes, true).0[n] == false by {
            if n != nodes.last() {
                let k = choose|k: int| 0 <= k < nodes.len() && nodes[k] == n;
                assert(k < nodes.len() - 1);
                assert(init[k] == n);
                assert(init.contains(n));
            }
        }
        assert forall|n: DeviceId| !nodes.contains(n) implies (#[trigger] offer_all(table, nodes, true).0.contains_key(n)
            == table.contains_key(n)) && (table.contains_key(n) ==> offer_all(table, nodes, true).0[n]
            == table[n]) by {
            assert(nodes[nodes.len() - 1] == nodes.last());
            if init.contains(n) {
                let k = choose|k: int| 0 <= k < init.len() && init[k] == n;
                assert(nodes[k] == n);
            }
        }
    }
}

/// Offering, without force, nodes that all hold a live connection makes no new
/// connection and leaves the table as it was.
pub proof fn law_live_nodes_not_reconnected(table: Map<u64, bool>, nodes: Seq<DeviceId>)
    requires
        forall|i: int| 0 <= i < nodes.len() ==> table.contains_key(#[trigger] nodes[i]) && table[nodes[i]]
            == false,
    ensures
        offer_all(table, nodes, false) == (table, 0nat),
    decreases nodes.len(),
{
    if nodes.len() > 0 {
        let init = nodes.drop_last();
        assert forall|i: int| 0 <= i < init.len() implies table.contains_key(#[trigger] init[i])
            && table[init[i]] == false by {
            assert(init[i] == nodes[i]);
        }
        law_live_nodes_not_reconnected(table, init);
        assert(nodes[nodes.len() - 1] == nodes.last());
    }
}

} // verus!
