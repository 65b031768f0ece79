use vstd::prelude::*;
use crate::socket_addr::{SocketAddr, default_local_addr, local_8000};
use crate::remote::{Node, RemoteAddr};
use crate::addr_map::AddrMap;
use crate::connector_msgs::{
    ConnectorAction, ActionSpec, NodeEvents, SingleSeedMembers, action_fits, actions_fit,
};

verus! {

/// The members a seed tells a newly connected node about: all of its members
/// but that node.
pub open spec fn members_except<N>(members: Map<SocketAddr, N>, addr: SocketAddr) -> Set<SocketAddr> {
    members.dom().remove(addr)
}

/// A connection to a node is up: it becomes a member, and when this node is
/// its seed and knows other members, the node is told about them.
pub open spec fn single_seed_member_up<N>(
    members: Map<SocketAddr, N>,
    node: Node<N>,
    seed: bool,
) -> (Map<SocketAddr, N>, Seq<ActionSpec<N>>) {
    let m1 = members.insert(node.socket_addr, node.network_interface->Some_0);
    if seed && members_except(m1, node.socket_addr).len() > 0 {
        (
            m1,
            seq![
                ActionSpec::Members {
                    to: node.socket_addr,
                    handle: m1[node.socket_addr],
                    members: members_except(m1, node.socket_addr),
                },
            ],
        )
    } else {
        (m1, Seq::empty())
    }
}

/// A node whose seed this node is, coming up while other members are known, is
/// sent one message listing exactly the other members, through its own handle;
/// with no other member, or when this node is not its seed, nothing is sent.
/// Either way the node becomes a member.
pub proof fn lemma_single_seed_tells_others<N>(members: Map<SocketAddr, N>, node: Node<N>, seed: bool)
    ensures
        single_seed_member_up(members, node, seed).0 == members.insert(
            node.socket_addr,
            node.network_interface->Some_0,
        ),
        seed && members.dom().remove(node.socket_addr).len() > 0 ==> single_seed_member_up(members, node, seed).1
            == seq![
            ActionSpec::Members {
                to: node.socket_addr,
                handle: node.network_interface->Some_0,
                members: members.dom().remove(node.socket_addr),
            },
        ],
        !seed || members.dom().remove(node.socket_addr).len() == 0 ==> single_seed_member_up(members, node, seed).1.len()
            == 0,
{
    let m1 = members.insert(node.socket_addr, node.network_interface->Some_0);
    assert(m1.dom().remove(node.socket_addr) =~= members.dom().remove(node.socket_addr));
}

/// The membership protocol in which every node joins through one seed node,
/// which tells each new node about all other members.
///
/// All nodes but the seed must name the same seed; nodes with different seeds
/// end up in clusters that do not know each other.
pub struct SingleSeed<N> {
    own_addr: SocketAddr,
    members: AddrMap<N>,
}

impl<N> SingleSeed<N> {
    /// The address of this node.
    pub closed spec fn own(&self) -> SocketAddr {
        self.own_addr
    }

    /// The members and their handles.
    pub closed spec fn members(&self) -> Map<SocketAddr, N> {
        self.members.view()
    }

    /// The member table holds each address once.
    pub closed spec fn wf(&self) -> bool {
        self.members.wf()
    }

    /// A connector at `127.0.0.1:8000` without members.
    pub fn default() -> (r: SingleSeed<N>)
        ensures
            r.wf(),
            r.own() == local_8000(),
            r.members() == Map::<SocketAddr, N>::empty(),
    {
        SingleSeed::new(default_local_addr())
    }

    /// A connector at `own_addr` without members.
    pub fn new(own_addr: SocketAddr) -> (r: SingleSeed<N>)
        ensures
            r.wf(),
            r.own() == own_addr,
            r.members() == Map::<SocketAddr, N>::empty(),
    {
        SingleSeed { own_addr, members: AddrMap::new() }
    }

    /// The address of this node.
    pub fn get_own_addr(&self) -> (r: SocketAddr)
        ensures
            r == self.own(),
    {
        self.own_addr
    }

    /// The member table.
    pub fn get_member_map(&self) -> (r: &AddrMap<N>)
        requires
            self.wf(),
        ensures
            r.wf(),
            r.view() == self.members(),
    {
        &self.members
    }

    /// A node sent the members its seed knows: connect to each of them.
    pub fn handle_single_seed_members(&mut self, msg: SingleSeedMembers) -> (r: Vec<ConnectorAction<N>>)
        ensures
            *final(self) == *old(self),
            r@.len() == msg.0@.len(),
            forall|i: int| 0 <= i < r@.len() ==> r@[i] == ConnectorAction::<N>::ConnectToNode(msg.0@[i]),
    {
        let SingleSeedMembers(addrs) = msg;
        let mut r: Vec<ConnectorAction<N>> = Vec::new();
        let mut i: usize = 0;
        while i < addrs.len()
            invariant
                i <= addrs@.len(),
                r@.len() == i,
                forall|j: int| 0 <= j < i ==> r@[j] == ConnectorAction::<N>::ConnectToNode(addrs@[j]),
            decreases addrs@.len() - i,
        {
            r.push(ConnectorAction::ConnectToNode(addrs[i]));
            i = i + 1;
        }
        r
    }
}

impl<N: Clone> SingleSeed<N> {
    /// Tells the member at `member_addr` which other members there are, when
    /// there are any.
    fn give_information(&self, member_addr: SocketAddr) -> (r: Option<ConnectorAction<N>>)
        requires
            self.wf(),
            self.members().dom().contains(member_addr),
        ensures
            members_except(self.members(), member_addr).len() > 0 ==> r is Some && action_fits(
                r->Some_0,
                ActionSpec::Members {
                    to: member_addr,
                    handle: self.members()[member_addr],
                    members: members_except(self.members(), member_addr),
                },
            ),
            members_except(self.members(), member_addr).len() == 0 ==> r is None,
    {
        let n = self.members.len();
        let ghost keys = self.members.keys_seq();
        let mut others: Vec<SocketAddr> = Vec::new();
        let mut i: usize = 0;
        while i < n
            invariant
                self.wf(),
                keys == self.members.keys_seq(),
                n == keys.len(),
                i <= n,
                others@.no_duplicates(),
                forall|x: SocketAddr| others@.contains(x) <==> (keys.take(i as int).contains(x) && x != member_addr),
            decreases n - i,
        {
            let (k, _) = self.members.entry_at(i);
            let ghost t = keys.take(i + 1);
            let ghost start = others@;
            if *k != member_addr {
                proof {
                    assert(!keys.take(i as int).contains(*k)) by {
                        if keys.take(i as int).contains(*k) {
                            let w = choose|w: int| 0 <= w < i && keys.take(i as int)[w] == *k;
                            assert(keys[w] == keys[i as int]);
                        }
                    }
                }
                let ghost before = others@;
                others.push(*k);
                proof {
                    assert forall|a: int, b: int| 0 <= a < b < others@.len() implies others@[a] != others@[b] by {
                        if b == others@.len() - 1 {
                            assert(before.contains(others@[a]));
                        }
                    }
                }
            }
            proof {
                assert forall|x: SocketAddr| others@.contains(x) <==> (t.contains(x) && x != member_addr) by {
                    if t.contains(x) && x != member_addr {
                        let w = choose|w: int| 0 <= w < t.len() && t[w] == x;
                        if w < i {
                            assert(keys.take(i as int)[w] == x);
                            assert(start.contains(x));
                            let j = choose|j: int| 0 <= j < start.len() && start[j] == x;
                            assert(others@[j] == x);
                        } else {
                            assert(others@.last() == x);
                        }
                    }
                    if others@.contains(x) {
                        let w = choose|w: int| 0 <= w < others@.len() && others@[w] == x;
                        if w < start.len() {
                            assert(start[w] == x);
                            assert(start.contains(x));
                            let u = choose|u: int| 0 <= u < i && keys.take(i as int)[u] == x;
                            assert(t[u] == x);
                        } else {
                            assert(x == keys[i as int]);
                            assert(t[i as int] == x);
                        }
                    }
                }
            }
            i = i + 1;
        }
        proof {
            assert(keys.take(n as int) =~= keys);
            assert(others@.to_set() =~= members_except(self.members(), member_addr));
            others@.unique_seq_to_set();
        }
        if others.len() > 0 {
            match self.members.get(&member_addr) {
                Some(h) => {
                    let to = RemoteAddr::new_gossip(member_addr, Some(h.clone()));
                    Some(ConnectorAction::Members { to, members: SingleSeedMembers(others) })
                },
                None => None,
            }
        } else {
            None
        }
    }

    /// A connection came up or went down. A node that comes up must come with
    /// its handle.
    pub fn handle_node_event(&mut self, msg: NodeEvents<N>) -> (r: Vec<ConnectorAction<N>>)
        requires
            old(self).wf(),
            msg matches NodeEvents::MemberUp(node, _) ==> node.network_interface is Some,
        ensures
            final(self).wf(),
            final(self).own() == old(self).own(),
            match msg {
                NodeEvents::MemberUp(node, seed) => final(self).members() == single_seed_member_up(
                    old(self).members(),
                    node,
                    seed,
                ).0 && actions_fit(r@, single_seed_member_up(old(self).members(), node, seed).1),
                NodeEvents::MemberDown(addr) => final(self).members() == old(self).members().remove(addr)
                    && r@.len() == 0,
            },
    {
        let mut r: Vec<ConnectorAction<N>> = Vec::new();
        match msg {
            NodeEvents::MemberUp(node, seed) => {
                let Node { socket_addr, network_interface } = node;
                self.members.insert(socket_addr, network_interface.unwrap());
                if seed {
                    if let Some(a) = self.give_information(socket_addr) {
                        r.push(a);
                    }
                }
                assert(r@.len() == 0 ==> r@ =~= Seq::<ConnectorAction<N>>::empty());
            },
            NodeEvents::MemberDown(addr) => {
                let _gone = self.members.remove(&addr);
            },
        }
        r
    }
}

} // verus!
