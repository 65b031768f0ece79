use vstd::prelude::*;
use crate::socket_addr::{SocketAddr, local_8000};
use crate::remote::Node;
use crate::addr_map::AddrMap;
use crate::connector_msgs::{
    ConnectorAction, NodeEvents, NodeResolving, GossipMessage, GossipJoining, SingleSeedMembers,
    actions_fit,
};
use crate::gossip::{Gossip, GossipView, GossipState, on_gossip_message, on_gossip_joining, on_member_up, on_member_down};
use crate::single_seed::{SingleSeed, single_seed_member_up};
use crate::remote::handle_cloned;

verus! {

/// Which membership protocol a cluster runs.
#[derive(Debug, Clone, Copy, PartialEq, Eq, Structural)]
pub enum ConnectionProtocol {
    SingleSeed,
    Gossip,
}

impl ConnectionProtocol {
    /// Gossip, unless chosen otherwise.
    pub fn default() -> (r: ConnectionProtocol)
        ensures
            r == ConnectionProtocol::Gossip,
    {
        ConnectionProtocol::Gossip
    }
}

/// The gossip connector's state right after it was made.
pub open spec fn initial_gossip_view<N>(own_addr: SocketAddr, seed_nodes: Seq<SocketAddr>) -> GossipView<N> {
    GossipView {
        own_addr,
        members: Map::empty(),
        waiting: Set::empty(),
        state: GossipState::Lonely,
        about_to_join: None,
        queue: Seq::empty(),
        info: Seq::empty(),
        seeds: seed_nodes,
    }
}

/// The addresses a resolving request is answered for: all but this node's own,
/// in the order asked.
pub open spec fn resolved_addrs(addrs: Seq<SocketAddr>, own: SocketAddr) -> Seq<SocketAddr> {
    addrs.filter(other_than(own))
}

/// The test for an address other than `own`.
pub open spec fn other_than(own: SocketAddr) -> spec_fn(SocketAddr) -> bool {
    |a: SocketAddr| a != own
}

/// The actor that keeps track of the cluster's members with one of the two
/// membership protocols.
pub enum Connector<N> {
    Gossip(Gossip<N>),
    SingleSeed(SingleSeed<N>),
}

impl<N> Connector<N> {
    /// The protocol's state is well formed.
    pub open spec fn wf(&self) -> bool {
        match self {
            Connector::Gossip(g) => g.wf(),
            Connector::SingleSeed(s) => s.wf(),
        }
    }

    /// The members and their handles.
    pub open spec fn members(&self) -> Map<SocketAddr, N> {
        match self {
            Connector::Gossip(g) => g.view().members,
            Connector::SingleSeed(s) => s.members(),
        }
    }

    /// The address of this node.
    pub open spec fn own(&self) -> SocketAddr {
        match self {
            Connector::Gossip(g) => g.view().own_addr,
            Connector::SingleSeed(s) => s.own(),
        }
    }

    /// A connector for the chosen protocol, without members yet.
    pub fn from_connection_protocol(
        connection_protocol: ConnectionProtocol,
        own_address: SocketAddr,
        seed_nodes: Vec<SocketAddr>,
    ) -> (r: Connector<N>)
        ensures
            r.wf(),
            connection_protocol == ConnectionProtocol::Gossip ==> (r matches Connector::Gossip(g)
                && g.view() == initial_gossip_view::<N>(own_address, seed_nodes@)),
            connection_protocol == ConnectionProtocol::SingleSeed ==> (r matches Connector::SingleSeed(s)
                && s.own() == own_address && s.members() == Map::<SocketAddr, N>::empty()),
    {
        match connection_protocol {
            ConnectionProtocol::Gossip => Connector::Gossip(Gossip::new(own_address, seed_nodes)),
            ConnectionProtocol::SingleSeed => Connector::SingleSeed(SingleSeed::new(own_address)),
        }
    }

    /// A gossip connector at `127.0.0.1:8000` without seed nodes.
    pub fn default() -> (r: Connector<N>)
        ensures
            r.wf(),
            r matches Connector::Gossip(g) && g.view() == initial_gossip_view::<N>(local_8000(), Seq::empty()),
    {
        Connector::Gossip(Gossip::default())
    }

    /// The address of this node.
    pub fn get_own_addr(&self) -> (r: SocketAddr)
        ensures
            r == self.own(),
    {
        match self {
            Connector::Gossip(g) => g.get_own_addr(),
            Connector::SingleSeed(s) => s.get_own_addr(),
        }
    }

    /// The member table.
    pub fn get_member_map(&self) -> (r: &AddrMap<N>)
        requires
            self.wf(),
        ensures
            r.wf(),
            r.view() == self.members(),
    {
        match self {
            Connector::Gossip(g) => g.get_member_map(),
            Connector::SingleSeed(s) => s.get_member_map(),
        }
    }

    /// Whether every address but this node's own is a member.
    pub fn knows_all(&self, addrs: &Vec<SocketAddr>) -> (r: bool)
        requires
            self.wf(),
        ensures
            r == (forall|i: int| 0 <= i < addrs@.len() && addrs@[i] != self.own() ==> self.members().dom().contains(
                #[trigger] addrs@[i],
            )),
    {
        let own = self.get_own_addr();
        let members = self.get_member_map();
        let mut i: usize = 0;
        while i < addrs.len()
            invariant
                members.wf(),
                members.view() == self.members(),
                own == self.own(),
                i <= addrs@.len(),
                forall|j: int| 0 <= j < i && addrs@[j] != own ==> members.view().dom().contains(#[trigger] addrs@[j]),
            decreases addrs@.len() - i,
        {
            if addrs[i] != own && !members.contains_key(&addrs[i]) {
                return false;
            }
            i = i + 1;
        }
        true
    }
}

impl<N: Clone> Connector<N> {
    /// The handles of the asked members, leaving out this node itself, in the
    /// order asked; `Err` when an address asked for, other than this node's
    /// own, is not a member (for instance one that has left).
    pub fn handle_node_resolving(&self, msg: NodeResolving) -> (r: Result<Vec<N>, ()>)
        requires
            self.wf(),
        ensures
            r is Ok <==> (forall|i: int| 0 <= i < msg.addrs@.len() && msg.addrs@[i] != self.own() ==> self.members().dom().contains(
                #[trigger] msg.addrs@[i],
            )),
            r is Ok ==> r->Ok_0@.len() == resolved_addrs(msg.addrs@, self.own()).len(),
            r is Ok ==> forall|i: int| 0 <= i < r->Ok_0@.len() ==> handle_cloned(
                Some(self.members()[resolved_addrs(msg.addrs@, self.own())[i]]),
                Some(#[trigger] r->Ok_0@[i]),
            ),
    {
        if !self.knows_all(&msg.addrs) {
            return Err(());
        }
        let own = self.get_own_addr();
        let members = self.get_member_map();
        let addrs = msg.addrs;
        let ghost f = other_than(own);
        let mut out: Vec<N> = Vec::new();
        let mut i: usize = 0;
        while i < addrs.len()
            invariant
                members.wf(),
                members.view() == self.members(),
                own == self.own(),
                f == other_than(own),
                i <= addrs@.len(),
                forall|j: int| 0 <= j < addrs@.len() && addrs@[j] != own ==> members.view().dom().contains(#[trigger] addrs@[j]),
                out@.len() == addrs@.take(i as int).filter(f).len(),
                forall|j: int| 0 <= j < out@.len() ==> handle_cloned(
                    Some(members.view()[addrs@.take(i as int).filter(f)[j]]),
                    Some(#[trigger] out@[j]),
                ),
            decreases addrs@.len() - i,
        {
            let ghost before = addrs@.take(i as int);
            let ghost after = addrs@.take(i + 1);
            assert(after.drop_last() =~= before);
            proof {
                reveal_with_fuel(Seq::<_>::filter, 1);
            }
            if addrs[i] != own {
                let h = members.get(&addrs[i]).unwrap();
                out.push(h.clone());
                assert(after.filter(f) == before.filter(f).push(addrs@[i as int]));
            } else {
                assert(after.filter(f) == before.filter(f));
            }
            i = i + 1;
        }
        assert(addrs@.take(addrs@.len() as int) =~= addrs@);
        Ok(out)
    }

    /// A connection came up or went down: handled by the running protocol.
    pub fn handle_node_event(&mut self, msg: NodeEvents<N>) -> (r: Vec<ConnectorAction<N>>)
        requires
            old(self).wf(),
            msg matches NodeEvents::MemberUp(node, _) ==> node.network_interface is Some,
        ensures
            final(self).wf(),
            match *old(self) {
                Connector::Gossip(g0) => *final(self) matches Connector::Gossip(g1) && match msg {
                    NodeEvents::MemberUp(node, seed) => exists|later: Node<N>|
                        {
                            &&& later.socket_addr == node.socket_addr
                            &&& handle_cloned(node.network_interface, later.network_interface)
                            &&& g1.view() == on_member_up(g0.view(), node, seed, later).0
                            &&& actions_fit(r@, on_member_up(g0.view(), node, seed, later).1)
                        },
                    NodeEvents::MemberDown(addr) => g1.view() == on_member_down(g0.view(), addr).0
                        && actions_fit(r@, on_member_down(g0.view(), addr).1),
                },
                Connector::SingleSeed(s0) => *final(self) matches Connector::SingleSeed(s1) && s1.own() == s0.own()
                    && match msg {
                    NodeEvents::MemberUp(node, seed) => s1.members() == single_seed_member_up(
                        s0.members(),
                        node,
                        seed,
                    ).0 && actions_fit(r@, single_seed_member_up(s0.members(), node, seed).1),
                    NodeEvents::MemberDown(addr) => s1.members() == s0.members().remove(addr) && r@.len() == 0,
                },
            },
    {
        match self {
            Connector::Gossip(gossip) => gossip.handle_node_event(msg),
            Connector::SingleSeed(single_seed) => single_seed.handle_node_event(msg),
        }
    }

    /// A gossip message arrives; only the gossip protocol handles it.
    pub fn handle_gossip_message(&mut self, msg: GossipMessage) -> (r: Vec<ConnectorAction<N>>)
        requires
            old(self).wf(),
        ensures
            final(self).wf(),
            match *old(self) {
                Connector::Gossip(g0) => *final(self) matches Connector::Gossip(g1) && g1.view()
                    == on_gossip_message(g0.view(), msg).0 && actions_fit(r@, on_gossip_message(g0.view(), msg).1),
                Connector::SingleSeed(_) => *final(self) == *old(self) && r@.len() == 0,
            },
    {
        match self {
            Connector::Gossip(gossip) => gossip.handle_gossip_message(msg),
            Connector::SingleSeed(_) => Vec::new(),
        }
    }

    /// A joining count arrives; only the gossip protocol handles it.
    pub fn handle_gossip_joining(&mut self, msg: GossipJoining) -> (r: Vec<ConnectorAction<N>>)
        requires
            old(self).wf(),
        ensures
            final(self).wf(),
            match *old(self) {
                Connector::Gossip(g0) => *final(self) matches Connector::Gossip(g1) && g1.view()
                    == on_gossip_joining(g0.view(), msg.about_to_join).0 && actions_fit(
                    r@,
                    on_gossip_joining(g0.view(), msg.about_to_join).1,
                ),
                Connector::SingleSeed(_) => *final(self) == *old(self) && r@.len() == 0,
            },
    {
        match self {
            Connector::Gossip(gossip) => gossip.handle_gossip_joining(msg),
            Connector::SingleSeed(_) => Vec::new(),
        }
    }

    /// A seed's member list arrives; only the single-seed protocol handles it,
    /// by connecting to each listed node.
    pub fn handle_single_seed_members(&mut self, msg: SingleSeedMembers) -> (r: Vec<ConnectorAction<N>>)
        ensures
            *final(self) == *old(self),
            *old(self) is SingleSeed ==> r@.len() == msg.0@.len() && forall|i: int|
                0 <= i < r@.len() ==> r@[i] == ConnectorAction::<N>::ConnectToNode(msg.0@[i]),
            *old(self) is Gossip ==> r@.len() == 0,
    {
        match self {
            Connector::SingleSeed(single_seed) => single_seed.handle_single_seed_members(msg),
            Connector::Gossip(_) => Vec::new(),
        }
    }
}

} // verus!
