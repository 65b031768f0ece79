use vstd::prelude::*;
use crate::socket_addr::{SocketAddr, default_local_addr, local_8000};
use crate::remote::{Node, handle_cloned};
use crate::connector_msgs::NodeEvents;
use crate::addr_map::AddrMap;

verus! {

/// Whether a node may keep a connection under the address it announced.
#[derive(Debug, Clone, Copy, PartialEq, Eq, Structural)]
pub enum ConnectionApprovalResponse {
    Approved,
    Declined,
}

/// A connection accepted from `send_addr` announces that its node listens at
/// `addr`.
#[derive(Debug, Clone, Copy, PartialEq, Eq, Structural)]
pub struct ConnectionApproval {
    pub addr: SocketAddr,
    pub send_addr: SocketAddr,
}

/// A member learned from gossip that the cluster should connect to.
#[derive(Debug, Clone, Copy, PartialEq, Eq, Structural)]
pub struct GossipResponse(pub SocketAddr);

/// A request to open a connection to the node at the address.
#[derive(Debug, Clone, Copy, PartialEq, Eq, Structural)]
pub struct ConnectToNode(pub SocketAddr);

/// Told to the listeners of a node when a member joins or leaves.
#[derive(Debug)]
pub enum ClusterLog<N> {
    NewMember(Node<N>),
    MemberLeft(SocketAddr),
}

/// The table of connections of a node: for each remote address, the handle of
/// the network interface that serves it (of type `N`).
pub struct Cluster<N> {
    ip_address: SocketAddr,
    addrs: Vec<SocketAddr>,
    nodes: AddrMap<N>,
}

impl<N> Cluster<N> {
    /// The address this node listens at.
    pub closed spec fn ip(&self) -> SocketAddr {
        self.ip_address
    }

    /// The seed nodes it connects to first.
    pub closed spec fn seeds(&self) -> Seq<SocketAddr> {
        self.addrs@
    }

    /// The connections.
    pub closed spec fn nodes(&self) -> Map<SocketAddr, N> {
        self.nodes.view()
    }

    /// The connection table holds each address once.
    pub closed spec fn wf(&self) -> bool {
        self.nodes.wf()
    }

    /// A node listening at `ip_address` that will connect to `seed_nodes`.
    pub fn new(ip_address: SocketAddr, seed_nodes: Vec<SocketAddr>) -> (r: Cluster<N>)
        ensures
            r.wf(),
            r.ip() == ip_address,
            r.seeds() == seed_nodes@,
            r.nodes() == Map::<SocketAddr, N>::empty(),
    {
        Cluster { ip_address, addrs: seed_nodes, nodes: AddrMap::new() }
    }

    /// A node listening at `127.0.0.1:8000` without seed nodes.
    pub fn default() -> (r: Cluster<N>)
        ensures
            r.wf(),
            r.ip() == local_8000(),
            r.seeds() == Seq::<SocketAddr>::empty(),
            r.nodes() == Map::<SocketAddr, N>::empty(),
    {
        Cluster::new(default_local_addr(), Vec::new())
    }

    /// The address this node listens at.
    pub fn ip_address(&self) -> (r: SocketAddr)
        ensures
            r == self.ip(),
    {
        self.ip_address
    }

    /// The seed nodes.
    pub fn seed_nodes(&self) -> (r: &Vec<SocketAddr>)
        ensures
            r@ == self.seeds(),
    {
        &self.addrs
    }

    /// Whether a connection to `node_addr` is still to be made.
    pub fn needs_node(&self, node_addr: &SocketAddr) -> (r: bool)
        requires
            self.wf(),
        ensures
            r == !self.nodes().dom().contains(*node_addr),
    {
        !self.nodes.contains_key(node_addr)
    }

    /// Records a connection made to `node_addr`, unless there is one already;
    /// then nothing changes and `node` is handed back. Gives `None` when
    /// `node` was filed.
    pub fn add_node(&mut self, node_addr: SocketAddr, node: N) -> (r: Option<N>)
        requires
            old(self).wf(),
        ensures
            final(self).wf(),
            final(self).ip() == old(self).ip(),
            final(self).seeds() == old(self).seeds(),
            old(self).nodes().dom().contains(node_addr) ==> final(self).nodes() == old(self).nodes() && r == Some(node),
            !old(self).nodes().dom().contains(node_addr) ==> final(self).nodes() == old(self).nodes().insert(node_addr, node)
                && r is None,
    {
        if self.nodes.contains_key(&node_addr) {
            Some(node)
        } else {
            self.nodes.insert(node_addr, node);
            None
        }
    }

    /// Records a connection accepted from `addr`, replacing any other one.
    pub fn add_node_from_stream(&mut self, addr: SocketAddr, node: N)
        requires
            old(self).wf(),
        ensures
            final(self).wf(),
            final(self).ip() == old(self).ip(),
            final(self).seeds() == old(self).seeds(),
            final(self).nodes() == old(self).nodes().insert(addr, node),
    {
        self.nodes.insert(addr, node);
    }

    /// A member went down: its connection is forgotten.
    pub fn member_down(&mut self, host: &SocketAddr) -> (r: Option<N>)
        requires
            old(self).wf(),
        ensures
            final(self).wf(),
            final(self).ip() == old(self).ip(),
            final(self).seeds() == old(self).seeds(),
            final(self).nodes() == old(self).nodes().remove(*host),
            r == (if old(self).nodes().dom().contains(*host) { Some(old(self).nodes()[*host]) } else { None }),
    {
        self.nodes.remove(host)
    }

    /// A member came up or went down: the listeners are told (the first
    /// result) and the event goes on to the connector (the second); a member
    /// that went down loses its connection.
    pub fn handle_node_event(&mut self, msg: NodeEvents<N>) -> (r: (ClusterLog<N>, NodeEvents<N>))
        where N: Clone
        requires
            old(self).wf(),
        ensures
            final(self).wf(),
            final(self).ip() == old(self).ip(),
            final(self).seeds() == old(self).seeds(),
            r.1 == msg,
            match msg {
                NodeEvents::MemberUp(node, _) => final(self).nodes() == old(self).nodes() && (r.0 matches ClusterLog::NewMember(
                    n,
                ) && n.socket_addr == node.socket_addr && handle_cloned(node.network_interface, n.network_interface)),
                NodeEvents::MemberDown(host) => final(self).nodes() == old(self).nodes().remove(host) && r.0
                    == ClusterLog::<N>::MemberLeft(host),
            },
    {
        match msg {
            NodeEvents::MemberUp(node, seed) => {
                let log = ClusterLog::NewMember(node.clone());
                (log, NodeEvents::MemberUp(node, seed))
            },
            NodeEvents::MemberDown(host) => {
                let _gone = self.nodes.remove(&host);
                (ClusterLog::MemberLeft(host), NodeEvents::MemberDown(host))
            },
        }
    }

    /// An accepted connection announces its listening address: declined when
    /// that node is connected already, otherwise the connection is filed under
    /// the announced address. The accepted connection must be on file.
    pub fn handle_connection_approval(&mut self, msg: ConnectionApproval) -> (r: ConnectionApprovalResponse)
        requires
            old(self).wf(),
            !old(self).nodes().dom().contains(msg.addr) ==> old(self).nodes().dom().contains(msg.send_addr),
        ensures
            final(self).wf(),
            final(self).ip() == old(self).ip(),
            final(self).seeds() == old(self).seeds(),
            old(self).nodes().dom().contains(msg.addr) ==> r == ConnectionApprovalResponse::Declined
                && final(self).nodes() == old(self).nodes(),
            !old(self).nodes().dom().contains(msg.addr) ==> r == ConnectionApprovalResponse::Approved
                && final(self).nodes() == old(self).nodes().remove(msg.send_addr).insert(
                msg.addr,
                old(self).nodes()[msg.send_addr],
            ),
    {
        if self.nodes.contains_key(&msg.addr) {
            ConnectionApprovalResponse::Declined
        } else {
            match self.nodes.remove(&msg.send_addr) {
                Some(node) => {
                    self.nodes.insert(msg.addr, node);
                },
                None => {},
            }
            ConnectionApprovalResponse::Approved
        }
    }
}

} // verus!
