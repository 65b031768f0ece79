use vstd::prelude::*;
use crate::socket_addr::SocketAddr;
use crate::remote::{Node, handle_cloned, clone_handle};
use crate::addr_repr::AddrRepresentation;
use crate::message::{ClusterMessage, RemoteWrapper};
use crate::cluster::{ConnectionApproval, ConnectionApprovalResponse};
use crate::connector_msgs::NodeEvents;

verus! {

/// How many times a network interface reconnects before it gives up.
pub const MAX_RECONNECTS: i8 = 2;

/// Which local actor a message that came in is handed to.
#[derive(Debug, Clone, Copy, PartialEq, Eq, Structural)]
pub enum Route {
    /// The connector, which runs the membership protocol.
    Connector,
    /// The registry of named actors, which passes it on by name.
    Resolver,
}

/// Whether a stopping network interface tries again.
#[derive(Debug)]
pub enum StopDecision {
    Reconnect,
    /// Stop, after telling the cluster the member at this address is gone.
    Stop(SocketAddr),
}

/// What a network interface does with a message from its peer.
#[derive(Debug)]
pub enum InterfaceStep<N> {
    /// Ask the cluster whether the peer may stay under its announced address.
    Approve(ConnectionApproval),
    /// The handshake is done: tell the cluster the member is up (if this
    /// interface has been started).
    Connected(Option<NodeEvents<N>>),
    /// Hand a message to a local actor.
    Forward(Route, RemoteWrapper<N>),
    /// The peer refused the connection.
    Stop,
}

/// What a network interface does with the cluster's answer on its peer.
#[derive(Debug)]
pub enum ApprovalStep<N> {
    /// Send the answer of the handshake and report the member up.
    Accept(ClusterMessage<N>, Option<NodeEvents<N>>),
    /// Send the refusal and stop.
    Refuse(ClusterMessage<N>),
}

/// The route of a message by the actor it is meant for.
pub open spec fn route_of(id: AddrRepresentation) -> Route {
    if id is Connector {
        Route::Connector
    } else {
        Route::Resolver
    }
}

/// The connection to one remote node: its address, whether the handshake is
/// done, the handle of the interface itself once started (of type `N`), how
/// often connecting failed, and whether this node is the peer's seed or the
/// peer is ours.
pub struct NetworkInterface<N> {
    pub own_ip: SocketAddr,
    pub addr: SocketAddr,
    pub connected: bool,
    pub own_addr: Option<N>,
    pub counter: i8,
    pub seed: bool,
}

impl<N> NetworkInterface<N> {
    /// An interface to `addr` that is not yet started or connected.
    pub fn new(own_ip: SocketAddr, addr: SocketAddr, seed: bool) -> (r: NetworkInterface<N>)
        ensures
            r.own_ip == own_ip,
            r.addr == addr,
            !r.connected,
            r.own_addr is None,
            r.counter == 0,
            r.seed == seed,
    {
        NetworkInterface { own_ip, addr, connected: false, own_addr: None, counter: 0, seed }
    }

    /// The interface has been started under the handle `own_addr`.
    pub fn started(&mut self, own_addr: N)
        ensures
            final(self).own_addr == Some(own_addr),
            final(self).counter == 0,
            final(self).own_ip == old(self).own_ip,
            final(self).addr == old(self).addr,
            final(self).connected == old(self).connected,
            final(self).seed == old(self).seed,
    {
        self.own_addr = Some(own_addr);
        self.counter = 0;
    }

    /// Connecting failed once more.
    pub fn connection_failed(&mut self)
        requires
            old(self).counter < i8::MAX,
        ensures
            final(self).counter == old(self).counter + 1,
            final(self).own_ip == old(self).own_ip,
            final(self).addr == old(self).addr,
            final(self).connected == old(self).connected,
            final(self).own_addr == old(self).own_addr,
            final(self).seed == old(self).seed,
    {
        self.counter = self.counter + 1;
    }

    /// The interface is stopping: it reconnects while it has failed fewer than
    /// two times, else it stops and reports its member down.
    pub fn stopping(&self) -> (r: StopDecision)
        ensures
            self.counter < MAX_RECONNECTS ==> r is Reconnect,
            self.counter >= MAX_RECONNECTS ==> r == StopDecision::Stop(self.addr),
    {
        if self.counter < MAX_RECONNECTS {
            StopDecision::Reconnect
        } else {
            StopDecision::Stop(self.addr)
        }
    }

    /// The handshake request that opens an outgoing connection: the port this
    /// node listens at and the seed flag.
    pub fn request_message(&self) -> (r: ClusterMessage<N>)
        ensures
            r == ClusterMessage::<N>::Request(self.own_ip.spec_port(), self.seed),
    {
        ClusterMessage::Request(self.own_ip.port(), self.seed)
    }

    /// The peer of an accepted connection announced the port it listens at:
    /// the interface takes that address and asks the cluster to approve it.
    pub fn set_reply_port(&mut self, port: u16, seed: bool) -> (r: ConnectionApproval)
        ensures
            final(self).addr == old(self).addr.with_port(port),
            final(self).seed == seed,
            final(self).own_ip == old(self).own_ip,
            final(self).connected == old(self).connected,
            final(self).own_addr == old(self).own_addr,
            final(self).counter == old(self).counter,
            r == (ConnectionApproval { addr: old(self).addr.with_port(port), send_addr: old(self).addr }),
    {
        let send_addr = self.addr;
        self.addr.set_port(port);
        self.seed = seed;
        ConnectionApproval { addr: self.addr, send_addr }
    }

    /// The message to hand to a local actor, with this interface as its source,
    /// and the actor: the connector or the registry. Messages for the network
    /// interface itself do not come in.
    pub fn received_message(&self, msg: RemoteWrapper<N>) -> (r: (Route, RemoteWrapper<N>))
        where N: Clone
        requires
            !(msg.destination.id is NetworkInterface),
        ensures
            r.0 == route_of(msg.destination.id),
            r.1.destination == msg.destination,
            r.1.message_buffer == msg.message_buffer,
            r.1.identifier == msg.identifier,
            r.1.conversation_id == msg.conversation_id,
            handle_cloned(self.own_addr, r.1.source),
    {
        let mut msg = msg;
        msg.source = clone_handle(&self.own_addr);
        let route = match msg.destination.id {
            AddrRepresentation::Connector => Route::Connector,
            _ => Route::Resolver,
        };
        (route, msg)
    }
}

impl<N: Clone> NetworkInterface<N> {
    /// The handshake is done: the member is up, if the interface has been
    /// started.
    pub fn finish_connecting(&mut self) -> (r: Option<NodeEvents<N>>)
        ensures
            final(self).connected,
            final(self).own_ip == old(self).own_ip,
            final(self).addr == old(self).addr,
            final(self).own_addr == old(self).own_addr,
            final(self).counter == old(self).counter,
            final(self).seed == old(self).seed,
            old(self).own_addr is None ==> r is None,
            old(self).own_addr is Some ==> (r matches Some(NodeEvents::MemberUp(node, seed)) && node.socket_addr
                == old(self).addr && seed == old(self).seed && handle_cloned(
                old(self).own_addr,
                node.network_interface,
            )),
    {
        self.connected = true;
        match &self.own_addr {
            Some(handle) => {
                let node = Node::new(self.addr, Some(handle.clone()));
                Some(NodeEvents::MemberUp(node, self.seed))
            },
            None => None,
        }
    }

    /// The cluster answered on the peer's address: approved, the handshake is
    /// answered and the member reported up; declined, the peer is refused.
    pub fn approval_response(&mut self, response: ConnectionApprovalResponse) -> (r: ApprovalStep<N>)
        ensures
            response == ConnectionApprovalResponse::Approved ==> (r matches ApprovalStep::Accept(m, ev)
                && m is Response && final(self).connected && (old(self).own_addr is None ==> ev is None)
                && (old(self).own_addr is Some ==> (ev matches Some(NodeEvents::MemberUp(node, seed))
                && node.socket_addr == old(self).addr && seed == old(self).seed && handle_cloned(
                old(self).own_addr,
                node.network_interface,
            )))),
            response == ConnectionApprovalResponse::Declined ==> (r matches ApprovalStep::Refuse(m) && m is Decline
                && *final(self) == *old(self)),
            final(self).own_ip == old(self).own_ip,
            final(self).addr == old(self).addr,
            final(self).own_addr == old(self).own_addr,
            final(self).counter == old(self).counter,
            final(self).seed == old(self).seed,
    {
        match response {
            ConnectionApprovalResponse::Approved => {
                let ev = self.finish_connecting();
                ApprovalStep::Accept(ClusterMessage::Response, ev)
            },
            ConnectionApprovalResponse::Declined => ApprovalStep::Refuse(ClusterMessage::Decline),
        }
    }

    /// A message from the peer: a handshake request asks for approval of the
    /// peer's address, an answer completes the handshake, a message is handed
    /// on, a refusal stops the interface. Messages for the network interface
    /// itself do not come in.
    pub fn handle_cluster_message(&mut self, msg: ClusterMessage<N>) -> (r: InterfaceStep<N>)
        requires
            msg matches ClusterMessage::Message(w) ==> !(w.destination.id is NetworkInterface),
        ensures
            final(self).own_ip == old(self).own_ip,
            final(self).own_addr == old(self).own_addr,
            final(self).counter == old(self).counter,
            match msg {
                ClusterMessage::Request(port, seed) => r == InterfaceStep::<N>::Approve(
                    ConnectionApproval { addr: old(self).addr.with_port(port), send_addr: old(self).addr },
                ) && final(self).addr == old(self).addr.with_port(port) && final(self).seed == seed
                    && final(self).connected == old(self).connected,
                ClusterMessage::Response => final(self).connected && final(self).addr == old(self).addr
                    && final(self).seed == old(self).seed && (r matches InterfaceStep::Connected(ev) && (old(
                    self,
                ).own_addr is None ==> ev is None) && (old(self).own_addr is Some ==> (ev matches Some(
                    NodeEvents::MemberUp(node, seed),
                ) && node.socket_addr == old(self).addr && seed == old(self).seed && handle_cloned(
                    old(self).own_addr,
                    node.network_interface,
                )))),
                ClusterMessage::Message(w) => *final(self) == *old(self) && (r matches InterfaceStep::Forward(route, w2)
                    && route == route_of(w.destination.id) && w2.destination == w.destination
                    && w2.message_buffer == w.message_buffer && w2.identifier == w.identifier
                    && w2.conversation_id == w.conversation_id && handle_cloned(old(self).own_addr, w2.source)),
                ClusterMessage::Decline => *final(self) == *old(self) && r is Stop,
            },
    {
        match msg {
            ClusterMessage::Request(port, seed) => InterfaceStep::Approve(self.set_reply_port(port, seed)),
            ClusterMessage::Response => InterfaceStep::Connected(self.finish_connecting()),
            ClusterMessage::Message(w) => {
                let (route, w2) = self.received_message(w);
                InterfaceStep::Forward(route, w2)
            },
            ClusterMessage::Decline => InterfaceStep::Stop,
        }
    }
}

} // verus!
