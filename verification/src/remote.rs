use vstd::prelude::*;
use vstd::std_specs::cmp::PartialEqSpec;
use crate::socket_addr::SocketAddr;
use crate::addr_repr::AddrRepresentation;

verus! {

/// A member of the cluster: its address and, once connected, the handle of the
/// network interface that talks to it (of type `N`).
#[derive(Debug)]
pub struct Node<N> {
    pub socket_addr: SocketAddr,
    pub network_interface: Option<N>,
}

/// Two handles are the same or one is a clone of the other.
pub open spec fn handle_cloned<N: Clone>(a: Option<N>, b: Option<N>) -> bool {
    match (a, b) {
        (None, None) => true,
        (Some(x), Some(y)) => cloned(x, y),
        _ => false,
    }
}

/// A copy of an optional handle.
pub fn clone_handle<N: Clone>(h: &Option<N>) -> (r: Option<N>)
    ensures
        handle_cloned(*h, r),
{
    match h {
        Some(x) => Some(x.clone()),
        None => None,
    }
}

impl<N> Node<N> {
    /// A node from its address and handle.
    pub fn new(socket_addr: SocketAddr, network_interface: Option<N>) -> (r: Node<N>)
        ensures
            r.socket_addr == socket_addr,
            r.network_interface == network_interface,
    {
        Node { socket_addr, network_interface }
    }

    /// The address of the node's network interface.
    pub fn into_remote_addr(self) -> (r: RemoteAddr<N>)
        ensures
            r.node == self,
            r.id is NetworkInterface,
    {
        RemoteAddr { node: self, id: AddrRepresentation::NetworkInterface }
    }
}

impl<N: Clone> Node<N> {
    /// The address of the actor registered under `id` on this node.
    pub fn get_remote_addr(&self, id: String) -> (r: RemoteAddr<N>)
        ensures
            r.node.socket_addr == self.socket_addr,
            handle_cloned(self.network_interface, r.node.network_interface),
            r.id is Key,
            r.id->Key_0 == id,
    {
        RemoteAddr { node: self.clone(), id: AddrRepresentation::Key(id) }
    }
}

impl<N: Clone> Clone for Node<N> {
    fn clone(&self) -> (r: Self)
        ensures
            r.socket_addr == self.socket_addr,
            handle_cloned(self.network_interface, r.network_interface),
    {
        Node { socket_addr: self.socket_addr, network_interface: clone_handle(&self.network_interface) }
    }
}

impl<N> PartialEq for Node<N> {
    /// Nodes are told apart by their address alone.
    fn eq(&self, other: &Self) -> (r: bool) {
        self.socket_addr == other.socket_addr
    }
}

impl<N> vstd::std_specs::cmp::PartialEqSpecImpl for Node<N> {
    open spec fn obeys_eq_spec() -> bool {
        true
    }

    open spec fn eq_spec(&self, other: &Self) -> bool {
        self.socket_addr == other.socket_addr
    }
}

impl<N> Eq for Node<N> {}

/// The address of an actor on a remote node: the node and the actor's name there.
#[derive(Debug)]
pub struct RemoteAddr<N> {
    pub node: Node<N>,
    pub id: AddrRepresentation,
}

impl<N> RemoteAddr<N> {
    /// An address from a node and an actor name.
    pub fn new(node: Node<N>, id: AddrRepresentation) -> (r: RemoteAddr<N>)
        ensures
            r.node == node,
            r.id == id,
    {
        RemoteAddr { node, id }
    }

    /// The address of the actor named `id` on the node at `socket_addr`,
    /// without a handle yet.
    pub fn new_from_id(socket_addr: SocketAddr, id: &str) -> (r: RemoteAddr<N>)
        ensures
            r.node.socket_addr == socket_addr,
            r.node.network_interface is None,
            AddrRepresentation::parsed_from(id@, r.id),
    {
        let id = match AddrRepresentation::from_str(id) {
            Ok(id) => id,
            Err(_) => AddrRepresentation::NetworkInterface,
        };
        RemoteAddr { node: Node::new(socket_addr, None), id }
    }

    /// The address of the actor named `id` on the node at `socket_addr`, reached
    /// through `network_interface`.
    pub fn new_from_key(socket_addr: SocketAddr, network_interface: N, id: &str) -> (r: RemoteAddr<N>)
        ensures
            r.node.socket_addr == socket_addr,
            r.node.network_interface == Some(network_interface),
            AddrRepresentation::parsed_from(id@, r.id),
    {
        let id = match AddrRepresentation::from_str(id) {
            Ok(id) => id,
            Err(_) => AddrRepresentation::NetworkInterface,
        };
        RemoteAddr { node: Node::new(socket_addr, Some(network_interface)), id }
    }

    /// The address of the connector actor, which runs the membership protocol,
    /// on the node at `socket_addr`.
    pub fn new_gossip(socket_addr: SocketAddr, network_interface: Option<N>) -> (r: RemoteAddr<N>)
        ensures
            r.node.socket_addr == socket_addr,
            r.node.network_interface == network_interface,
            r.id is Connector,
    {
        RemoteAddr::new(Node::new(socket_addr, network_interface), AddrRepresentation::Connector)
    }

    /// Sets the handle through which the node is reached.
    pub fn set_network_interface(&mut self, network_interface: N)
        ensures
            final(self).node.socket_addr == old(self).node.socket_addr,
            final(self).node.network_interface == Some(network_interface),
            final(self).id == old(self).id,
    {
        self.node.network_interface = Some(network_interface);
    }

    /// Points the address at the actor registered under `id`.
    pub fn change_id(&mut self, id: String)
        ensures
            final(self).node == old(self).node,
            final(self).id == AddrRepresentation::Key(id),
    {
        self.id = AddrRepresentation::Key(id);
    }
}

impl<N: Clone> Clone for RemoteAddr<N> {
    fn clone(&self) -> (r: Self)
        ensures
            r.node.socket_addr == self.node.socket_addr,
            handle_cloned(self.node.network_interface, r.node.network_interface),
            AddrRepresentation::parsed_from(self.id.text(), r.id),
    {
        RemoteAddr { node: self.node.clone(), id: self.id.clone() }
    }
}

impl<N> PartialEq for RemoteAddr<N> {
    /// Same node address and `==` actor names; the handle plays no part.
    fn eq(&self, other: &Self) -> (r: bool) {
        self.node == other.node && self.id == other.id
    }
}

impl<N> vstd::std_specs::cmp::PartialEqSpecImpl for RemoteAddr<N> {
    open spec fn obeys_eq_spec() -> bool {
        true
    }

    open spec fn eq_spec(&self, other: &Self) -> bool {
        self.node.socket_addr == other.node.socket_addr && PartialEqSpec::eq_spec(&self.id, &other.id)
    }
}

impl<N> Eq for RemoteAddr<N> {}

/// Nodes are `==` when their addresses are, whatever handles they carry; so
/// are remote addresses with `==` actor names.
pub proof fn lemma_eq_ignores_handle<N>(a: RemoteAddr<N>, b: RemoteAddr<N>, h: Option<N>)
    ensures
        a.node.eq_spec(&b.node) <==> a.node.socket_addr == b.node.socket_addr,
        a.node.eq_spec(&Node { socket_addr: a.node.socket_addr, network_interface: h }),
        a.eq_spec(&b) <==> (a.node.socket_addr == b.node.socket_addr && a.id.text() == b.id.text()),
{
    crate::addr_repr::lemma_eq_iff_same_text(a.id, b.id);
}

/// The address of an actor that is either on this node (reached by a local
/// handle of type `L`) or on a remote one.
pub enum AnyAddr<L, N> {
    Local(L),
    Remote(RemoteAddr<N>),
}

impl<L, N> AnyAddr<L, N> {
    /// Points a remote address at the actor registered under `id`; a local
    /// address stays as it is.
    pub fn change_id(&mut self, id: &str)
        ensures
            match *old(self) {
                AnyAddr::Local(l) => *final(self) == AnyAddr::<L, N>::Local(l),
                AnyAddr::Remote(a) => *final(self) matches AnyAddr::Remote(b) && b.node == a.node
                    && b.id is Key && b.id->Key_0@ == id@,
            },
    {
        if let AnyAddr::Remote(addr) = self {
            addr.change_id(id.to_owned());
        }
    }
}

impl<L: Clone, N: Clone> Clone for AnyAddr<L, N> {
    /// A copy of the local handle, or of the remote address.
    fn clone(&self) -> (r: Self)
        ensures
            match *self {
                AnyAddr::Local(l) => r matches AnyAddr::Local(l2) && cloned(l, l2),
                AnyAddr::Remote(a) => r matches AnyAddr::Remote(b) && b.node.socket_addr == a.node.socket_addr
                    && handle_cloned(a.node.network_interface, b.node.network_interface)
                    && AddrRepresentation::parsed_from(a.id.text(), b.id),
            },
    {
        match self {
            AnyAddr::Local(l) => AnyAddr::Local(l.clone()),
            AnyAddr::Remote(a) => AnyAddr::Remote(a.clone()),
        }
    }
}

impl<L: PartialEq, N> PartialEq for AnyAddr<L, N> {
    /// Two local handles compare with their own `==`, two remote addresses as
    /// remote addresses; a local and a remote address differ.
    fn eq(&self, other: &Self) -> (r: bool) {
        match (self, other) {
            (AnyAddr::Local(a), AnyAddr::Local(b)) => a == b,
            (AnyAddr::Remote(a), AnyAddr::Remote(b)) => a == b,
            _ => false,
        }
    }
}

impl<L: PartialEq, N> vstd::std_specs::cmp::PartialEqSpecImpl for AnyAddr<L, N> {
    open spec fn obeys_eq_spec() -> bool {
        L::obeys_eq_spec()
    }

    open spec fn eq_spec(&self, other: &Self) -> bool {
        match (self, other) {
            (AnyAddr::Local(a), AnyAddr::Local(b)) => PartialEqSpec::eq_spec(a, b),
            (AnyAddr::Remote(a), AnyAddr::Remote(b)) => PartialEqSpec::eq_spec(a, b),
            _ => false,
        }
    }
}

impl<L: Eq, N> Eq for AnyAddr<L, N> {}

} // verus!
