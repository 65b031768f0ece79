use telepathy::{
    ConnectionProtocol, Connector, ConnectorAction, GossipJoining, GossipMessage, GossipEvent, Node, NodeEvents,
    NodeResolving, SingleSeed, SingleSeedMembers, SocketAddr,
};

fn addr(port: u16) -> SocketAddr {
    SocketAddr::new_v4(10, 0, 0, 2, port)
}

fn up(port: u16, handle: u32, seed: bool) -> NodeEvents<u32> {
    NodeEvents::MemberUp(Node::new(addr(port), Some(handle)), seed)
}

#[test]
fn single_seed_starts_without_members() {
    let s: SingleSeed<u32> = SingleSeed::new(addr(1));
    assert_eq!(s.get_own_addr(), addr(1));
    assert_eq!(s.get_member_map().len(), 0);
    let d: SingleSeed<u32> = SingleSeed::default();
    assert_eq!(d.get_own_addr(), SocketAddr::new_v4(127, 0, 0, 1, 8000));
}

#[test]
fn single_seed_tells_new_node_about_other_members() {
    let mut s: SingleSeed<u32> = SingleSeed::new(addr(1));
    let first = s.handle_node_event(up(2, 20, true));
    assert!(first.is_empty(), "no other member to tell about");
    let second = s.handle_node_event(up(3, 30, true));
    assert_eq!(second.len(), 1);
    match &second[0] {
        ConnectorAction::Members { to, members } => {
            assert_eq!(to.node.socket_addr, addr(3));
            assert_eq!(to.node.network_interface, Some(30));
            assert_eq!(members.0, vec![addr(2)]);
        },
        other => panic!("unexpected {:?}", other),
    }
    assert_eq!(s.get_member_map().len(), 2);
}

#[test]
fn single_seed_non_seed_connection_tells_nothing() {
    let mut s: SingleSeed<u32> = SingleSeed::new(addr(1));
    let _ = s.handle_node_event(up(2, 20, true));
    let acts = s.handle_node_event(up(3, 30, false));
    assert!(acts.is_empty());
    assert!(s.get_member_map().contains_key(&addr(3)));
}

#[test]
fn single_seed_member_down_forgets_member() {
    let mut s: SingleSeed<u32> = SingleSeed::new(addr(1));
    let _ = s.handle_node_event(up(2, 20, false));
    let acts = s.handle_node_event(NodeEvents::MemberDown(addr(2)));
    assert!(acts.is_empty());
    assert_eq!(s.get_member_map().len(), 0);
}

#[test]
fn single_seed_members_become_connections() {
    let mut s: SingleSeed<u32> = SingleSeed::new(addr(1));
    let acts = s.handle_single_seed_members(SingleSeedMembers(vec![addr(5), addr(6)]));
    assert_eq!(acts.len(), 2);
    assert!(matches!(acts[0], ConnectorAction::ConnectToNode(a) if a == addr(5)));
    assert!(matches!(acts[1], ConnectorAction::ConnectToNode(a) if a == addr(6)));
}

#[test]
fn connector_follows_chosen_protocol() {
    assert_eq!(ConnectionProtocol::default(), ConnectionProtocol::Gossip);
    let g: Connector<u32> = Connector::from_connection_protocol(ConnectionProtocol::Gossip, addr(1), vec![addr(9)]);
    assert!(matches!(g, Connector::Gossip(_)));
    let s: Connector<u32> = Connector::from_connection_protocol(ConnectionProtocol::SingleSeed, addr(1), vec![]);
    assert!(matches!(s, Connector::SingleSeed(_)));
    assert_eq!(s.get_own_addr(), addr(1));
    let d: Connector<u32> = Connector::default();
    assert_eq!(d.get_own_addr(), SocketAddr::new_v4(127, 0, 0, 1, 8000));
}

#[test]
fn connector_resolves_handles_in_order_without_own_address() {
    let mut c: Connector<u32> = Connector::from_connection_protocol(ConnectionProtocol::SingleSeed, addr(1), vec![]);
    let _ = c.handle_node_event(up(2, 20, false));
    let _ = c.handle_node_event(up(3, 30, false));
    let asked = vec![addr(3), addr(1), addr(2)];
    assert!(c.knows_all(&asked));
    let handles = c.handle_node_resolving(NodeResolving { addrs: asked }).unwrap();
    assert_eq!(handles, vec![30, 20]);
    assert!(!c.knows_all(&vec![addr(4)]));
}

#[test]
fn connector_ignores_messages_of_other_protocol() {
    let mut s: Connector<u32> = Connector::from_connection_protocol(ConnectionProtocol::SingleSeed, addr(1), vec![]);
    let msg = GossipMessage { event: GossipEvent::Join, addr: addr(7), seen: vec![addr(2)] };
    assert!(s.handle_gossip_message(msg).is_empty());
    assert!(s.handle_gossip_joining(GossipJoining { about_to_join: 3 }).is_empty());
    assert_eq!(s.get_member_map().len(), 0);

    let mut g: Connector<u32> = Connector::from_connection_protocol(ConnectionProtocol::Gossip, addr(1), vec![]);
    assert!(g.handle_single_seed_members(SingleSeedMembers(vec![addr(4)])).is_empty());
    let acts = s.handle_single_seed_members(SingleSeedMembers(vec![addr(4)]));
    assert_eq!(acts.len(), 1);
}

#[test]
fn connector_refuses_to_resolve_member_that_left() {
    let mut c: Connector<u32> = Connector::from_connection_protocol(ConnectionProtocol::SingleSeed, addr(1), vec![]);
    let _ = c.handle_node_event(up(2, 20, false));
    assert_eq!(c.handle_node_resolving(NodeResolving { addrs: vec![addr(2)] }), Ok(vec![20]));
    let _ = c.handle_node_event(NodeEvents::MemberDown(addr(2)));
    assert_eq!(c.handle_node_resolving(NodeResolving { addrs: vec![addr(2)] }), Err(()));
    assert_eq!(c.handle_node_resolving(NodeResolving { addrs: vec![addr(1)] }), Ok(vec![]));
}
