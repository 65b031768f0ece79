use telepathy::{
    AddrRepresentation, ConnectorAction, Gossip, GossipEvent, GossipJoining, GossipMessage, GossipState, Node,
    NodeEvents, SocketAddr,
};

fn addr(port: u16) -> SocketAddr {
    SocketAddr::new_v4(10, 0, 0, 1, port)
}

fn up(port: u16, handle: u32, seed: bool) -> NodeEvents<u32> {
    NodeEvents::MemberUp(Node::new(addr(port), Some(handle)), seed)
}

/// A full member at port 1 whose members are at the given ports.
fn joined_with(ports: &[u16]) -> Gossip<u32> {
    let mut g: Gossip<u32> = Gossip::new(addr(1), vec![]);
    let mut first = true;
    for p in ports {
        let _ = g.handle_node_event(up(*p, *p as u32, first));
        first = false;
    }
    assert_eq!(g.state(), GossipState::Joined);
    g
}

#[test]
fn new_gossip_is_lonely_without_members() {
    let g: Gossip<u32> = Gossip::new(addr(1), vec![addr(2)]);
    assert_eq!(g.state(), GossipState::Lonely);
    assert_eq!(g.get_member_map().len(), 0);
    assert_eq!(g.get_own_addr(), addr(1));
    let d: Gossip<u32> = Gossip::default();
    assert_eq!(d.get_own_addr(), SocketAddr::new_v4(127, 0, 0, 1, 8000));
}

#[test]
fn lonely_node_connecting_to_non_seed_starts_joining() {
    let mut g: Gossip<u32> = Gossip::new(addr(1), vec![addr(2)]);
    let acts = g.handle_node_event(up(3, 3, false));
    assert!(acts.is_empty());
    assert_eq!(g.state(), GossipState::Joining);
    assert!(g.get_member_map().contains_key(&addr(3)));
}

#[test]
fn seed_welcomes_first_joiner() {
    let mut g: Gossip<u32> = Gossip::new(addr(1), vec![]);
    let acts = g.handle_node_event(up(2, 20, true));
    assert_eq!(g.state(), GossipState::Joined);
    assert_eq!(acts.len(), 2);
    match &acts[0] {
        ConnectorAction::Joining { to, joining } => {
            assert_eq!(to.node.socket_addr, addr(2));
            assert_eq!(to.node.network_interface, Some(20));
            assert!(matches!(to.id, AddrRepresentation::Key(ref k) if k == "Connector"));
            assert_eq!(joining.about_to_join, 1);
        },
        other => panic!("unexpected {:?}", other),
    }
    match &acts[1] {
        ConnectorAction::Gossip { message, recipients } => {
            assert_eq!(message.event, GossipEvent::Join);
            assert_eq!(message.addr, addr(2));
            assert!(message.seen.contains(&addr(1)) && message.seen.contains(&addr(2)));
            assert!(recipients.is_empty());
        },
        other => panic!("unexpected {:?}", other),
    }
}

#[test]
fn joined_member_welcomes_seed_joiner_and_gossips_to_others() {
    let mut g = joined_with(&[2, 3]);
    let acts = g.handle_node_event(up(4, 40, true));
    assert_eq!(acts.len(), 2);
    match &acts[0] {
        ConnectorAction::Joining { joining, .. } => assert_eq!(joining.about_to_join, 3),
        other => panic!("unexpected {:?}", other),
    }
    match &acts[1] {
        ConnectorAction::Gossip { recipients, .. } => {
            assert_eq!(recipients.len(), 2);
            for r in recipients {
                assert!(r.node.socket_addr == addr(2) || r.node.socket_addr == addr(3));
                assert!(matches!(r.id, AddrRepresentation::Connector));
                assert_eq!(r.node.network_interface, Some(r.node.socket_addr.port() as u32));
            }
            assert!(recipients[0].node.socket_addr != recipients[1].node.socket_addr);
        },
        other => panic!("unexpected {:?}", other),
    }
}

#[test]
fn member_down_spreads_leave_to_three_members() {
    let mut g = joined_with(&[2, 3, 4, 5, 6]);
    let acts = g.handle_node_event(NodeEvents::MemberDown(addr(6)));
    assert!(!g.get_member_map().contains_key(&addr(6)));
    assert_eq!(acts.len(), 1);
    match &acts[0] {
        ConnectorAction::Gossip { message, recipients } => {
            assert_eq!(message.event, GossipEvent::Leave);
            assert_eq!(message.addr, addr(6));
            assert_eq!(message.seen, vec![addr(1)]);
            assert_eq!(recipients.len(), 3);
            for (i, r) in recipients.iter().enumerate() {
                assert!(r.node.socket_addr != addr(1) && r.node.socket_addr != addr(6));
                for other in &recipients[i + 1..] {
                    assert!(other.node.socket_addr != r.node.socket_addr);
                }
            }
        },
        other => panic!("unexpected {:?}", other),
    }
}

#[test]
fn join_of_unknown_node_connects_and_passes_on() {
    let mut g = joined_with(&[2]);
    let msg = GossipMessage { event: GossipEvent::Join, addr: addr(9), seen: vec![addr(2)] };
    let acts = g.handle_gossip_message(msg);
    assert_eq!(acts.len(), 2);
    assert!(matches!(acts[0], ConnectorAction::ConnectToNode(a) if a == addr(9)));
    match &acts[1] {
        ConnectorAction::Gossip { message, recipients } => {
            assert!(message.seen.contains(&addr(1)));
            assert!(message.seen.contains(&addr(2)));
            assert!(recipients.is_empty());
        },
        other => panic!("unexpected {:?}", other),
    }
    // The connection it asked for does not change the state when it comes up.
    let after = g.handle_node_event(up(9, 9, true));
    assert!(after.is_empty());
    assert_eq!(g.get_member_map().len(), 2);
}

#[test]
fn gossip_stops_when_everyone_has_seen_it() {
    let mut g = joined_with(&[2, 3]);
    let msg = GossipMessage { event: GossipEvent::Join, addr: addr(2), seen: vec![addr(2), addr(3)] };
    assert!(g.handle_gossip_message(msg).is_empty());
    let leave = GossipMessage { event: GossipEvent::Leave, addr: addr(7), seen: vec![addr(2), addr(3)] };
    assert!(g.handle_gossip_message(leave).is_empty());
    assert_eq!(g.get_member_map().len(), 2);
}

#[test]
fn leave_of_member_removes_it() {
    let mut g = joined_with(&[2, 3]);
    let leave = GossipMessage { event: GossipEvent::Leave, addr: addr(3), seen: vec![addr(3)] };
    let acts = g.handle_gossip_message(leave);
    assert!(!g.get_member_map().contains_key(&addr(3)));
    assert_eq!(acts.len(), 1);
}

#[test]
fn joining_node_holds_back_gossip_until_it_knows_everyone() {
    let mut g: Gossip<u32> = Gossip::new(addr(1), vec![addr(2), addr(3)]);
    let acts = g.handle_node_event(up(2, 2, true));
    assert!(acts.is_empty());
    assert_eq!(g.state(), GossipState::Joining);
    let held = g.handle_gossip_message(GossipMessage { event: GossipEvent::Join, addr: addr(5), seen: vec![addr(2)] });
    assert!(held.is_empty());
    assert_eq!(g.state(), GossipState::Joining);
    // Announced three members while one is known: still joining.
    assert!(g.handle_gossip_joining(GossipJoining { about_to_join: 3 }).is_empty());
    assert_eq!(g.state(), GossipState::Joining);
    let _ = g.handle_node_event(up(3, 3, false));
    let released = g.handle_node_event(up(4, 4, false));
    assert_eq!(g.state(), GossipState::Joined);
    // The held-back join is handled, then the seed that joined through us is welcomed.
    assert!(matches!(released[0], ConnectorAction::ConnectToNode(a) if a == addr(5)));
    assert!(released.iter().any(|a| matches!(a, ConnectorAction::Joining { to, .. } if to.node.socket_addr == addr(2))));
}

#[test]
fn gossip_joining_ignored_unless_joining() {
    let mut g = joined_with(&[2]);
    assert!(g.handle_gossip_joining(GossipJoining { about_to_join: 0 }).is_empty());
    assert_eq!(g.state(), GossipState::Joined);
}
