use telepathy::{
    AddrRepresentation, ApprovalStep, Cluster, ClusterMessage, ConnectionApproval, ConnectionApprovalResponse,
    InterfaceStep, NetworkInterface, NodeEvents, RemoteAddr, RemoteWrapper, Route, SocketAddr, StopDecision,
};

fn addr(port: u16) -> SocketAddr {
    SocketAddr::new_v4(192, 168, 0, 1, port)
}

#[test]
fn cluster_keeps_its_address_and_seeds() {
    let c: Cluster<u32> = Cluster::new(addr(1), vec![addr(2), addr(3)]);
    assert_eq!(c.ip_address(), addr(1));
    assert_eq!(c.seed_nodes(), &vec![addr(2), addr(3)]);
    assert!(c.needs_node(&addr(2)));
    let d: Cluster<u32> = Cluster::default();
    assert_eq!(d.ip_address(), SocketAddr::new_v4(127, 0, 0, 1, 8000));
    assert!(d.seed_nodes().is_empty());
}

#[test]
fn cluster_adds_and_drops_nodes() {
    let mut c: Cluster<u32> = Cluster::new(addr(1), vec![]);
    assert_eq!(c.add_node(addr(2), 20), None);
    assert!(!c.needs_node(&addr(2)));
    assert_eq!(c.add_node(addr(2), 22), Some(22), "a known node keeps its connection");
    c.add_node_from_stream(addr(2), 21);
    assert_eq!(c.member_down(&addr(2)), Some(21));
    assert_eq!(c.member_down(&addr(2)), None);
    assert!(c.needs_node(&addr(2)));
}

#[test]
fn approval_declines_known_address() {
    let mut c: Cluster<u32> = Cluster::new(addr(1), vec![]);
    let _ = c.add_node(addr(2), 20);
    c.add_node_from_stream(addr(50000), 21);
    let r = c.handle_connection_approval(ConnectionApproval { addr: addr(2), send_addr: addr(50000) });
    assert_eq!(r, ConnectionApprovalResponse::Declined);
    assert_eq!(c.member_down(&addr(50000)), Some(21));
}

#[test]
fn approval_files_connection_under_announced_address() {
    let mut c: Cluster<u32> = Cluster::new(addr(1), vec![]);
    c.add_node_from_stream(addr(50000), 21);
    let r = c.handle_connection_approval(ConnectionApproval { addr: addr(3), send_addr: addr(50000) });
    assert_eq!(r, ConnectionApprovalResponse::Approved);
    assert!(c.needs_node(&addr(50000)));
    assert_eq!(c.member_down(&addr(3)), Some(21));
}

#[test]
fn interface_reconnects_twice_then_stops() {
    let mut ni: NetworkInterface<u32> = NetworkInterface::new(addr(1), addr(2), false);
    assert!(matches!(ni.stopping(), StopDecision::Reconnect));
    ni.connection_failed();
    assert!(matches!(ni.stopping(), StopDecision::Reconnect));
    ni.connection_failed();
    assert!(matches!(ni.stopping(), StopDecision::Stop(a) if a == addr(2)));
    ni.started(7);
    assert_eq!(ni.counter, 0);
}

#[test]
fn interface_request_carries_listening_port_and_seed_flag() {
    let ni: NetworkInterface<u32> = NetworkInterface::new(addr(1234), addr(2), true);
    assert!(matches!(ni.request_message(), ClusterMessage::Request(1234, true)));
}

#[test]
fn interface_request_asks_for_approval_of_reply_port() {
    let mut ni: NetworkInterface<u32> = NetworkInterface::new(addr(1), addr(50000), false);
    match ni.handle_cluster_message(ClusterMessage::Request(9000, true)) {
        InterfaceStep::Approve(a) => {
            assert_eq!(a.addr, addr(9000));
            assert_eq!(a.send_addr, addr(50000));
        },
        other => panic!("unexpected {:?}", other),
    }
    assert_eq!(ni.addr, addr(9000));
    assert!(ni.seed);
}

#[test]
fn interface_response_reports_member_up_once_started() {
    let mut ni: NetworkInterface<u32> = NetworkInterface::new(addr(1), addr(2), true);
    match ni.handle_cluster_message(ClusterMessage::Response) {
        InterfaceStep::Connected(ev) => assert!(ev.is_none()),
        other => panic!("unexpected {:?}", other),
    }
    ni.started(5);
    match ni.handle_cluster_message(ClusterMessage::Response) {
        InterfaceStep::Connected(Some(NodeEvents::MemberUp(node, seed))) => {
            assert_eq!(node.socket_addr, addr(2));
            assert_eq!(node.network_interface, Some(5));
            assert!(seed);
        },
        other => panic!("unexpected {:?}", other),
    }
    assert!(ni.connected);
}

#[test]
fn interface_routes_messages_by_destination() {
    let mut ni: NetworkInterface<u32> = NetworkInterface::new(addr(1), addr(2), false);
    ni.started(5);
    let to_connector: RemoteAddr<u32> = RemoteAddr::new_gossip(addr(1), None);
    let w = RemoteWrapper::new(to_connector, vec![1, 2, 3], "Msg".to_string(), Some(77));
    match ni.handle_cluster_message(ClusterMessage::Message(w)) {
        InterfaceStep::Forward(route, w2) => {
            assert_eq!(route, Route::Connector);
            assert_eq!(w2.message_buffer, vec![1, 2, 3]);
            assert_eq!(w2.source, Some(5));
            assert_eq!(w2.conversation_id, Some(77));
        },
        other => panic!("unexpected {:?}", other),
    }
    let to_key: RemoteAddr<u32> = RemoteAddr::new_from_id(addr(1), "Worker");
    let w = RemoteWrapper::new(to_key, vec![], "Msg".to_string(), None);
    match ni.handle_cluster_message(ClusterMessage::Message(w)) {
        InterfaceStep::Forward(route, w2) => {
            assert_eq!(route, Route::Resolver);
            assert!(matches!(w2.destination.id, AddrRepresentation::Key(ref k) if k == "Worker"));
        },
        other => panic!("unexpected {:?}", other),
    }
    assert!(matches!(ni.handle_cluster_message(ClusterMessage::Decline), InterfaceStep::Stop));
}

#[test]
fn interface_approval_answers_or_refuses() {
    let mut ni: NetworkInterface<u32> = NetworkInterface::new(addr(1), addr(2), false);
    ni.started(3);
    match ni.approval_response(ConnectionApprovalResponse::Approved) {
        ApprovalStep::Accept(m, Some(NodeEvents::MemberUp(node, _))) => {
            assert!(matches!(m, ClusterMessage::Response));
            assert_eq!(node.socket_addr, addr(2));
        },
        other => panic!("unexpected {:?}", other),
    }
    let mut fresh: NetworkInterface<u32> = NetworkInterface::new(addr(1), addr(2), false);
    match fresh.approval_response(ConnectionApprovalResponse::Declined) {
        ApprovalStep::Refuse(m) => assert!(matches!(m, ClusterMessage::Decline)),
        other => panic!("unexpected {:?}", other),
    }
    assert!(!fresh.connected);
}

#[test]
fn cluster_message_prefix_and_buffer() {
    assert!(ClusterMessage::<u32>::Request(1, false).needs_prefix());
    assert!(ClusterMessage::<u32>::Response.needs_prefix());
    assert!(!ClusterMessage::<u32>::Decline.needs_prefix());
    let dest: RemoteAddr<u32> = RemoteAddr::new_from_id(addr(1), "A");
    let mut m = ClusterMessage::Message(RemoteWrapper::new(dest, vec![], "T".to_string(), None));
    assert!(!m.needs_prefix());
    m.set_buffer(vec![9, 8]);
    assert_eq!(m.message_buffer(), &[9, 8]);
}

#[test]
fn cluster_node_events_tell_listeners_and_drop_left_member() {
    let mut c: Cluster<u32> = Cluster::new(addr(1), vec![]);
    let _ = c.add_node(addr(2), 20);
    let (log, ev) = c.handle_node_event(NodeEvents::MemberUp(telepathy::Node::new(addr(2), Some(20)), true));
    assert!(matches!(log, telepathy::ClusterLog::NewMember(ref n) if n.socket_addr == addr(2) && n.network_interface == Some(20)));
    assert!(matches!(ev, NodeEvents::MemberUp(_, true)));
    assert!(!c.needs_node(&addr(2)));
    let (log, ev) = c.handle_node_event(NodeEvents::MemberDown(addr(2)));
    assert!(matches!(log, telepathy::ClusterLog::MemberLeft(a) if a == addr(2)));
    assert!(matches!(ev, NodeEvents::MemberDown(a) if a == addr(2)));
    assert!(c.needs_node(&addr(2)));
}
