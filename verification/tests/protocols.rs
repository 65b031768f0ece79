use telepathy::{ProtocolBuffer, ProtocolOperation, ProtocolsReceiver};

#[test]
fn buffer_counts_values() {
    let mut b: ProtocolBuffer<u8> = ProtocolBuffer::new(ProtocolOperation::Collect);
    assert!(b.all_received(0));
    b.push(4);
    b.push(5);
    assert!(b.all_received(2));
    assert!(!b.all_received(3));
    assert_eq!(b.value_buffer, vec![4, 5]);
}

#[test]
fn receiver_finishes_run_when_all_nodes_sent() {
    let mut r: ProtocolsReceiver<u32, &str> = ProtocolsReceiver::new("recipient", 3);
    assert_eq!(r.recipient(), &Some("recipient"));
    assert_eq!(r.receive("a".to_string(), 1, ProtocolOperation::Reduce), None);
    assert_eq!(r.receive("b".to_string(), 10, ProtocolOperation::Collect), None);
    assert_eq!(r.receive("a".to_string(), 2, ProtocolOperation::Reduce), None);
    assert_eq!(r.receive("a".to_string(), 3, ProtocolOperation::Reduce), Some(vec![1, 2, 3]));
    // the finished run starts afresh
    assert_eq!(r.receive("a".to_string(), 4, ProtocolOperation::Reduce), None);
    assert_eq!(r.receive("b".to_string(), 11, ProtocolOperation::Collect), None);
    assert_eq!(r.receive("b".to_string(), 12, ProtocolOperation::Collect), Some(vec![10, 11, 12]));
}

#[test]
fn receiver_of_single_node_finishes_at_once() {
    let mut r: ProtocolsReceiver<u32, ()> = ProtocolsReceiver::default();
    assert_eq!(r.recipient(), &None);
    assert_eq!(r.receive("x".to_string(), 7, ProtocolOperation::AllReduce), Some(vec![7]));
}

#[test]
fn try_finish_leaves_incomplete_run() {
    let mut r: ProtocolsReceiver<u32, ()> = ProtocolsReceiver::new((), 2);
    r.add_to_buffer("p".to_string(), 1, ProtocolOperation::AllCollect);
    assert_eq!(r.try_finish_protocol("p".to_string()), None);
    r.add_to_buffer("p".to_string(), 2, ProtocolOperation::AllCollect);
    assert_eq!(r.try_finish_protocol("p".to_string()), Some(vec![1, 2]));
}

#[test]
fn receiver_addr_is_local_without_remote_member() {
    let r: telepathy::AnyAddr<u8, u32> = telepathy::protocols::get_protocols_receiver_addr(None, 4u8, "ProtocolsReceiver");
    assert!(matches!(r, telepathy::AnyAddr::Local(4)));
}

#[test]
fn receiver_addr_points_remote_member_at_receiver() {
    let member: telepathy::RemoteAddr<u32> =
        telepathy::RemoteAddr::new_gossip(telepathy::SocketAddr::new_v4(10, 1, 1, 1, 7000), Some(12));
    let r: telepathy::AnyAddr<u8, u32> =
        telepathy::protocols::get_protocols_receiver_addr(Some(&member), 4u8, "ProtocolsReceiver");
    match r {
        telepathy::AnyAddr::Remote(a) => {
            assert_eq!(a.node.socket_addr, telepathy::SocketAddr::new_v4(10, 1, 1, 1, 7000));
            assert_eq!(a.node.network_interface, Some(12));
            assert!(matches!(a.id, telepathy::AddrRepresentation::Key(ref k) if k == "ProtocolsReceiver"));
        },
        telepathy::AnyAddr::Local(_) => panic!("expected a remote address"),
    }
}
