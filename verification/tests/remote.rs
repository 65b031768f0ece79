use telepathy::{AddrRepresentation, AnyAddr, Node, RemoteAddr, SocketAddr};

fn addr(port: u16) -> SocketAddr {
    SocketAddr::new_v4(127, 0, 0, 1, port)
}

#[test]
fn socket_addr_new_v4_packs_octets() {
    assert_eq!(addr(8000), SocketAddr::V4 { ip: 0x7f00_0001, port: 8000 });
    assert_eq!(telepathy::socket_addr::default_local_addr(), addr(8000));
}

#[test]
fn socket_addr_set_port_keeps_ip() {
    let mut a = SocketAddr::V6 { ip6: 1, port: 1, flowinfo: 2, scope_id: 3 };
    a.set_port(99);
    assert_eq!(a, SocketAddr::V6 { ip6: 1, port: 99, flowinfo: 2, scope_id: 3 });
    assert_eq!(a.port(), 99);
}

#[test]
fn node_equality_ignores_handle() {
    let a: Node<u32> = Node::new(addr(1), Some(5));
    let b: Node<u32> = Node::new(addr(1), None);
    let c: Node<u32> = Node::new(addr(2), Some(5));
    assert!(a == b);
    assert!(a != c);
}

#[test]
fn node_remote_addrs() {
    let n: Node<u32> = Node::new(addr(3), Some(8));
    let r = n.get_remote_addr("worker".to_string());
    assert_eq!(r.node.socket_addr, addr(3));
    assert_eq!(r.node.network_interface, Some(8));
    assert!(matches!(r.id, AddrRepresentation::Key(ref k) if k == "worker"));
    let r2 = n.into_remote_addr();
    assert!(matches!(r2.id, AddrRepresentation::NetworkInterface));
}

#[test]
fn remote_addr_constructors() {
    let a: RemoteAddr<u32> = RemoteAddr::new_from_id(addr(4), "gossip");
    assert!(matches!(a.id, AddrRepresentation::Connector));
    assert_eq!(a.node.network_interface, None);
    let b: RemoteAddr<u32> = RemoteAddr::new_from_key(addr(4), 6, "Echo");
    assert!(matches!(b.id, AddrRepresentation::Key(ref k) if k == "Echo"));
    assert_eq!(b.node.network_interface, Some(6));
    let g: RemoteAddr<u32> = RemoteAddr::new_gossip(addr(4), None);
    assert!(matches!(g.id, AddrRepresentation::Connector));
}

#[test]
fn remote_addr_change_id_and_equality() {
    let mut a: RemoteAddr<u32> = RemoteAddr::new_gossip(addr(4), Some(1));
    let b: RemoteAddr<u32> = RemoteAddr::new_gossip(addr(4), None);
    assert!(a == b);
    a.change_id("Other".to_string());
    assert!(a != b);
    a.set_network_interface(9);
    assert_eq!(a.node.network_interface, Some(9));
}

#[test]
fn any_addr_change_id_only_touches_remote() {
    let mut local: AnyAddr<&str, u32> = AnyAddr::Local("here");
    local.change_id("X");
    assert!(matches!(local, AnyAddr::Local("here")));
    let mut remote: AnyAddr<&str, u32> = AnyAddr::Remote(RemoteAddr::new_gossip(addr(5), None));
    remote.change_id("Receiver");
    match remote {
        AnyAddr::Remote(r) => assert!(matches!(r.id, AddrRepresentation::Key(ref k) if k == "Receiver")),
        _ => panic!("expected remote"),
    }
}

#[test]
fn any_addr_equality_by_kind() {
    let a: AnyAddr<u8, u32> = AnyAddr::Local(1);
    let b: AnyAddr<u8, u32> = AnyAddr::Local(1);
    let c: AnyAddr<u8, u32> = AnyAddr::Local(2);
    assert!(a == b);
    assert!(a != c);
    let s = telepathy::SocketAddr::new_v4(1, 2, 3, 4, 5);
    let r1: AnyAddr<u8, u32> = AnyAddr::Remote(telepathy::RemoteAddr::new_from_id(s, "X"));
    let r2: AnyAddr<u8, u32> = AnyAddr::Remote(telepathy::RemoteAddr::new_from_key(s, 9, "X"));
    assert!(r1 == r2, "the handle plays no part");
    assert!(r1 != a);
}

#[test]
fn any_addr_clone_keeps_kind_and_address() {
    let l: AnyAddr<u8, u32> = AnyAddr::Local(3);
    assert!(matches!(l.clone(), AnyAddr::Local(3)));
    let r: AnyAddr<u8, u32> = AnyAddr::Remote(RemoteAddr::new_from_key(addr(9), 4, "Worker"));
    match r.clone() {
        AnyAddr::Remote(a) => {
            assert_eq!(a.node.socket_addr, addr(9));
            assert_eq!(a.node.network_interface, Some(4));
            assert!(matches!(a.id, AddrRepresentation::Key(ref k) if k == "Worker"));
        },
        AnyAddr::Local(_) => panic!("expected a remote address"),
    }
}
