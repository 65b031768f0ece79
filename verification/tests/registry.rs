use telepathy::{AddrRepresentation, AddrRequest, AddrResolver, AddrResponse, ResponseDispatcher};

#[test]
fn register_then_resolve_both_ways() {
    let mut r: AddrResolver<u32> = AddrResolver::new();
    assert!(matches!(r.register(7, "Worker".to_string()), Ok(AddrResponse::Register)));
    assert_eq!(r.resolve_str("Worker".to_string()), Ok(&7));
    assert_eq!(r.resolve_rec(&7), Ok(&"Worker".to_string()));
    assert!(r.resolve_str("Other".to_string()).is_err());
    assert!(r.resolve_rec(&8).is_err());
}

#[test]
fn same_recipient_registers_once() {
    let mut r: AddrResolver<u32> = AddrResolver::new();
    assert!(r.register(7, "A".to_string()).is_ok());
    assert!(r.register(7, "B".to_string()).is_err());
    assert!(r.resolve_str("B".to_string()).is_err());
}

#[test]
fn name_taken_over_by_new_recipient() {
    let mut r: AddrResolver<u32> = AddrResolver::new();
    assert!(r.register(1, "A".to_string()).is_ok());
    assert!(r.register(2, "A".to_string()).is_ok());
    assert_eq!(r.resolve_str("A".to_string()), Ok(&2));
}

#[test]
fn resolve_from_addr_representation_uses_its_text() {
    let mut r: AddrResolver<u32> = AddrResolver::new();
    assert!(r.register(3, "gossip".to_string()).is_ok());
    assert_eq!(r.resolve_rec_from_addr_representation(AddrRepresentation::Connector), Ok(&3));
    assert!(r.resolve_rec_from_addr_representation(AddrRepresentation::NetworkInterface).is_err());
}

#[test]
fn handle_answers_requests() {
    let mut r: AddrResolver<u32> = AddrResolver::new();
    assert!(matches!(r.handle(AddrRequest::Register(5, "X".to_string())), Ok(AddrResponse::Register)));
    assert!(matches!(r.handle(AddrRequest::ResolveStr("X".to_string())), Ok(AddrResponse::ResolveStr(5))));
    assert!(matches!(r.handle(AddrRequest::ResolveRec(5)), Ok(AddrResponse::ResolveRec(ref s)) if s == "X"));
    assert!(r.handle(AddrRequest::ResolveStr("Y".to_string())).is_err());
    assert!(r.handle(AddrRequest::ResolveRec(6)).is_err());
}

#[test]
fn dispatcher_hands_out_each_sender_once() {
    let mut d: ResponseDispatcher<&str> = ResponseDispatcher::new();
    assert!(!d.is_subscribed(1));
    d.subscribe(1, "first");
    d.subscribe(2, "second");
    d.subscribe(1, "replaced");
    assert!(d.is_subscribed(1));
    assert_eq!(d.take(1), "replaced");
    assert!(!d.is_subscribed(1));
    assert_eq!(d.take(2), "second");
    assert!(!d.is_subscribed(2));
}
