use vstd::prelude::*;
use crate::socket_addr::{SocketAddr, default_local_addr, local_8000};
use crate::remote::{Node, handle_cloned};
use crate::addr_map::AddrMap;
use crate::connector_msgs::{
    GossipEvent, GossipMessage, GossipJoining, ConnectorAction, ActionSpec, GOSSIP_FANOUT, NodeEvents,
    CONNECTOR_ACTOR_ID, action_fits, actions_fit, lemma_actions_fit_concat, contains_addr,
    choose_random_members, lemma_to_set_push, lemma_to_set_empty,
};

verus! {

/// Where a node stands in joining the cluster.
#[derive(Clone, Copy, Debug, PartialEq, Eq, Structural)]
pub enum GossipState {
    /// Not connected to any member yet.
    Lonely,
    /// Connected, waiting to learn all members; gossip is held back meanwhile.
    Joining,
    /// A full member.
    Joined,
}

/// The gossip connector's state over abstract values.
pub struct GossipView<N> {
    pub own_addr: SocketAddr,
    pub members: Map<SocketAddr, N>,
    pub waiting: Set<SocketAddr>,
    pub state: GossipState,
    pub about_to_join: Option<usize>,
    pub queue: Seq<GossipMessage>,
    pub info: Seq<Node<N>>,
    pub seeds: Seq<SocketAddr>,
}

/// The set holding two addresses.
pub open spec fn pair_set(a: SocketAddr, b: SocketAddr) -> Set<SocketAddr> {
    Set::empty().insert(a).insert(b)
}

/// Every member has seen the event.
pub open spec fn all_seen<N>(v: GossipView<N>, seen: Set<SocketAddr>) -> bool {
    v.members.dom().subset_of(seen)
}

/// Every seed node is a member.
pub open spec fn seeds_are_members<N>(v: GossipView<N>) -> bool {
    forall|i: int| 0 <= i < v.seeds.len() ==> v.members.dom().contains(#[trigger] v.seeds[i])
}

/// A full member handles a gossip message: a join of an unknown node makes it
/// connect to that node, a leave of a member removes it, and unless the event
/// is known and every member has seen it, it is passed on with this node added
/// to the seen set.
pub open spec fn msg_effect<N>(v: GossipView<N>, m: GossipMessage) -> (GossipView<N>, Seq<ActionSpec<N>>) {
    let known = v.members.dom().contains(m.addr);
    let all = all_seen(v, m.seen_set());
    let seen2 = m.seen_set().insert(v.own_addr);
    match m.event {
        GossipEvent::Join => if known && all {
            (v, Seq::empty())
        } else if !known {
            let v1 = GossipView { waiting: v.waiting.insert(m.addr), ..v };
            (
                v1,
                seq![
                    ActionSpec::Connect { addr: m.addr },
                    ActionSpec::Gossip { event: m.event, addr: m.addr, seen: seen2, pool: v1.members },
                ],
            )
        } else {
            (v, seq![ActionSpec::Gossip { event: m.event, addr: m.addr, seen: seen2, pool: v.members }])
        },
        GossipEvent::Leave => if !known && all {
            (v, Seq::empty())
        } else {
            let v1 = GossipView { members: v.members.remove(m.addr), ..v };
            (v1, seq![ActionSpec::Gossip { event: m.event, addr: m.addr, seen: seen2, pool: v1.members }])
        },
    }
}

/// Handles the held-back messages, the last one first.
pub open spec fn process_queue<N>(v: GossipView<N>, q: Seq<GossipMessage>) -> (GossipView<N>, Seq<ActionSpec<N>>)
    decreases q.len(),
{
    if q.len() == 0 {
        (v, Seq::empty())
    } else {
        let (v1, a1) = msg_effect(v, q.last());
        let (v2, a2) = process_queue(v1, q.drop_last());
        (v2, a1 + a2)
    }
}

/// Handling messages changes only the members and the waiting list.
pub proof fn lemma_process_queue_frame<N>(v: GossipView<N>, q: Seq<GossipMessage>)
    ensures
        process_queue(v, q).0.own_addr == v.own_addr,
        process_queue(v, q).0.state == v.state,
        process_queue(v, q).0.about_to_join == v.about_to_join,
        process_queue(v, q).0.queue == v.queue,
        process_queue(v, q).0.info == v.info,
        process_queue(v, q).0.seeds == v.seeds,
    decreases q.len(),
{
    if q.len() > 0 {
        lemma_process_queue_frame(msg_effect(v, q.last()).0, q.drop_last());
    }
}

/// What a full member does for a node that joined through it: tell the node
/// how many members there are, and spread the news of its joining.
pub open spec fn share_one<N>(v: GossipView<N>, node: Node<N>) -> Seq<ActionSpec<N>> {
    seq![
        ActionSpec::Joining { node, about_to_join: v.members.dom().len() as int },
        ActionSpec::Gossip {
            event: GossipEvent::Join,
            addr: node.socket_addr,
            seen: pair_set(v.own_addr, node.socket_addr),
            pool: v.members,
        },
    ]
}

/// Sharing with each waiting node, the last one first.
pub open spec fn share_all<N>(v: GossipView<N>, info: Seq<Node<N>>) -> Seq<ActionSpec<N>>
    decreases info.len(),
{
    if info.len() == 0 {
        Seq::empty()
    } else {
        share_one(v, info.last()) + share_all(v, info.drop_last())
    }
}

/// Becoming a full member: the held-back messages are handled, then every node
/// that joined meanwhile is told about the cluster.
pub open spec fn become_joined<N>(v: GossipView<N>) -> (GossipView<N>, Seq<ActionSpec<N>>) {
    let v1 = GossipView { state: GossipState::Joined, queue: Seq::empty(), ..v };
    let (v2, a2) = process_queue(v1, v.queue);
    (GossipView { info: Seq::empty(), ..v2 }, a2 + share_all(v2, v.info))
}

/// A gossip message arrives: held back while joining, handled otherwise.
pub open spec fn on_gossip_message<N>(v: GossipView<N>, m: GossipMessage) -> (GossipView<N>, Seq<ActionSpec<N>>) {
    if v.state == GossipState::Joining {
        (GossipView { queue: v.queue.push(m), ..v }, Seq::empty())
    } else {
        msg_effect(v, m)
    }
}

/// A joining node learns how many members to expect; once it knows that many it
/// becomes a full member. In any other state the message is ignored.
pub open spec fn on_gossip_joining<N>(v: GossipView<N>, about_to_join: usize) -> (GossipView<N>, Seq<ActionSpec<N>>) {
    if v.state == GossipState::Joining {
        let v1 = GossipView { about_to_join: Some(about_to_join), ..v };
        if about_to_join <= v1.members.dom().len() {
            become_joined(v1)
        } else {
            (v1, Seq::empty())
        }
    } else {
        (v, Seq::empty())
    }
}

/// A connection to a node is up. The node becomes a member (under the handle it
/// came with; `later` is the copy of the node kept for messages to it). If this node asked
/// for the connection, nothing else happens. Otherwise a lonely node starts
/// joining (or, as the seed with all seed nodes known, becomes a full member
/// and welcomes the node); a joining node remembers a node it is seed for and
/// becomes a full member once it knows as many members as announced; a full
/// member welcomes a node it is seed for.
pub open spec fn on_member_up<N>(v: GossipView<N>, node: Node<N>, seed: bool, later: Node<N>) -> (GossipView<N>, Seq<ActionSpec<N>>) {
    let v1 = GossipView { members: v.members.insert(node.socket_addr, node.network_interface->Some_0), ..v };
    if v.waiting.contains(node.socket_addr) {
        (GossipView { waiting: v.waiting.remove(node.socket_addr), ..v1 }, Seq::empty())
    } else {
        match v.state {
            GossipState::Lonely => if seed {
                if seeds_are_members(v1) {
                    let (v2, a2) = become_joined(v1);
                    (v2, a2 + share_one(v2, later))
                } else {
                    (GossipView { state: GossipState::Joining, info: v1.info.push(later), ..v1 }, Seq::empty())
                }
            } else {
                (GossipView { state: GossipState::Joining, ..v1 }, Seq::empty())
            },
            GossipState::Joining => {
                let v2 = if seed {
                    GossipView { info: v1.info.push(later), ..v1 }
                } else {
                    v1
                };
                if v2.about_to_join is Some && v2.about_to_join->Some_0 == v2.members.dom().len() {
                    become_joined(v2)
                } else {
                    (v2, Seq::empty())
                }
            },
            GossipState::Joined => if seed {
                (v1, share_one(v1, later))
            } else {
                (v1, Seq::empty())
            },
        }
    }
}

/// A connection to a member is down: it is removed and its leaving is spread.
pub open spec fn on_member_down<N>(v: GossipView<N>, addr: SocketAddr) -> (GossipView<N>, Seq<ActionSpec<N>>) {
    let v1 = GossipView { members: v.members.remove(addr), ..v };
    (
        v1,
        seq![
            ActionSpec::Gossip {
                event: GossipEvent::Leave,
                addr,
                seen: Set::empty().insert(v.own_addr),
                pool: v1.members,
            },
        ],
    )
}

/// The membership protocol in which members pass join and leave events on to
/// random other members until every member has seen them.
pub struct Gossip<N> {
    own_addr: SocketAddr,
    members: AddrMap<N>,
    waiting_to_add: Vec<SocketAddr>,
    state: GossipState,
    about_to_join: Option<usize>,
    gossip_msgs: Vec<GossipMessage>,
    info_msgs_to_send: Vec<Node<N>>,
    seed_nodes: Vec<SocketAddr>,
}

/// Every gossip action names this node among those that have seen the event.
pub open spec fn seen_includes<N>(acts: Seq<ActionSpec<N>>, own: SocketAddr) -> bool {
    forall|i: int| 0 <= i < acts.len() && (#[trigger] acts[i]) is Gossip ==> acts[i]->Gossip_seen.contains(own)
}

/// The held-back messages and the nodes waiting for a welcome are empty
/// unless the node is joining.
pub open spec fn gossip_inv<N>(v: GossipView<N>) -> bool {
    v.state != GossipState::Joining ==> v.queue.len() == 0 && v.info.len() == 0
}

proof fn lemma_seen_includes_concat<N>(a: Seq<ActionSpec<N>>, b: Seq<ActionSpec<N>>, own: SocketAddr)
    requires
        seen_includes(a, own),
        seen_includes(b, own),
    ensures
        seen_includes(a + b, own),
{
    assert forall|i: int| 0 <= i < (a + b).len() && (#[trigger] (a + b)[i]) is Gossip implies (a + b)[i]->Gossip_seen.contains(own) by {
        if i < a.len() {
            assert((a + b)[i] == a[i]);
        } else {
            assert((a + b)[i] == b[i - a.len()]);
        }
    }
}

proof fn lemma_msg_effect_seen<N>(v: GossipView<N>, m: GossipMessage)
    ensures
        seen_includes(msg_effect(v, m).1, v.own_addr),
        msg_effect(v, m).0.own_addr == v.own_addr,
{
}

proof fn lemma_process_queue_seen<N>(v: GossipView<N>, q: Seq<GossipMessage>)
    ensures
        seen_includes(process_queue(v, q).1, v.own_addr),
    decreases q.len(),
{
    if q.len() > 0 {
        let (v1, a1) = msg_effect(v, q.last());
        lemma_msg_effect_seen(v, q.last());
        lemma_process_queue_seen(v1, q.drop_last());
        lemma_seen_includes_concat(a1, process_queue(v1, q.drop_last()).1, v.own_addr);
    }
}

proof fn lemma_share_all_seen<N>(v: GossipView<N>, info: Seq<Node<N>>)
    ensures
        seen_includes(share_all(v, info), v.own_addr),
    decreases info.len(),
{
    if info.len() > 0 {
        lemma_share_all_seen(v, info.drop_last());
        lemma_seen_includes_concat(share_one(v, info.last()), share_all(v, info.drop_last()), v.own_addr);
    }
}

proof fn lemma_become_joined_seen<N>(v: GossipView<N>)
    ensures
        seen_includes(become_joined(v).1, v.own_addr),
        become_joined(v).0.own_addr == v.own_addr,
        become_joined(v).0.state == GossipState::Joined,
        become_joined(v).0.queue.len() == 0,
        become_joined(v).0.info.len() == 0,
{
    let v1 = GossipView { state: GossipState::Joined, queue: Seq::empty(), ..v };
    lemma_process_queue_frame(v1, v.queue);
    lemma_process_queue_seen(v1, v.queue);
    let v2 = process_queue(v1, v.queue).0;
    lemma_share_all_seen(v2, v.info);
    lemma_seen_includes_concat(process_queue(v1, v.queue).1, share_all(v2, v.info), v.own_addr);
}

/// Whatever event the gossip connector handles, every event it passes on lists
/// this node as having seen it; with [`lemma_gossip_skips_seen`] this means a
/// node never gossips to itself.
pub proof fn lemma_gossip_marks_own_addr_seen<N>(v: GossipView<N>, m: GossipMessage, about_to_join: usize, node: Node<N>, seed: bool, later: Node<N>, addr: SocketAddr)
    ensures
        seen_includes(on_gossip_message(v, m).1, v.own_addr),
        seen_includes(on_gossip_joining(v, about_to_join).1, v.own_addr),
        seen_includes(on_member_up(v, node, seed, later).1, v.own_addr),
        seen_includes(on_member_down(v, addr).1, v.own_addr),
{
    lemma_msg_effect_seen(v, m);
    let v1 = GossipView { about_to_join: Some(about_to_join), ..v };
    lemma_become_joined_seen(v1);
    let w1 = GossipView { members: v.members.insert(node.socket_addr, node.network_interface->Some_0), ..v };
    lemma_become_joined_seen(w1);
    lemma_seen_includes_concat(become_joined(w1).1, share_one(become_joined(w1).0, later), v.own_addr);
    let w2 = GossipView { info: w1.info.push(later), ..w1 };
    lemma_become_joined_seen(w2);
}

/// A gossip action never goes to a member that has already seen the event, so
/// never to this node once its own address is in the seen set.
pub proof fn lemma_gossip_skips_seen<N: Clone>(a: ConnectorAction<N>, s: ActionSpec<N>, own: SocketAddr)
    requires
        action_fits(a, s),
        s is Gossip,
        s->Gossip_seen.contains(own),
    ensures
        a matches ConnectorAction::Gossip { message, recipients } && message.seen_set().contains(own) && forall|i: int|
            0 <= i < recipients@.len() ==> #[trigger] recipients@[i].node.socket_addr != own
                && !message.seen_set().contains(recipients@[i].node.socket_addr),
{
}

/// An event that every member has seen, about a node whose membership already
/// agrees with it, is dropped: gossip about it stops.
pub proof fn lemma_gossip_stops_when_all_seen<N>(v: GossipView<N>, m: GossipMessage)
    requires
        v.state != GossipState::Joining,
        all_seen(v, m.seen_set()),
        m.event == GossipEvent::Join ==> v.members.dom().contains(m.addr),
        m.event == GossipEvent::Leave ==> !v.members.dom().contains(m.addr),
    ensures
        on_gossip_message(v, m) == (v, Seq::<ActionSpec<N>>::empty()),
{
}

/// While joining, gossip messages are held back in arrival order and nothing is
/// sent.
pub proof fn lemma_joining_holds_back<N>(v: GossipView<N>, m: GossipMessage)
    requires
        v.state == GossipState::Joining,
    ensures
        on_gossip_message(v, m).0.queue == v.queue.push(m),
        on_gossip_message(v, m).0.members == v.members,
        on_gossip_message(v, m).1.len() == 0,
{
}

/// A full member stays a full member whatever it handles.
pub proof fn lemma_joined_is_final<N>(v: GossipView<N>, m: GossipMessage, about_to_join: usize, node: Node<N>, seed: bool, later: Node<N>, addr: SocketAddr)
    requires
        v.state == GossipState::Joined,
    ensures
        on_gossip_message(v, m).0.state == GossipState::Joined,
        on_gossip_joining(v, about_to_join).0.state == GossipState::Joined,
        on_member_up(v, node, seed, later).0.state == GossipState::Joined,
        on_member_down(v, addr).0.state == GossipState::Joined,
{
}

/// A new connector satisfies the invariant, and every handler keeps it: outside
/// joining nothing is held back and nobody waits for a welcome.
pub proof fn lemma_gossip_inv_kept<N>(v: GossipView<N>, m: GossipMessage, about_to_join: usize, node: Node<N>, seed: bool, later: Node<N>, addr: SocketAddr, own: SocketAddr, seeds: Seq<SocketAddr>)
    requires
        gossip_inv(v),
    ensures
        gossip_inv(GossipView {
            own_addr: own,
            members: Map::<SocketAddr, N>::empty(),
            waiting: Set::empty(),
            state: GossipState::Lonely,
            about_to_join: None,
            queue: Seq::empty(),
            info: Seq::empty(),
            seeds,
        }),
        gossip_inv(on_gossip_message(v, m).0),
        gossip_inv(on_gossip_joining(v, about_to_join).0),
        gossip_inv(on_member_up(v, node, seed, later).0),
        gossip_inv(on_member_down(v, addr).0),
{
    let v1 = GossipView { about_to_join: Some(about_to_join), ..v };
    lemma_become_joined_seen(v1);
    let w1 = GossipView { members: v.members.insert(node.socket_addr, node.network_interface->Some_0), ..v };
    lemma_become_joined_seen(w1);
    let w2 = GossipView { info: w1.info.push(later), ..w1 };
    lemma_become_joined_seen(w2);
}

/// After a member goes down it is no member; a node that comes up to a full
/// member, or to any node with nothing held back, is a member afterwards.
pub proof fn lemma_membership_follows_events<N>(v: GossipView<N>, node: Node<N>, seed: bool, later: Node<N>, addr: SocketAddr)
    requires
        v.state == GossipState::Joined || v.queue.len() == 0,
        gossip_inv(v),
    ensures
        !on_member_down(v, addr).0.members.dom().contains(addr),
        on_member_up(v, node, seed, later).0.members.dom().contains(node.socket_addr),
{
    let w1 = GossipView { members: v.members.insert(node.socket_addr, node.network_interface->Some_0), ..v };
    let u1 = GossipView { state: GossipState::Joined, queue: Seq::empty(), ..w1 };
    assert(process_queue(u1, w1.queue) == (u1, Seq::<ActionSpec<N>>::empty()));
    let w2 = GossipView { info: w1.info.push(later), ..w1 };
    let u2 = GossipView { state: GossipState::Joined, queue: Seq::empty(), ..w2 };
    assert(process_queue(u2, w2.queue) == (u2, Seq::<ActionSpec<N>>::empty()));
}

/// A member that is not joining gets an event some member has not seen,
/// about a node whose membership does not yet agree with it: a join of a
/// member, or a leave of a node that is no member.
pub open spec fn passes_on<N>(v: GossipView<N>, m: GossipMessage) -> bool {
    &&& v.state != GossipState::Joining
    &&& !all_seen(v, m.seen_set())
    &&& m.event == GossipEvent::Join ==> v.members.dom().contains(m.addr)
    &&& m.event == GossipEvent::Leave ==> !v.members.dom().contains(m.addr)
}

/// The node at `addr` that came up is welcomed: still joining, it waits last
/// in line for a welcome; now a full member, the actions hold its welcome.
pub open spec fn welcomed_later<N>(before: GossipView<N>, after: GossipView<N>, acts: Seq<ConnectorAction<N>>, addr: SocketAddr) -> bool {
    &&& after.state == GossipState::Joining ==> after.info.len() == before.info.len() + 1 && after.info.last().socket_addr
        == addr
    &&& after.state == GossipState::Joined ==> exists|i: int|
        0 <= i < acts.len() && (#[trigger] acts[i]) is Joining && acts[i]->Joining_to.node.socket_addr == addr
}

/// An event the gossip connector handles, over abstract values; a node that
/// comes up carries the copy of it that is kept for later messages.
pub enum GossipInput<N> {
    Message(GossipMessage),
    Joining(usize),
    MemberUp(Node<N>, bool, Node<N>),
    MemberDown(SocketAddr),
}

/// The state after one event.
pub open spec fn gossip_step<N>(v: GossipView<N>, e: GossipInput<N>) -> GossipView<N> {
    match e {
        GossipInput::Message(m) => on_gossip_message(v, m).0,
        GossipInput::Joining(n) => on_gossip_joining(v, n).0,
        GossipInput::MemberUp(node, seed, later) => on_member_up(v, node, seed, later).0,
        GossipInput::MemberDown(a) => on_member_down(v, a).0,
    }
}

/// The state after a sequence of events, handled first to last.
pub open spec fn gossip_run<N>(v: GossipView<N>, es: Seq<GossipInput<N>>) -> GossipView<N>
    decreases es.len(),
{
    if es.len() == 0 {
        v
    } else {
        gossip_step(gossip_run(v, es.drop_last()), es.last())
    }
}

/// How far a node has come in joining.
pub open spec fn state_rank(s: GossipState) -> int {
    match s {
        GossipState::Lonely => 0,
        GossipState::Joining => 1,
        GossipState::Joined => 2,
    }
}

/// The member table once a node that comes up is added.
pub open spec fn with_member<N>(v: GossipView<N>, node: Node<N>) -> GossipView<N> {
    GossipView { members: v.members.insert(node.socket_addr, node.network_interface->Some_0), ..v }
}

/// A joining node becomes a full member on this event: on learning it will
/// know at most as many members as it has, or on a member coming up (not one
/// it asked for) that brings it to the announced number.
pub open spec fn joins_from_joining<N>(v: GossipView<N>, e: GossipInput<N>) -> bool {
    match e {
        GossipInput::Joining(n) => n <= v.members.dom().len(),
        GossipInput::MemberUp(node, _, _) => !v.waiting.contains(node.socket_addr) && v.about_to_join is Some
            && v.about_to_join->Some_0 == with_member(v, node).members.dom().len(),
        _ => false,
    }
}

/// A lonely node becomes a full member only as the seed of a node that comes
/// up, once every seed node is a member.
pub open spec fn joins_from_lonely<N>(v: GossipView<N>, e: GossipInput<N>) -> bool {
    match e {
        GossipInput::MemberUp(node, seed, _) => seed && !v.waiting.contains(node.socket_addr) && seeds_are_members(
            with_member(v, node),
        ),
        _ => false,
    }
}

proof fn lemma_msg_effect_state<N>(v: GossipView<N>, m: GossipMessage)
    ensures
        msg_effect(v, m).0.state == v.state,
        msg_effect(v, m).0.queue == v.queue,
        msg_effect(v, m).0.info == v.info,
{
}

/// A joining node that learns how many members to expect becomes a full
/// member exactly when it already knows at least that many; otherwise it keeps
/// joining, remembers the number and sends nothing.
pub proof fn lemma_joining_count_decides<N>(v: GossipView<N>, n: usize)
    requires
        v.state == GossipState::Joining,
    ensures
        n <= v.members.dom().len() <==> on_gossip_joining(v, n).0.state == GossipState::Joined,
        n > v.members.dom().len() ==> on_gossip_joining(v, n).0.state == GossipState::Joining
            && on_gossip_joining(v, n).0.about_to_join == Some(n) && on_gossip_joining(v, n).1.len() == 0,
{
    lemma_become_joined_seen(GossipView { about_to_join: Some(n), ..v });
}

/// A member that is not joining passes on the join of a node it already knows
/// when some member has not seen it: one gossip action, about the same node,
/// with this node added to those that have seen it, drawn from its members;
/// nothing else changes.
pub proof fn lemma_known_join_passed_on<N>(v: GossipView<N>, m: GossipMessage)
    requires
        v.state != GossipState::Joining,
        m.event == GossipEvent::Join,
        v.members.dom().contains(m.addr),
        !all_seen(v, m.seen_set()),
    ensures
        on_gossip_message(v, m).0 == v,
        on_gossip_message(v, m).1.len() == 1,
        on_gossip_message(v, m).1[0] == (ActionSpec::Gossip {
            event: GossipEvent::Join,
            addr: m.addr,
            seen: m.seen_set().insert(v.own_addr),
            pool: v.members,
        }),
{
}

/// A member that is not joining passes on the leave of a node that is no
/// member (any more) when some member has not seen it: one gossip action,
/// about the same node, with this node added to those that have seen it,
/// drawn from its members, which stay as they are.
pub proof fn lemma_unknown_leave_passed_on<N>(v: GossipView<N>, m: GossipMessage)
    requires
        v.state != GossipState::Joining,
        m.event == GossipEvent::Leave,
        !v.members.dom().contains(m.addr),
        !all_seen(v, m.seen_set()),
    ensures
        on_gossip_message(v, m).0 == v,
        on_gossip_message(v, m).1.len() == 1,
        on_gossip_message(v, m).1[0] == (ActionSpec::Gossip {
            event: GossipEvent::Leave,
            addr: m.addr,
            seen: m.seen_set().insert(v.own_addr),
            pool: v.members,
        }),
{
    assert(v.members.remove(m.addr) =~= v.members);
}

/// A lonely node whose connection to a non-seed comes up (one it did not ask
/// for) starts joining, with the node as a member, sends nothing, and does not
/// mark the node for a welcome: only nodes it is the seed of are welcomed.
pub proof fn lemma_lonely_non_seed_up<N>(v: GossipView<N>, node: Node<N>, later: Node<N>)
    requires
        v.state == GossipState::Lonely,
        !v.waiting.contains(node.socket_addr),
    ensures
        on_member_up(v, node, false, later).0.state == GossipState::Joining,
        on_member_up(v, node, false, later).0.info == v.info,
        on_member_up(v, node, false, later).0.members == v.members.insert(
            node.socket_addr,
            node.network_interface->Some_0,
        ),
        on_member_up(v, node, false, later).1.len() == 0,
{
}

/// Among the actions is the welcome of `node`.
pub open spec fn welcomes<N>(acts: Seq<ActionSpec<N>>, node: Node<N>) -> bool {
    exists|i: int| 0 <= i < acts.len() && (#[trigger] acts[i]) is Joining && acts[i]->Joining_node == node
}

/// A joining node that is the seed of a node coming up (one it did not ask
/// for) welcomes it: while it keeps joining the node is added last to those
/// waiting for a welcome, and if it becomes a full member on this event the
/// actions include the welcome of that node.
pub proof fn lemma_joining_seed_up_welcomed<N>(v: GossipView<N>, node: Node<N>, later: Node<N>)
    requires
        v.state == GossipState::Joining,
        !v.waiting.contains(node.socket_addr),
    ensures
        ({
            let (w, acts) = on_member_up(v, node, true, later);
            &&& w.state == GossipState::Joining ==> w.info == v.info.push(later)
            &&& w.state == GossipState::Joined ==> welcomes(acts, later)
        }),
{
    let w1 = with_member(v, node);
    let w2 = GossipView { info: w1.info.push(later), ..w1 };
    lemma_become_joined_seen(w2);
    if on_member_up(v, node, true, later).0.state == GossipState::Joined {
        let u1 = GossipView { state: GossipState::Joined, queue: Seq::empty(), ..w2 };
        let (u2, a2) = process_queue(u1, w2.queue);
        let sa = share_all(u2, w2.info);
        assert(w2.info.last() == later);
        assert(sa[0] == ActionSpec::Joining { node: later, about_to_join: u2.members.dom().len() as int });
        let acts = on_member_up(v, node, true, later).1;
        assert(acts == a2 + sa);
        assert(acts[a2.len() as int] == sa[0]);
    }
}

proof fn lemma_share_all_welcomes<N>(v: GossipView<N>, info: Seq<Node<N>>)
    ensures
        forall|j: int| 0 <= j < info.len() ==> welcomes(share_all(v, info), #[trigger] info[j]),
    decreases info.len(),
{
    if info.len() > 0 {
        lemma_share_all_welcomes(v, info.drop_last());
        let one = share_one(v, info.last());
        let rest = share_all(v, info.drop_last());
        assert(share_all(v, info) == one + rest);
        assert forall|j: int| 0 <= j < info.len() implies welcomes(share_all(v, info), #[trigger] info[j]) by {
            if j == info.len() - 1 {
                assert((one + rest)[0] == one[0]);
            } else {
                assert(info.drop_last()[j] == info[j]);
                let i = choose|i: int| 0 <= i < rest.len() && (#[trigger] rest[i]) is Joining && rest[i]->Joining_node == info[j];
                assert((one + rest)[one.len() + i] == rest[i]);
            }
        }
    }
}

/// Becoming a full member welcomes every node that was waiting for it.
pub proof fn lemma_becoming_joined_welcomes_all<N>(v: GossipView<N>)
    ensures
        forall|j: int| 0 <= j < v.info.len() ==> welcomes(become_joined(v).1, #[trigger] v.info[j]),
{
    let v1 = GossipView { state: GossipState::Joined, queue: Seq::empty(), ..v };
    let (v2, a2) = process_queue(v1, v.queue);
    let sa = share_all(v2, v.info);
    lemma_share_all_welcomes(v2, v.info);
    assert(become_joined(v).1 == a2 + sa);
    assert forall|j: int| 0 <= j < v.info.len() implies welcomes(become_joined(v).1, #[trigger] v.info[j]) by {
        let i = choose|i: int| 0 <= i < sa.len() && (#[trigger] sa[i]) is Joining && sa[i]->Joining_node == v.info[j];
        assert((a2 + sa)[a2.len() + i] == sa[i]);
    }
}

/// A joining node that becomes a full member on learning the member count
/// welcomes every node that was waiting for a welcome.
pub proof fn lemma_joining_count_welcomes_waiting<N>(v: GossipView<N>, n: usize)
    requires
        v.state == GossipState::Joining,
        n <= v.members.dom().len(),
    ensures
        forall|j: int| 0 <= j < v.info.len() ==> welcomes(on_gossip_joining(v, n).1, #[trigger] v.info[j]),
{
    lemma_becoming_joined_welcomes_all(GossipView { about_to_join: Some(n), ..v });
}

/// A member that is not joining and hears of the join of a node it does not
/// know asks for a connection to it, waits for that connection instead of
/// treating it as a new joiner, and passes the join on with itself added to
/// those that have seen it.
pub proof fn lemma_unknown_join_connects<N>(v: GossipView<N>, m: GossipMessage)
    requires
        v.state != GossipState::Joining,
        m.event == GossipEvent::Join,
        !v.members.dom().contains(m.addr),
    ensures
        on_gossip_message(v, m).0.waiting == v.waiting.insert(m.addr),
        on_gossip_message(v, m).0.members == v.members,
        on_gossip_message(v, m).1.len() == 2,
        on_gossip_message(v, m).1[0] == (ActionSpec::<N>::Connect { addr: m.addr }),
        on_gossip_message(v, m).1[1] is Gossip && on_gossip_message(v, m).1[1]->Gossip_event == GossipEvent::Join
            && on_gossip_message(v, m).1[1]->Gossip_addr == m.addr && on_gossip_message(v, m).1[1]->Gossip_seen
            == m.seen_set().insert(v.own_addr),
{
}

/// A member that is not joining and hears that a member left drops it and
/// passes the leave on, with itself added to those that have seen it, to the
/// remaining members.
pub proof fn lemma_known_leave_removes<N>(v: GossipView<N>, m: GossipMessage)
    requires
        v.state != GossipState::Joining,
        m.event == GossipEvent::Leave,
        v.members.dom().contains(m.addr),
    ensures
        on_gossip_message(v, m).0.members == v.members.remove(m.addr),
        on_gossip_message(v, m).0.state == v.state,
        on_gossip_message(v, m).1.len() == 1,
        on_gossip_message(v, m).1[0] == (ActionSpec::Gossip {
            event: GossipEvent::Leave,
            addr: m.addr,
            seen: m.seen_set().insert(v.own_addr),
            pool: v.members.remove(m.addr),
        }),
{
}

/// A connection that goes down removes the member and starts spreading its
/// leave, seen so far by this node alone, to the remaining members.
pub proof fn lemma_member_down_spreads_leave<N>(v: GossipView<N>, addr: SocketAddr)
    ensures
        on_member_down(v, addr).0.members == v.members.remove(addr),
        on_member_down(v, addr).0.state == v.state,
        on_member_down(v, addr).1 == seq![
            ActionSpec::Gossip {
                event: GossipEvent::Leave,
                addr,
                seen: Set::empty().insert(v.own_addr),
                pool: v.members.remove(addr),
            },
        ],
{
}

/// A connection this node asked for (after hearing of a join) makes the node a
/// member, ends the wait for it, and changes nothing else: no welcome, no
/// gossip.
pub proof fn lemma_awaited_member_up<N>(v: GossipView<N>, node: Node<N>, seed: bool, later: Node<N>)
    requires
        v.waiting.contains(node.socket_addr),
    ensures
        on_member_up(v, node, seed, later).0.members == v.members.insert(
            node.socket_addr,
            node.network_interface->Some_0,
        ),
        on_member_up(v, node, seed, later).0.waiting == v.waiting.remove(node.socket_addr),
        on_member_up(v, node, seed, later).0.state == v.state,
        on_member_up(v, node, seed, later).0.info == v.info,
        on_member_up(v, node, seed, later).1.len() == 0,
{
}

/// A full member welcomes a node it is the seed of: it tells the node how many
/// members there now are and spreads its join, seen by the two of them; a
/// connection it is not the seed of brings no action.
pub proof fn lemma_joined_member_up<N>(v: GossipView<N>, node: Node<N>, seed: bool, later: Node<N>)
    requires
        v.state == GossipState::Joined,
        !v.waiting.contains(node.socket_addr),
    ensures
        on_member_up(v, node, seed, later).0.members == v.members.insert(
            node.socket_addr,
            node.network_interface->Some_0,
        ),
        on_member_up(v, node, seed, later).0.state == GossipState::Joined,
        !seed ==> on_member_up(v, node, seed, later).1.len() == 0,
        seed ==> on_member_up(v, node, seed, later).1.len() == 2,
        seed ==> on_member_up(v, node, seed, later).1[0] == (ActionSpec::Joining {
            node: later,
            about_to_join: v.members.insert(node.socket_addr, node.network_interface->Some_0).dom().len() as int,
        }),
        seed ==> on_member_up(v, node, seed, later).1[1] == (ActionSpec::Gossip {
            event: GossipEvent::Join,
            addr: later.socket_addr,
            seen: pair_set(v.own_addr, later.socket_addr),
            pool: v.members.insert(node.socket_addr, node.network_interface->Some_0),
        }),
{
}

/// A lonely node that becomes the seed of a node: with every seed node a
/// member it becomes a full member and welcomes the node, else it starts
/// joining and keeps the node waiting for a welcome.
pub proof fn lemma_lonely_seed_up<N>(v: GossipView<N>, node: Node<N>, later: Node<N>)
    requires
        v.state == GossipState::Lonely,
        !v.waiting.contains(node.socket_addr),
    ensures
        seeds_are_members(with_member(v, node)) ==> on_member_up(v, node, true, later).0.state == GossipState::Joined
            && welcomes(on_member_up(v, node, true, later).1, later),
        !seeds_are_members(with_member(v, node)) ==> on_member_up(v, node, true, later).0.state
            == GossipState::Joining && on_member_up(v, node, true, later).0.info == v.info.push(later)
            && on_member_up(v, node, true, later).1.len() == 0,
{
    let w1 = with_member(v, node);
    if seeds_are_members(w1) {
        lemma_become_joined_seen(w1);
        let (w2, a2) = become_joined(w1);
        let one = share_one(w2, later);
        assert(on_member_up(v, node, true, later).1 == a2 + one);
        assert((a2 + one)[a2.len() as int] == one[0]);
    }
}

/// One event moves a node only forward, from lonely to joining to joined,
/// keeps [`gossip_inv`], and becomes a full member only as
/// [`joins_from_joining`] and [`joins_from_lonely`] say.
pub proof fn lemma_gossip_step<N>(v: GossipView<N>, e: GossipInput<N>)
    requires
        gossip_inv(v),
    ensures
        gossip_inv(gossip_step(v, e)),
        state_rank(v.state) <= state_rank(gossip_step(v, e).state),
        v.state == GossipState::Joining && gossip_step(v, e).state == GossipState::Joined ==> joins_from_joining(v, e),
        v.state == GossipState::Lonely && gossip_step(v, e).state == GossipState::Joined ==> joins_from_lonely(v, e),
{
    match e {
        GossipInput::Message(m) => {
            lemma_msg_effect_state(v, m);
            lemma_gossip_inv_kept(v, m, 0, arbitrary(), false, arbitrary(), arbitrary(), arbitrary(), arbitrary());
        },
        GossipInput::Joining(n) => {
            lemma_become_joined_seen(GossipView { about_to_join: Some(n), ..v });
            lemma_gossip_inv_kept(v, arbitrary(), n, arbitrary(), false, arbitrary(), arbitrary(), arbitrary(), arbitrary());
        },
        GossipInput::MemberUp(node, seed, later) => {
            let w1 = with_member(v, node);
            lemma_become_joined_seen(w1);
            lemma_become_joined_seen(GossipView { info: w1.info.push(later), ..w1 });
            lemma_gossip_inv_kept(v, arbitrary(), 0, node, seed, later, arbitrary(), arbitrary(), arbitrary());
        },
        GossipInput::MemberDown(a) => {
            lemma_gossip_inv_kept(v, arbitrary(), 0, arbitrary(), false, arbitrary(), a, arbitrary(), arbitrary());
        },
    }
}

proof fn lemma_gossip_prefix<N>(v: GossipView<N>, es: Seq<GossipInput<N>>, i: int)
    requires
        gossip_inv(v),
        0 <= i <= es.len(),
    ensures
        gossip_inv(gossip_run(v, es.take(i))),
        state_rank(v.state) <= state_rank(gossip_run(v, es.take(i)).state),
    decreases i,
{
    if i > 0 {
        lemma_gossip_prefix(v, es, i - 1);
        assert(es.take(i).drop_last() =~= es.take(i - 1));
        lemma_gossip_step(gossip_run(v, es.take(i - 1)), es[i - 1]);
    }
}

/// Over any sequence of events from a state satisfying [`gossip_inv`] (a new
/// connector does): every state reached satisfies it, so a full member holds
/// nothing back; the state only moves forward from event to event, so a full
/// member stays one and no node becomes lonely again; and each step into the
/// joined state is one that [`joins_from_joining`] or [`joins_from_lonely`]
/// allows.
pub proof fn lemma_gossip_run<N>(v: GossipView<N>, es: Seq<GossipInput<N>>)
    requires
        gossip_inv(v),
    ensures
        forall|i: int| 0 <= i <= es.len() ==> #[trigger] gossip_inv(gossip_run(v, es.take(i))),
        forall|i: int|
            0 <= i < es.len() ==> state_rank(gossip_run(v, es.take(i)).state) <= state_rank(
                #[trigger] gossip_run(v, es.take(i + 1)).state,
            ),
        forall|i: int|
            0 <= i < es.len() && gossip_run(v, es.take(i)).state == GossipState::Joining && (#[trigger] gossip_run(
                v,
                es.take(i + 1),
            )).state == GossipState::Joined ==> joins_from_joining(gossip_run(v, es.take(i)), es[i]),
        forall|i: int|
            0 <= i < es.len() && gossip_run(v, es.take(i)).state == GossipState::Lonely && (#[trigger] gossip_run(
                v,
                es.take(i + 1),
            )).state == GossipState::Joined ==> joins_from_lonely(gossip_run(v, es.take(i)), es[i]),
        state_rank(v.state) <= state_rank(gossip_run(v, es).state),
        gossip_run(v, es).state == GossipState::Joined ==> gossip_run(v, es).queue.len() == 0,
{
    assert forall|i: int| 0 <= i <= es.len() implies #[trigger] gossip_inv(gossip_run(v, es.take(i))) by {
        lemma_gossip_prefix(v, es, i);
    }
    assert forall|i: int| 0 <= i < es.len() implies {
        &&& state_rank(gossip_run(v, es.take(i)).state) <= state_rank(#[trigger] gossip_run(v, es.take(i + 1)).state)
        &&& gossip_run(v, es.take(i)).state == GossipState::Joining && gossip_run(v, es.take(i + 1)).state
            == GossipState::Joined ==> joins_from_joining(gossip_run(v, es.take(i)), es[i])
        &&& gossip_run(v, es.take(i)).state == GossipState::Lonely && gossip_run(v, es.take(i + 1)).state
            == GossipState::Joined ==> joins_from_lonely(gossip_run(v, es.take(i)), es[i])
    } by {
        lemma_gossip_prefix(v, es, i);
        assert(es.take(i + 1).drop_last() =~= es.take(i));
        lemma_gossip_step(gossip_run(v, es.take(i)), es[i]);
    }
    lemma_gossip_prefix(v, es, es.len() as int);
    assert(es.take(es.len() as int) =~= es);
}

/// The state over abstract values.
impl<N> View for Gossip<N> {
    type V = GossipView<N>;

    closed spec fn view(&self) -> GossipView<N> {
        GossipView {
            own_addr: self.own_addr,
            members: self.members.view(),
            waiting: self.waiting_to_add@.to_set(),
            state: self.state,
            about_to_join: self.about_to_join,
            queue: self.gossip_msgs@,
            info: self.info_msgs_to_send@,
            seeds: self.seed_nodes@,
        }
    }
}

impl<N> Gossip<N> {

    /// The member table and the waiting list hold each address once.
    spec fn tables_wf(&self) -> bool {
        self.members.wf() && self.waiting_to_add@.no_duplicates()
    }

    /// The tables are well formed, and outside joining nothing is held back
    /// and nobody waits for a welcome ([`gossip_inv`]).
    pub closed spec fn wf(&self) -> bool {
        self.tables_wf() && gossip_inv(self.view())
    }

    /// The state of a well-formed connector satisfies [`gossip_inv`].
    pub proof fn lemma_wf_inv(&self)
        requires
            self.wf(),
        ensures
            gossip_inv(self.view()),
    {
    }

    /// The members, in the order they were added.
    pub closed spec fn member_order(&self) -> Seq<SocketAddr> {
        self.members.keys_seq()
    }

    /// A lonely connector at `127.0.0.1:8000` without seed nodes.
    pub fn default() -> (r: Gossip<N>)
        ensures
            r.wf(),
            r.view().own_addr == local_8000(),
            r.view().members == Map::<SocketAddr, N>::empty(),
            r.view().waiting == Set::<SocketAddr>::empty(),
            r.view().state == GossipState::Lonely,
            r.view().about_to_join is None,
            r.view().queue == Seq::<GossipMessage>::empty(),
            r.view().info == Seq::<Node<N>>::empty(),
            r.view().seeds == Seq::<SocketAddr>::empty(),
    {
        Gossip::new(default_local_addr(), Vec::new())
    }

    /// A lonely connector at `own_addr` that joins through `seed_nodes`.
    pub fn new(own_addr: SocketAddr, seed_nodes: Vec<SocketAddr>) -> (r: Gossip<N>)
        ensures
            r.wf(),
            r.view().own_addr == own_addr,
            r.view().members == Map::<SocketAddr, N>::empty(),
            r.view().waiting == Set::<SocketAddr>::empty(),
            r.view().state == GossipState::Lonely,
            r.view().about_to_join is None,
            r.view().queue == Seq::<GossipMessage>::empty(),
            r.view().info == Seq::<Node<N>>::empty(),
            r.view().seeds == seed_nodes@,
    {
        let r = Gossip {
            own_addr,
            members: AddrMap::new(),
            waiting_to_add: Vec::new(),
            state: GossipState::Lonely,
            about_to_join: None,
            gossip_msgs: Vec::new(),
            info_msgs_to_send: Vec::new(),
            seed_nodes,
        };
        assert(r.waiting_to_add@.to_set() =~= Set::<SocketAddr>::empty());
        r
    }

    /// The address of this node.
    pub fn get_own_addr(&self) -> (r: SocketAddr)
        ensures
            r == self.view().own_addr,
    {
        self.own_addr
    }

    /// Where the node stands in joining.
    pub fn state(&self) -> (r: GossipState)
        ensures
            r == self.view().state,
    {
        self.state
    }

    /// The member table.
    pub fn get_member_map(&self) -> (r: &AddrMap<N>)
        requires
            self.wf(),
        ensures
            r.wf(),
            r.view() == self.view().members,
    {
        &self.members
    }

    /// Whether every member has seen an event.
    fn all_seen(&self, seen: &Vec<SocketAddr>) -> (r: bool)
        requires
            self.tables_wf(),
        ensures
            r == all_seen(self.view(), seen@.to_set()),
    {
        let n = self.members.len();
        let mut i: usize = 0;
        while i < n
            invariant
                self.tables_wf(),
                n == self.members.keys_seq().len(),
                i <= n,
                forall|j: int| 0 <= j < i ==> seen@.contains(#[trigger] self.members.keys_seq()[j]),
            decreases n - i,
        {
            let (k, _) = self.members.entry_at(i);
            if !contains_addr(seen, k) {
                return false;
            }
            i = i + 1;
        }
        proof {
            assert forall|x: SocketAddr| self.members.view().dom().contains(x) implies seen@.to_set().contains(x) by {
                let j = choose|j: int| 0 <= j < self.members.keys_seq().len() && self.members.keys_seq()[j] == x;
                assert(seen@.contains(self.members.keys_seq()[j]));
            }
        }
        true
    }

    /// Whether every seed node is a member.
    fn seed_nodes_already_members(&self) -> (r: bool)
        requires
            self.tables_wf(),
        ensures
            r == seeds_are_members(self.view()),
    {
        let mut i: usize = 0;
        while i < self.seed_nodes.len()
            invariant
                self.tables_wf(),
                i <= self.seed_nodes@.len(),
                forall|j: int| 0 <= j < i ==> self.members.view().dom().contains(#[trigger] self.seed_nodes@[j]),
            decreases self.seed_nodes@.len() - i,
        {
            if !self.members.contains_key(&self.seed_nodes[i]) {
                assert(!self.view().members.dom().contains(self.view().seeds[i as int]));
                return false;
            }
            i = i + 1;
        }
        true
    }
}

impl<N: Clone> Gossip<N> {
    /// Passes an event on to up to three random members outside `seen`.
    fn gossip_member_event(&self, addr: SocketAddr, event: GossipEvent, seen: Vec<SocketAddr>) -> (r: ConnectorAction<N>)
        requires
            self.tables_wf(),
        ensures
            action_fits(r, ActionSpec::Gossip { event, addr, seen: seen@.to_set(), pool: self.view().members }),
    {
        let recipients = choose_random_members(&self.members, GOSSIP_FANOUT, &seen);
        ConnectorAction::Gossip { message: GossipMessage { event, addr, seen }, recipients }
    }

    /// Spreads the joining of `new_addr`, seen by this node and the new one.
    fn ignite_member_up(&self, new_addr: SocketAddr) -> (r: ConnectorAction<N>)
        requires
            self.tables_wf(),
        ensures
            action_fits(
                r,
                ActionSpec::Gossip {
                    event: GossipEvent::Join,
                    addr: new_addr,
                    seen: pair_set(self.view().own_addr, new_addr),
                    pool: self.view().members,
                },
            ),
    {
        let mut seen: Vec<SocketAddr> = Vec::new();
        proof {
            lemma_to_set_empty(seen@);
            lemma_to_set_push(seen@, self.own_addr);
        }
        seen.push(self.own_addr);
        if new_addr != self.own_addr {
            proof {
                lemma_to_set_push(seen@, new_addr);
            }
            seen.push(new_addr);
        }
        assert(seen@.to_set() =~= pair_set(self.own_addr, new_addr));
        self.gossip_member_event(new_addr, GossipEvent::Join, seen)
    }

    /// Spreads the leaving of `leaving_addr`, seen by this node.
    fn ignite_member_down(&self, leaving_addr: SocketAddr) -> (r: ConnectorAction<N>)
        requires
            self.tables_wf(),
        ensures
            action_fits(
                r,
                ActionSpec::Gossip {
                    event: GossipEvent::Leave,
                    addr: leaving_addr,
                    seen: Set::empty().insert(self.view().own_addr),
                    pool: self.view().members,
                },
            ),
    {
        let mut seen: Vec<SocketAddr> = Vec::new();
        proof {
            lemma_to_set_empty(seen@);
            lemma_to_set_push(seen@, self.own_addr);
        }
        seen.push(self.own_addr);
        assert(seen@.to_set() =~= Set::empty().insert(self.own_addr));
        self.gossip_member_event(leaving_addr, GossipEvent::Leave, seen)
    }

    /// Notes that a connection to `addr` was asked for.
    fn connect_to_node(&mut self, addr: SocketAddr)
        requires
            old(self).tables_wf(),
        ensures
            final(self).tables_wf(),
            final(self).view() == (GossipView { waiting: old(self).view().waiting.insert(addr), ..old(self).view() }),
    {
        if !contains_addr(&self.waiting_to_add, &addr) {
            proof {
                lemma_to_set_push(self.waiting_to_add@, addr);
            }
            self.waiting_to_add.push(addr);
            proof {
                assert(self.waiting_to_add@.drop_last() == old(self).waiting_to_add@);
            }
        }
        assert(self.waiting_to_add@.to_set() =~= old(self).waiting_to_add@.to_set().insert(addr));
    }

    /// Takes `addr` off the waiting list; whether it was on it.
    fn remove_waiting(&mut self, addr: &SocketAddr) -> (r: bool)
        requires
            old(self).tables_wf(),
        ensures
            final(self).tables_wf(),
            r == old(self).view().waiting.contains(*addr),
            final(self).view() == (GossipView { waiting: old(self).view().waiting.remove(*addr), ..old(self).view() }),
    {
        let mut i: usize = 0;
        while i < self.waiting_to_add.len()
            invariant
                *self == *old(self),
                self.tables_wf(),
                i <= self.waiting_to_add@.len(),
                forall|j: int| 0 <= j < i ==> self.waiting_to_add@[j] != *addr,
            decreases self.waiting_to_add@.len() - i,
        {
            if self.waiting_to_add[i] == *addr {
                let ghost w = self.waiting_to_add@;
                assert(w.no_duplicates());
                self.waiting_to_add.remove(i);
                proof {
                    let r = self.waiting_to_add@;
                    assert(r =~= w.subrange(0, i as int) + w.subrange(i + 1, w.len() as int));
                    assert forall|a: int, b: int| 0 <= a < b < r.len() implies r[a] != r[b] by {
                        let ia = if a < i { a } else { a + 1 };
                        let ib = if b < i { b } else { b + 1 };
                        assert(r[a] == w[ia]);
                        assert(r[b] == w[ib]);
                        assert(ia != ib);
                    }
                    assert forall|x: SocketAddr| r.contains(x) <==> w.to_set().remove(*addr).contains(x) by {
                        if r.contains(x) {
                            let k = choose|k: int| 0 <= k < r.len() && r[k] == x;
                            let wk = if k < i { k } else { k + 1 };
                            assert(w[wk] == x);
                            assert(wk != i);
                            assert(w[wk] != w[i as int]);
                        }
                        if w.to_set().remove(*addr).contains(x) {
                            let k = choose|k: int| 0 <= k < w.len() && w[k] == x;
                            assert(k != i);
                            if k < i {
                                assert(r[k] == x);
                            } else {
                                assert(r[k - 1] == x);
                            }
                        }
                    }
                    assert(r.to_set() =~= w.to_set().remove(*addr));
                }
                return true;
            }
            i = i + 1;
        }
        assert(self.waiting_to_add@.to_set() =~= self.waiting_to_add@.to_set().remove(*addr));
        false
    }

    /// Handles a gossip message as a member; see [`msg_effect`].
    fn apply_gossip_message(&mut self, msg: GossipMessage) -> (r: Vec<ConnectorAction<N>>)
        requires
            old(self).tables_wf(),
        ensures
            final(self).tables_wf(),
            final(self).view() == msg_effect(old(self).view(), msg).0,
            actions_fit(r@, msg_effect(old(self).view(), msg).1),
    {
        let ghost m = msg;
        let all = self.all_seen(&msg.seen);
        let GossipMessage { event, addr, seen } = msg;
        let mut seen = seen;
        let known = self.members.contains_key(&addr);
        if !contains_addr(&seen, &self.own_addr) {
            proof {
                lemma_to_set_push(seen@, self.own_addr);
            }
            seen.push(self.own_addr);
            assert(seen@.drop_last() == m.seen@);
        }
        assert(seen@.to_set() =~= m.seen_set().insert(self.own_addr));
        let mut acts: Vec<ConnectorAction<N>> = Vec::new();
        match event {
            GossipEvent::Join => {
                if known && all {
                    assert(acts@ =~= Seq::<ConnectorAction<N>>::empty());
                    return acts;
                }
                if !known {
                    self.connect_to_node(addr);
                    acts.push(ConnectorAction::ConnectToNode(addr));
                }
                let g = self.gossip_member_event(addr, event, seen);
                acts.push(g);
            },
            GossipEvent::Leave => {
                if !known && all {
                    assert(acts@ =~= Seq::<ConnectorAction<N>>::empty());
                    return acts;
                }
                if known {
                    let _gone = self.members.remove(&addr);
                } else {
                    assert(old(self).view().members.remove(addr) =~= old(self).view().members);
                }
                let g = self.gossip_member_event(addr, event, seen);
                acts.push(g);
            },
        }
        acts
    }

    /// Handles all held-back messages, the last one first.
    fn handle_gossip_queue(&mut self) -> (r: Vec<ConnectorAction<N>>)
        requires
            old(self).tables_wf(),
        ensures
            final(self).tables_wf(),
            final(self).view() == process_queue(
                GossipView { queue: Seq::empty(), ..old(self).view() },
                old(self).view().queue,
            ).0,
            actions_fit(
                r@,
                process_queue(GossipView { queue: Seq::empty(), ..old(self).view() }, old(self).view().queue).1,
            ),
    {
        let mut q: Vec<GossipMessage> = Vec::new();
        std::mem::swap(&mut q, &mut self.gossip_msgs);
        let ghost v0 = self.view();
        let ghost q0 = q@;
        assert(v0 == GossipView { queue: Seq::<GossipMessage>::empty(), ..old(self).view() });
        let mut acts: Vec<ConnectorAction<N>> = Vec::new();
        let ghost mut acc: Seq<ActionSpec<N>> = Seq::empty();
        while q.len() > 0
            invariant
                self.tables_wf(),
                self.view().queue == Seq::<GossipMessage>::empty(),
                process_queue(v0, q0) == (
                    process_queue(self.view(), q@).0,
                    acc + process_queue(self.view(), q@).1,
                ),
                actions_fit(acts@, acc),
            decreases q@.len(),
        {
            let ghost before = self.view();
            let ghost qb = q@;
            let m = q.pop().unwrap();
            assert(qb.last() == m);
            assert(qb.drop_last() == q@);
            let mut a = self.apply_gossip_message(m);
            proof {
                let (v1, a1) = msg_effect(before, m);
                assert(v1.queue == before.queue);
                lemma_actions_fit_concat(acts@, acc, a@, a1);
                assert(acc + (a1 + process_queue(v1, q@).1) =~= (acc + a1) + process_queue(v1, q@).1);
                acc = acc + a1;
            }
            acts.append(&mut a);
        }
        assert(acc + process_queue(self.view(), q@).1 =~= acc);
        acts
    }

    /// Tells a node that joined through this one how many members there are,
    /// and spreads the news of its joining.
    fn share_info_with_joining_member(&self, node: Node<N>) -> (r: Vec<ConnectorAction<N>>)
        requires
            self.tables_wf(),
        ensures
            actions_fit(r@, share_one(self.view(), node)),
    {
        let to = node.get_remote_addr(CONNECTOR_ACTOR_ID.to_owned());
        let about = self.members.len();
        let mut acts: Vec<ConnectorAction<N>> = Vec::new();
        acts.push(ConnectorAction::Joining { to, joining: GossipJoining { about_to_join: about } });
        let g = self.ignite_member_up(node.socket_addr);
        acts.push(g);
        acts
    }

    /// Shares with every node that joined while this one was joining, the last
    /// one first.
    fn share_info_with_joining_members(&mut self) -> (r: Vec<ConnectorAction<N>>)
        requires
            old(self).tables_wf(),
        ensures
            final(self).tables_wf(),
            final(self).view() == (GossipView { info: Seq::empty(), ..old(self).view() }),
            actions_fit(r@, share_all(old(self).view(), old(self).view().info)),
    {
        let mut infos: Vec<Node<N>> = Vec::new();
        std::mem::swap(&mut infos, &mut self.info_msgs_to_send);
        let ghost v0 = old(self).view();
        let ghost i0 = infos@;
        let mut acts: Vec<ConnectorAction<N>> = Vec::new();
        let ghost mut acc: Seq<ActionSpec<N>> = Seq::empty();
        while infos.len() > 0
            invariant
                self.tables_wf(),
                self.view() == (GossipView { info: Seq::empty(), ..v0 }),
                share_all(v0, i0) == acc + share_all(v0, infos@),
                actions_fit(acts@, acc),
            decreases infos@.len(),
        {
            let ghost ib = infos@;
            let node = infos.pop().unwrap();
            assert(ib.last() == node);
            assert(ib.drop_last() == infos@);
            let mut a = self.share_info_with_joining_member(node);
            proof {
                let a1 = share_one(v0, node);
                assert(share_one(self.view(), node) == a1);
                lemma_actions_fit_concat(acts@, acc, a@, a1);
                assert(acc + (a1 + share_all(v0, infos@)) =~= (acc + a1) + share_all(v0, infos@));
                acc = acc + a1;
            }
            acts.append(&mut a);
        }
        assert(acc + share_all(v0, infos@) =~= acc);
        acts
    }

    /// Moves to a new state; becoming a full member handles the held-back
    /// messages and welcomes the nodes that joined meanwhile.
    fn change_state(&mut self, state: GossipState) -> (r: Vec<ConnectorAction<N>>)
        requires
            old(self).tables_wf(),
        ensures
            final(self).tables_wf(),
            state == GossipState::Joined ==> final(self).view() == become_joined(old(self).view()).0
                && actions_fit(r@, become_joined(old(self).view()).1),
            state != GossipState::Joined ==> final(self).view() == (GossipView { state, ..old(self).view() })
                && r@.len() == 0,
    {
        self.state = state;
        match state {
            GossipState::Joined => {
                let ghost v1 = self.view();
                let mut a = self.handle_gossip_queue();
                let ghost v2 = self.view();
                let mut b = self.share_info_with_joining_members();
                proof {
                    let (w2, a2) = process_queue(GossipView { queue: Seq::empty(), ..v1 }, v1.queue);
                    assert(v2 == w2);
                    lemma_process_queue_frame(GossipView { queue: Seq::empty(), ..v1 }, v1.queue);
                    assert(v2.info == old(self).view().info);
                    lemma_actions_fit_concat(a@, a2, b@, share_all(v2, v2.info));
                }
                a.append(&mut b);
                a
            },
            _ => Vec::new(),
        }
    }

    /// A gossip message arrives; see [`on_gossip_message`]. A lonely node
    /// handles it as a member would.
    pub fn handle_gossip_message(&mut self, msg: GossipMessage) -> (r: Vec<ConnectorAction<N>>)
        requires
            old(self).wf(),
        ensures
            final(self).wf(),
            final(self).view() == on_gossip_message(old(self).view(), msg).0,
            actions_fit(r@, on_gossip_message(old(self).view(), msg).1),
            passes_on(old(self).view(), msg) ==> r@.len() == 1 && (r@[0] matches ConnectorAction::Gossip { message, .. }
                && message.event == msg.event && message.addr == msg.addr && message.seen_set() == msg.seen_set().insert(
                old(self).view().own_addr,
            )),
    {
        let ghost v = self.view();
        let ghost m = msg;
        let r = match self.state {
            GossipState::Joining => {
                self.gossip_msgs.push(msg);
                let r: Vec<ConnectorAction<N>> = Vec::new();
                assert(r@ =~= Seq::<ConnectorAction<N>>::empty());
                r
            },
            _ => self.apply_gossip_message(msg),
        };
        proof {
            lemma_gossip_inv_kept(v, m, 0, arbitrary(), false, arbitrary(), arbitrary(), arbitrary(), arbitrary());
            if passes_on(v, m) {
                if m.event == GossipEvent::Join {
                    lemma_known_join_passed_on(v, m);
                } else {
                    lemma_unknown_leave_passed_on(v, m);
                }
                assert(action_fits(r@[0], on_gossip_message(v, m).1[0]));
            }
        }
        r
    }

    /// A joining node learns how many members to expect; see
    /// [`on_gossip_joining`].
    pub fn handle_gossip_joining(&mut self, msg: GossipJoining) -> (r: Vec<ConnectorAction<N>>)
        requires
            old(self).wf(),
        ensures
            final(self).wf(),
            final(self).view() == on_gossip_joining(old(self).view(), msg.about_to_join).0,
            actions_fit(r@, on_gossip_joining(old(self).view(), msg.about_to_join).1),
            old(self).view().state == GossipState::Joining ==> (final(self).view().state == GossipState::Joined
                <==> msg.about_to_join <= old(self).view().members.dom().len()),
            old(self).view().state == GossipState::Joining && msg.about_to_join <= old(self).view().members.dom().len()
                ==> forall|j: int|
                0 <= j < old(self).view().info.len() ==> exists|i: int|
                    0 <= i < r@.len() && (#[trigger] r@[i]) is Joining && r@[i]->Joining_to.node.socket_addr == (
                    #[trigger] old(self).view().info[j]).socket_addr,
    {
        let ghost v = self.view();
        proof {
            if v.state == GossipState::Joining {
                lemma_joining_count_decides(v, msg.about_to_join);
            }
            lemma_gossip_inv_kept(v, arbitrary(), msg.about_to_join, arbitrary(), false, arbitrary(), arbitrary(), arbitrary(), arbitrary());
        }
        let n = msg.about_to_join;
        let r = match self.state {
            GossipState::Joining => {
                self.about_to_join = Some(msg.about_to_join);
                if msg.about_to_join <= self.members.len() {
                    self.change_state(GossipState::Joined)
                } else {
                    let r: Vec<ConnectorAction<N>> = Vec::new();
                    assert(r@ =~= Seq::<ConnectorAction<N>>::empty());
                    r
                }
            },
            _ => {
                let r: Vec<ConnectorAction<N>> = Vec::new();
                assert(r@ =~= Seq::<ConnectorAction<N>>::empty());
                r
            },
        };
        proof {
            if v.state == GossipState::Joining && n <= v.members.dom().len() {
                lemma_joining_count_welcomes_waiting(v, n);
                let specs = on_gossip_joining(v, n).1;
                assert forall|j: int| 0 <= j < v.info.len() implies exists|i: int|
                    0 <= i < r@.len() && (#[trigger] r@[i]) is Joining && r@[i]->Joining_to.node.socket_addr == (
                    #[trigger] v.info[j]).socket_addr by {
                    assert(welcomes(specs, v.info[j]));
                    let i = choose|i: int| 0 <= i < specs.len() && (#[trigger] specs[i]) is Joining && specs[i]->Joining_node == v.info[j];
                    assert(action_fits(r@[i], specs[i]));
                }
            }
        }
        r
    }

    /// A connection came up or went down; see [`on_member_up`] and
    /// [`on_member_down`]. A node that comes up must come with its handle.
    pub fn handle_node_event(&mut self, msg: NodeEvents<N>) -> (r: Vec<ConnectorAction<N>>)
        requires
            old(self).wf(),
            msg matches NodeEvents::MemberUp(node, _) ==> node.network_interface is Some,
        ensures
            final(self).wf(),
            match msg {
                NodeEvents::MemberUp(node, seed) => exists|later: Node<N>|
                    {
                        &&& later.socket_addr == node.socket_addr
                        &&& handle_cloned(node.network_interface, later.network_interface)
                        &&& final(self).view() == on_member_up(old(self).view(), node, seed, later).0
                        &&& actions_fit(r@, on_member_up(old(self).view(), node, seed, later).1)
                    },
                NodeEvents::MemberDown(addr) => final(self).view() == on_member_down(old(self).view(), addr).0
                    && actions_fit(r@, on_member_down(old(self).view(), addr).1),
            },
            msg is MemberUp && !msg->MemberUp_1 && old(self).view().state == GossipState::Lonely
                && !old(self).view().waiting.contains(msg->MemberUp_0.socket_addr) ==> final(self).view().state
                == GossipState::Joining && final(self).view().info == old(self).view().info && r@.len() == 0,
            msg is MemberUp && msg->MemberUp_1 && old(self).view().state == GossipState::Joining
                && !old(self).view().waiting.contains(msg->MemberUp_0.socket_addr) ==> welcomed_later(
                old(self).view(),
                final(self).view(),
                r@,
                msg->MemberUp_0.socket_addr,
            ),
    {
        match msg {
            NodeEvents::MemberUp(node, seed) => {
                let ghost v = self.view();
                let ghost node0 = node;
                let Node { socket_addr, network_interface } = node;
                let handle = network_interface.unwrap();
                let later = Node::new(socket_addr, Some(handle.clone()));
                let ghost later0 = later;
                self.members.insert(socket_addr, handle);
                let ghost v1 = self.view();
                assert(v1 == GossipView { members: v.members.insert(node0.socket_addr, node0.network_interface->Some_0), ..v });
                let mut acts: Vec<ConnectorAction<N>> = Vec::new();
                if !self.remove_waiting(&socket_addr) {
                    assert(self.view().waiting =~= v1.waiting);
                    assert(self.view() == v1);
                    match self.state {
                        GossipState::Lonely => {
                            if seed {
                                if self.seed_nodes_already_members() {
                                    let mut a = self.change_state(GossipState::Joined);
                                    let ghost v2 = self.view();
                                    let mut b = self.share_info_with_joining_member(later);
                                    proof {
                                        lemma_actions_fit_concat(a@, become_joined(v1).1, b@, share_one(v2, later0));
                                    }
                                    a.append(&mut b);
                                    acts = a;
                                } else {
                                    let _none = self.change_state(GossipState::Joining);
                                    self.info_msgs_to_send.push(later);
                                }
                            } else {
                                let _none = self.change_state(GossipState::Joining);
                            }
                        },
                        GossipState::Joining => {
                            if seed {
                                self.info_msgs_to_send.push(later);
                            }
                            if let Some(about_to_join) = self.about_to_join {
                                if about_to_join == self.members.len() {
                                    acts = self.change_state(GossipState::Joined);
                                }
                            }
                        },
                        GossipState::Joined => {
                            if seed {
                                acts = self.share_info_with_joining_member(later);
                            }
                        },
                    }
                }
                assert(acts@.len() == 0 ==> acts@ =~= Seq::<ConnectorAction<N>>::empty());
                assert(later0.socket_addr == node0.socket_addr);
                assert(handle_cloned(node0.network_interface, later0.network_interface));
                assert(self.view() == on_member_up(v, node0, seed, later0).0);
                assert(actions_fit(acts@, on_member_up(v, node0, seed, later0).1));
                proof {
                    lemma_gossip_inv_kept(v, arbitrary(), 0, node0, seed, later0, arbitrary(), arbitrary(), arbitrary());
                    if !v.waiting.contains(node0.socket_addr) {
                        if !seed && v.state == GossipState::Lonely {
                            lemma_lonely_non_seed_up(v, node0, later0);
                        }
                        if seed && v.state == GossipState::Joining {
                            lemma_joining_seed_up_welcomed(v, node0, later0);
                            let specs = on_member_up(v, node0, seed, later0).1;
                            if self.view().state == GossipState::Joined {
                                let i = choose|i: int| 0 <= i < specs.len() && (#[trigger] specs[i]) is Joining
                                    && specs[i]->Joining_node == later0;
                                assert(action_fits(acts@[i], specs[i]));
                            }
                        }
                    }
                }
                acts
            },
            NodeEvents::MemberDown(host) => {
                proof {
                    lemma_gossip_inv_kept(self.view(), arbitrary(), 0, arbitrary(), false, arbitrary(), host, arbitrary(), arbitrary());
                }
                let _gone = self.members.remove(&host);
                let g = self.ignite_member_down(host);
                let mut acts: Vec<ConnectorAction<N>> = Vec::new();
                acts.push(g);
                acts
            },
        }
    }
}

} // verus!
