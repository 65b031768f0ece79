use vstd::prelude::*;
use crate::socket_addr::SocketAddr;
use crate::remote::{Node, RemoteAddr, handle_cloned};
use crate::addr_map::AddrMap;

verus! {

/// How many members a membership event is passed on to.
pub const GOSSIP_FANOUT: usize = 3;

/// The name under which the connector actor registers itself on every node.
pub const CONNECTOR_ACTOR_ID: &'static str = "Connector";

/// A node joins or leaves the cluster.
#[derive(Clone, Copy, Debug, PartialEq, Eq, Structural)]
pub enum GossipEvent {
    Join,
    Leave,
}

/// A membership event passed from member to member, with the members that have
/// already seen it.
#[derive(Debug)]
pub struct GossipMessage {
    pub event: GossipEvent,
    pub addr: SocketAddr,
    pub seen: Vec<SocketAddr>,
}

impl GossipMessage {
    /// The members that have seen the event, as a set.
    pub open spec fn seen_set(self) -> Set<SocketAddr> {
        self.seen@.to_set()
    }
}

/// Tells a joining node how many members it is about to know.
#[derive(Debug, Clone, Copy)]
pub struct GossipJoining {
    pub about_to_join: usize,
}

/// The members a seed node knows, sent to a node that joined through it.
#[derive(Debug)]
pub struct SingleSeedMembers(pub Vec<SocketAddr>);

/// A connection to a node came up (with whether this node is its seed or it is
/// ours), or went down.
#[derive(Debug)]
pub enum NodeEvents<N> {
    MemberUp(Node<N>, bool),
    MemberDown(SocketAddr),
}

/// A request for the handles of the given members.
#[derive(Debug)]
pub struct NodeResolving {
    pub addrs: Vec<SocketAddr>,
}

/// What a connector asks its surroundings to do after an event.
#[derive(Debug)]
pub enum ConnectorAction<N> {
    /// Send the message to each of the recipients.
    Gossip { message: GossipMessage, recipients: Vec<RemoteAddr<N>> },
    /// Open a connection to the node at this address.
    ConnectToNode(SocketAddr),
    /// Tell a joining node how many members to expect.
    Joining { to: RemoteAddr<N>, joining: GossipJoining },
    /// Tell a node which other members the seed knows.
    Members { to: RemoteAddr<N>, members: SingleSeedMembers },
}

/// An action over abstract values, with the random choice of recipients left
/// open: a gossip action names the members it may be sent to.
pub enum ActionSpec<N> {
    Gossip { event: GossipEvent, addr: SocketAddr, seen: Set<SocketAddr>, pool: Map<SocketAddr, N> },
    Connect { addr: SocketAddr },
    Joining { node: Node<N>, about_to_join: int },
    Members { to: SocketAddr, handle: N, members: Set<SocketAddr> },
}

/// The smaller of two numbers.
pub open spec fn min_nat(a: int, b: int) -> int {
    if a < b {
        a
    } else {
        b
    }
}

/// `rs` are as many members of `pool` outside `except` as `amount` allows, none
/// twice, each addressed to its connector through a clone of its handle.
pub open spec fn recipients_valid<N: Clone>(
    rs: Seq<RemoteAddr<N>>,
    pool: Map<SocketAddr, N>,
    except: Set<SocketAddr>,
    amount: int,
) -> bool {
    &&& rs.len() == min_nat(amount, pool.dom().difference(except).len() as int)
    &&& forall|i: int|
        0 <= i < rs.len() ==> {
            &&& pool.dom().contains(#[trigger] rs[i].node.socket_addr)
            &&& !except.contains(rs[i].node.socket_addr)
            &&& rs[i].id is Connector
            &&& handle_cloned(Some(pool[rs[i].node.socket_addr]), rs[i].node.network_interface)
        }
    &&& forall|i: int, j: int|
        0 <= i < j < rs.len() ==> rs[i].node.socket_addr != rs[j].node.socket_addr
}

/// An action carries out an abstract one.
pub open spec fn action_fits<N: Clone>(a: ConnectorAction<N>, s: ActionSpec<N>) -> bool {
    match s {
        ActionSpec::Gossip { event, addr, seen, pool } => a matches ConnectorAction::Gossip {
            message,
            recipients,
        } && message.event == event && message.addr == addr && message.seen_set() == seen
            && recipients_valid(recipients@, pool, seen, GOSSIP_FANOUT as int),
        ActionSpec::Connect { addr } => a == ConnectorAction::<N>::ConnectToNode(addr),
        ActionSpec::Joining { node, about_to_join } => a matches ConnectorAction::Joining {
            to,
            joining,
        } && to.node.socket_addr == node.socket_addr && handle_cloned(
            node.network_interface,
            to.node.network_interface,
        ) && to.id is Key && to.id->Key_0@ == CONNECTOR_ACTOR_ID@ && joining.about_to_join
            == about_to_join,
        ActionSpec::Members { to: to_addr, handle, members } => a matches ConnectorAction::Members {
            to,
            members: sent,
        } && to.node.socket_addr == to_addr && handle_cloned(Some(handle), to.node.network_interface)
            && to.id is Connector && sent.0@.to_set() == members && sent.0@.no_duplicates(),
    }
}

/// A list of actions carries out a list of abstract ones, in order.
pub open spec fn actions_fit<N: Clone>(a: Seq<ConnectorAction<N>>, s: Seq<ActionSpec<N>>) -> bool {
    a.len() == s.len() && forall|i: int| 0 <= i < a.len() ==> action_fits(#[trigger] a[i], s[i])
}

/// Concatenating fitting lists fits the concatenation.
pub proof fn lemma_actions_fit_concat<N: Clone>(
    a1: Seq<ConnectorAction<N>>,
    s1: Seq<ActionSpec<N>>,
    a2: Seq<ConnectorAction<N>>,
    s2: Seq<ActionSpec<N>>,
)
    requires
        actions_fit(a1, s1),
        actions_fit(a2, s2),
    ensures
        actions_fit(a1 + a2, s1 + s2),
{
    assert forall|i: int| 0 <= i < (a1 + a2).len() implies action_fits(#[trigger] (a1 + a2)[i], (s1 + s2)[i]) by {
        if i < a1.len() {
            assert((a1 + a2)[i] == a1[i]);
        } else {
            assert((a1 + a2)[i] == a2[i - a1.len()]);
        }
    }
}

/// Appending to a list adds the item to its set.
pub proof fn lemma_to_set_push<A>(s: Seq<A>, x: A)
    ensures
        s.push(x).to_set() == s.to_set().insert(x),
{
    assert forall|y: A| s.push(x).contains(y) <==> s.to_set().insert(x).contains(y) by {
        if s.push(x).contains(y) {
            let k = choose|k: int| 0 <= k < s.push(x).len() && s.push(x)[k] == y;
            if k < s.len() {
                assert(s[k] == y);
            }
        }
        if s.contains(y) {
            let k = choose|k: int| 0 <= k < s.len() && s[k] == y;
            assert(s.push(x)[k] == y);
        }
        if y == x {
            assert(s.push(x)[s.len() as int] == y);
        }
    }
    assert(s.push(x).to_set() =~= s.to_set().insert(x));
}

/// The empty list has the empty set.
pub proof fn lemma_to_set_empty<A>(s: Seq<A>)
    requires
        s.len() == 0,
    ensures
        s.to_set() == Set::<A>::empty(),
{
    assert(s.to_set() =~= Set::<A>::empty());
}

/// Whether an address is in a list.
pub fn contains_addr(v: &Vec<SocketAddr>, x: &SocketAddr) -> (r: bool)
    ensures
        r == v@.contains(*x),
{
    let mut i: usize = 0;
    while i < v.len()
        invariant
            i <= v@.len(),
            forall|j: int| 0 <= j < i ==> v@[j] != *x,
        decreases v@.len() - i,
    {
        if v[i] == *x {
            return true;
        }
        i = i + 1;
    }
    false
}

/// Up to `amount` distinct positions below `n`, chosen at random.
///
/// Wraps `rand::seq::IteratorRandom::choose_multiple` on the range `0..n` with
/// the thread-local generator. Its reservoir takes each item of the range at
/// most once, so the positions are distinct and below `n`; the documentation
/// gives the length: `amount`, or `n` when the range has fewer items. Which
/// positions come back, and in which order, is left to chance and not stated.
#[verifier::external_body]
fn choose_indices(n: usize, amount: usize) -> (r: Vec<usize>)
    ensures
        r@.len() == min_nat(amount as int, n as int),
        forall|i: int| 0 <= i < r@.len() ==> r@[i] < n,
        forall|i: int, j: int| 0 <= i < j < r@.len() ==> r@[i] != r@[j],
{
    let mut rng = rand::rngs::ThreadRng::default();
    rand::seq::IteratorRandom::choose_multiple(0..n, &mut rng, amount)
}

/// Up to `amount` members outside `except`, chosen at random, each addressed to
/// its connector.
pub fn choose_random_members<N: Clone>(
    members: &AddrMap<N>,
    amount: usize,
    except: &Vec<SocketAddr>,
) -> (r: Vec<RemoteAddr<N>>)
    requires
        members.wf(),
    ensures
        recipients_valid(r@, members.view(), except@.to_set(), amount as int),
{
    let n = members.len();
    let mut cand: Vec<usize> = Vec::new();
    let ghost keys = members.keys_seq();
    let mut i: usize = 0;
    while i < n
        invariant
            members.wf(),
            n == keys.len(),
            keys == members.keys_seq(),
            i <= n,
            forall|j: int| 0 <= j < cand@.len() ==> cand@[j] < i,
            forall|j: int, k: int| 0 <= j < k < cand@.len() ==> cand@[j] < cand@[k],
            forall|j: int| 0 <= j < cand@.len() ==> !except@.contains(#[trigger] keys[cand@[j] as int]),
            forall|x: SocketAddr|
                (exists|j: int| 0 <= j < cand@.len() && keys[cand@[j] as int] == x) <==> (
                keys.take(i as int).contains(x) && !except@.contains(x)),
        decreases n - i,
    {
        let (k, _) = members.entry_at(i);
        if !contains_addr(except, k) {
            let ghost old_cand = cand@;
            cand.push(i);
            proof {
                assert forall|x: SocketAddr|
                    (exists|j: int| 0 <= j < cand@.len() && keys[cand@[j] as int] == x) <==> (
                    keys.take(i + 1).contains(x) && !except@.contains(x)) by {
                    let t = keys.take(i + 1);
                    if t.contains(x) && !except@.contains(x) {
                        let w = choose|w: int| 0 <= w < t.len() && t[w] == x;
                        if w < i {
                            assert(keys.take(i as int)[w] == x);
                            let j = choose|j: int| 0 <= j < old_cand.len() && keys[old_cand[j] as int] == x;
                            assert(cand@[j] == old_cand[j]);
                        } else {
                            assert(keys[cand@[old_cand.len() as int] as int] == x);
                        }
                    }
                    if exists|j: int| 0 <= j < cand@.len() && keys[cand@[j] as int] == x {
                        let j = choose|j: int| 0 <= j < cand@.len() && keys[cand@[j] as int] == x;
                        if j < old_cand.len() {
                            assert(old_cand[j] == cand@[j]);
                            assert(keys.take(i as int).contains(x));
                            let t0 = keys.take(i as int);
                            let w = choose|w: int| 0 <= w < t0.len() && t0[w] == x;
                            assert(t[w] == x);
                        } else {
                            assert(t[i as int] == x);
                        }
                    }
                }
            }
        } else {
            proof {
                assert forall|x: SocketAddr|
                    (exists|j: int| 0 <= j < cand@.len() && keys[cand@[j] as int] == x) <==> (
                    keys.take(i + 1).contains(x) && !except@.contains(x)) by {
                    let t = keys.take(i + 1);
                    if t.contains(x) && !except@.contains(x) {
                        let w = choose|w: int| 0 <= w < t.len() && t[w] == x;
                        if w < i {
                            assert(keys.take(i as int)[w] == x);
                        } else {
                            assert(x == keys[i as int]);
                        }
                    }
                    if exists|j: int| 0 <= j < cand@.len() && keys[cand@[j] as int] == x {
                        let t0 = keys.take(i as int);
                        let w = choose|w: int| 0 <= w < t0.len() && t0[w] == x;
                        assert(t[w] == x);
                    }
                }
            }
        }
        i = i + 1;
    }
    // The candidates are the members outside `except`, each once.
    let ghost cand_keys = cand@.map_values(|c: usize| keys[c as int]);
    proof {
        assert(keys.take(n as int) =~= keys);
        assert forall|j: int, k: int| 0 <= j < cand_keys.len() && 0 <= k < cand_keys.len() && j != k
            implies cand_keys[j] != cand_keys[k] by {
            assert(cand@[j] != cand@[k]);
        }
        cand_keys.unique_seq_to_set();
        assert forall|x: SocketAddr| cand_keys.to_set().contains(x) <==> members.view().dom().difference(
            except@.to_set()).contains(x) by {
            if cand_keys.to_set().contains(x) {
                let j = choose|j: int| 0 <= j < cand_keys.len() && cand_keys[j] == x;
                assert(keys[cand@[j] as int] == x);
            }
            if members.view().dom().difference(except@.to_set()).contains(x) {
                let j = choose|j: int| 0 <= j < cand@.len() && keys[cand@[j] as int] == x;
                assert(cand_keys[j] == x);
            }
        }
        assert(cand_keys.to_set() =~= members.view().dom().difference(except@.to_set()));
    }
    let picks = choose_indices(cand.len(), amount);
    let mut out: Vec<RemoteAddr<N>> = Vec::new();
    let mut j: usize = 0;
    while j < picks.len()
        invariant
            members.wf(),
            keys == members.keys_seq(),
            n == keys.len(),
            j <= picks@.len(),
            out@.len() == j,
            forall|a: int| 0 <= a < cand@.len() ==> cand@[a] < n,
            forall|a: int| 0 <= a < cand@.len() ==> !except@.contains(#[trigger] keys[cand@[a] as int]),
            forall|a: int| 0 <= a < picks@.len() ==> picks@[a] < cand@.len(),
            forall|a: int| 0 <= a < j ==> #[trigger] out@[a].node.socket_addr == keys[cand@[picks@[a] as int] as int],
            forall|a: int|
                0 <= a < j ==> {
                    &&& members.view().dom().contains(#[trigger] out@[a].node.socket_addr)
                    &&& out@[a].id is Connector
                    &&& handle_cloned(
                        Some(members.view()[out@[a].node.socket_addr]),
                        out@[a].node.network_interface,
                    )
                },
        decreases picks@.len() - j,
    {
        let c = cand[picks[j]];
        let (k, h) = members.entry_at(c);
        let handle = h.clone();
        out.push(RemoteAddr::new_gossip(*k, Some(handle)));
        j = j + 1;
    }
    proof {
        assert forall|a: int, b: int| 0 <= a < b < out@.len() implies out@[a].node.socket_addr
            != out@[b].node.socket_addr by {
            let ca = cand@[picks@[a] as int];
            let cb = cand@[picks@[b] as int];
            assert(picks@[a] != picks@[b]);
            if picks@[a] < picks@[b] {
                assert(ca < cb);
            } else {
                assert(cb < ca);
            }
            assert(keys.no_duplicates());
        }
        assert forall|a: int| 0 <= a < out@.len() implies !except@.to_set().contains(
            #[trigger] out@[a].node.socket_addr) by {
            assert(!except@.contains(keys[cand@[picks@[a] as int] as int]));
        }
    }
    out
}

} // verus!
