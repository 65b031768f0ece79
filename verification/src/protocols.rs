use vstd::prelude::*;
use crate::remote::{AnyAddr, RemoteAddr, handle_cloned};

verus! {

/// The collective operations a protocol may run.
#[derive(Debug, Clone, Copy, PartialEq, Eq, Structural)]
pub enum ProtocolOperation {
    Reduce,
    AllReduce,
    Collect,
    AllCollect,
}

/// How the values of a reduction are combined.
#[derive(Debug, Clone, Copy, PartialEq, Eq, Structural)]
pub enum ReduceOperation {
    Sum,
    Product,
}

/// Told to the local recipient when a protocol has all its values.
#[derive(Debug)]
pub struct ProtocolFinished<V> {
    pub result: Option<V>,
    pub results: Vec<V>,
    pub protocol_id: String,
}

/// The values received so far for one run of a protocol.
pub struct ProtocolBuffer<V> {
    pub value_buffer: Vec<V>,
    pub protocol_operation: ProtocolOperation,
}

impl<V> ProtocolBuffer<V> {
    /// An empty buffer for an operation.
    pub fn new(protocol_operation: ProtocolOperation) -> (r: ProtocolBuffer<V>)
        ensures
            r.value_buffer@ == Seq::<V>::empty(),
            r.protocol_operation == protocol_operation,
    {
        ProtocolBuffer { value_buffer: Vec::new(), protocol_operation }
    }

    /// Adds a value at the end.
    pub fn push(&mut self, value: V)
        ensures
            final(self).value_buffer@ == old(self).value_buffer@.push(value),
            final(self).protocol_operation == old(self).protocol_operation,
    {
        self.value_buffer.push(value)
    }

    /// Whether exactly `n` values have arrived.
    pub fn all_received(&self, n: usize) -> (r: bool)
        ensures
            r == (self.value_buffer@.len() == n),
    {
        self.value_buffer.len() == n
    }
}

/// A value for run `id` arrives at buffers `b` of a cluster of `size` nodes:
/// it is added after the run's values, and when the run then has `size`
/// values it is closed and they are given back.
pub open spec fn receive_step<V>(b: Map<Seq<char>, Seq<V>>, size: nat, id: Seq<char>, value: V) -> (
    Map<Seq<char>, Seq<V>>,
    Option<Seq<V>>,
) {
    let values = if b.dom().contains(id) {
        b[id].push(value)
    } else {
        seq![value]
    };
    if values.len() == size {
        (b.remove(id), Some(values))
    } else {
        (b.insert(id, values), None)
    }
}

/// The buffers after the values for run `id` arrive first to last, and the
/// answer to each.
pub open spec fn receive_all<V>(b: Map<Seq<char>, Seq<V>>, size: nat, id: Seq<char>, vals: Seq<V>) -> (
    Map<Seq<char>, Seq<V>>,
    Seq<Option<Seq<V>>>,
)
    decreases vals.len(),
{
    if vals.len() == 0 {
        (b, Seq::empty())
    } else {
        let (b1, answers) = receive_all(b, size, id, vals.drop_last());
        let (b2, answer) = receive_step(b1, size, id, vals.last());
        (b2, answers.push(answer))
    }
}

proof fn lemma_receive_prefix<V>(b: Map<Seq<char>, Seq<V>>, size: nat, id: Seq<char>, vals: Seq<V>, k: int)
    requires
        !b.dom().contains(id),
        vals.len() == size,
        1 <= k < size,
    ensures
        receive_all(b, size, id, vals.take(k)).0 == b.insert(id, vals.take(k)),
        receive_all(b, size, id, vals.take(k)).1.len() == k,
        forall|j: int| 0 <= j < k ==> (#[trigger] receive_all(b, size, id, vals.take(k)).1[j]) is None,
    decreases k,
{
    let t = vals.take(k);
    assert(t.drop_last() =~= vals.take(k - 1));
    assert(t.last() == vals[k - 1]);
    let prev = receive_all(b, size, id, vals.take(k - 1));
    if k == 1 {
        assert(vals.take(0) =~= Seq::<V>::empty());
        assert(prev == (b, Seq::<Option<Seq<V>>>::empty()));
        assert(seq![vals[0]] =~= t);
        assert(receive_step(b, size, id, vals[0]) == (b.insert(id, seq![vals[0]]), Option::<Seq<V>>::None));
    } else {
        lemma_receive_prefix(b, size, id, vals, k - 1);
        let b1 = b.insert(id, vals.take(k - 1));
        assert(prev.0 == b1);
        assert(b1.dom().contains(id));
        assert(b1[id].push(vals[k - 1]) =~= t);
        assert(receive_step(b1, size, id, vals[k - 1]) == (b.insert(id, t), Option::<Seq<V>>::None)) by {
            assert(b1.insert(id, t) =~= b.insert(id, t));
        }
    }
    assert(receive_all(b, size, id, t) == (receive_step(prev.0, size, id, vals[k - 1]).0, prev.1.push(
        receive_step(prev.0, size, id, vals[k - 1]).1,
    )));
}

/// The values of a run arriving one after the other, the run having none
/// before and there being as many as the cluster has nodes (`size`): every
/// value but the last is answered with nothing, the last with all of them in
/// arrival order, and the run is closed, leaving the other runs as they were.
pub proof fn lemma_run_collects<V>(b: Map<Seq<char>, Seq<V>>, size: nat, id: Seq<char>, vals: Seq<V>)
    requires
        !b.dom().contains(id),
        vals.len() == size,
        size >= 1,
    ensures
        receive_all(b, size, id, vals).1.len() == size,
        forall|j: int| 0 <= j < size - 1 ==> (#[trigger] receive_all(b, size, id, vals).1[j]) is None,
        receive_all(b, size, id, vals).1[size - 1] == Some(vals),
        receive_all(b, size, id, vals).0 == b,
{
    let k = (size - 1) as int;
    assert(vals.drop_last() =~= vals.take(k));
    let prev = receive_all(b, size, id, vals.take(k));
    if k == 0 {
        assert(vals.take(0) =~= Seq::<V>::empty());
        assert(prev == (b, Seq::<Option<Seq<V>>>::empty()));
        assert(seq![vals[0]] =~= vals);
        assert(b.remove(id) =~= b);
        assert(receive_step(b, size, id, vals[0]) == (b, Some(vals)));
    } else {
        lemma_receive_prefix(b, size, id, vals, k);
        let b1 = b.insert(id, vals.take(k));
        assert(prev.0 == b1);
        assert(b1.dom().contains(id));
        assert(b1[id].push(vals.last()) =~= vals);
        assert(b1.remove(id) =~= b);
        assert(receive_step(b1, size, id, vals.last()) == (b, Some(vals)));
    }
    assert(receive_all(b, size, id, vals) == (receive_step(prev.0, size, id, vals.last()).0, prev.1.push(
        receive_step(prev.0, size, id, vals.last()).1,
    )));
}

/// The receiving end of the collective protocols on one node: the values
/// collected per protocol run, keyed by the run's id, until as many values as
/// the cluster has nodes have arrived; then they go to the recipient (of type
/// `R`).
pub struct ProtocolsReceiver<V, R> {
    message_buffer: Vec<(String, ProtocolBuffer<V>)>,
    cluster_size: usize,
    recipient: Option<R>,
}

impl<V, R> ProtocolsReceiver<V, R> {
    /// The ids of the runs with values, in order.
    pub closed spec fn ids(&self) -> Seq<Seq<char>> {
        self.message_buffer@.map_values(|e: (String, ProtocolBuffer<V>)| e.0@)
    }

    /// The position of a run among the entries.
    pub closed spec fn index_of(&self, id: Seq<char>) -> int {
        choose|i: int| 0 <= i < self.message_buffer@.len() && self.message_buffer@[i].0@ == id
    }

    /// The values collected per run.
    pub closed spec fn buffers(&self) -> Map<Seq<char>, Seq<V>> {
        Map::new(
            |id: Seq<char>| self.ids().contains(id),
            |id: Seq<char>| self.message_buffer@[self.index_of(id)].1.value_buffer@,
        )
    }

    /// The operation of each run.
    pub closed spec fn operations(&self) -> Map<Seq<char>, ProtocolOperation> {
        Map::new(
            |id: Seq<char>| self.ids().contains(id),
            |id: Seq<char>| self.message_buffer@[self.index_of(id)].1.protocol_operation,
        )
    }

    /// Where finished runs are reported.
    pub closed spec fn recipient_of(&self) -> Option<R> {
        self.recipient
    }

    /// How many values finish a run: the number of nodes, this one included.
    pub closed spec fn size(&self) -> nat {
        self.cluster_size as nat
    }

    /// Each run is kept once.
    pub closed spec fn wf(&self) -> bool {
        self.ids().no_duplicates()
    }

    proof fn lemma_entry(&self, i: int)
        requires
            self.wf(),
            0 <= i < self.message_buffer@.len(),
        ensures
            self.index_of(self.message_buffer@[i].0@) == i,
            self.buffers().dom().contains(self.message_buffer@[i].0@),
    {
        let id = self.message_buffer@[i].0@;
        assert(self.ids()[i] == id);
        let j = self.index_of(id);
        assert(self.ids()[j] == id);
    }

    proof fn lemma_index_of(&self, id: Seq<char>)
        requires
            self.wf(),
            self.ids().contains(id),
        ensures
            0 <= self.index_of(id) < self.message_buffer@.len(),
            self.message_buffer@[self.index_of(id)].0@ == id,
    {
        let w = choose|w: int| 0 <= w < self.ids().len() && self.ids()[w] == id;
        assert(self.message_buffer@[w].0@ == id);
    }

    /// A receiver for a cluster of `cluster_size` nodes, this one included, that
    /// reports finished runs to `recipient`.
    pub fn new(recipient: R, cluster_size: usize) -> (r: ProtocolsReceiver<V, R>)
        ensures
            r.wf(),
            r.buffers() == Map::<Seq<char>, Seq<V>>::empty(),
            r.size() == cluster_size,
            r.recipient_of() == Some(recipient),
    {
        let r = ProtocolsReceiver { message_buffer: Vec::new(), cluster_size, recipient: Some(recipient) };
        assert(r.buffers() =~= Map::<Seq<char>, Seq<V>>::empty());
        r
    }

    /// A receiver without recipient for a cluster of one node.
    pub fn default() -> (r: ProtocolsReceiver<V, R>)
        ensures
            r.wf(),
            r.buffers() == Map::<Seq<char>, Seq<V>>::empty(),
            r.size() == 1,
            r.recipient_of() is None,
    {
        let r = ProtocolsReceiver { message_buffer: Vec::new(), cluster_size: 1, recipient: None };
        assert(r.buffers() =~= Map::<Seq<char>, Seq<V>>::empty());
        r
    }

    /// Where finished runs are reported.
    pub fn recipient(&self) -> (r: &Option<R>)
        ensures
            *r == self.recipient_of(),
    {
        &self.recipient
    }

    /// The position of a run, if it has values.
    fn find(&self, protocol_id: &String) -> (r: Option<usize>)
        requires
            self.wf(),
        ensures
            match r {
                Some(i) => i < self.message_buffer@.len() && self.message_buffer@[i as int].0@ == protocol_id@,
                None => !self.buffers().dom().contains(protocol_id@),
            },
    {
        let mut i: usize = 0;
        while i < self.message_buffer.len()
            invariant
                i <= self.message_buffer@.len(),
                forall|j: int| 0 <= j < i ==> self.message_buffer@[j].0@ != protocol_id@,
            decreases self.message_buffer@.len() - i,
        {
            if self.message_buffer[i].0 == *protocol_id {
                return Some(i);
            }
            i = i + 1;
        }
        proof {
            if self.ids().contains(protocol_id@) {
                let j = choose|j: int| 0 <= j < self.ids().len() && self.ids()[j] == protocol_id@;
                assert(self.message_buffer@[j].0@ == protocol_id@);
            }
        }
        None
    }

    /// Adds a value to a run, opening the run with `protocol_operation` when it
    /// has none yet.
    pub fn add_to_buffer(&mut self, protocol_id: String, value: V, protocol_operation: ProtocolOperation)
        requires
            old(self).wf(),
        ensures
            final(self).wf(),
            final(self).size() == old(self).size(),
            final(self).buffers() == old(self).buffers().insert(
                protocol_id@,
                if old(self).buffers().dom().contains(protocol_id@) {
                    old(self).buffers()[protocol_id@].push(value)
                } else {
                    seq![value]
                },
            ),
            final(self).operations() == (if old(self).operations().dom().contains(protocol_id@) {
                old(self).operations()
            } else {
                old(self).operations().insert(protocol_id@, protocol_operation)
            }),
    {
        match self.find(&protocol_id) {
            None => {
                let ghost old_self = *self;
                let mut protocol_buffer = ProtocolBuffer::new(protocol_operation);
                protocol_buffer.push(value);
                let ghost id = protocol_id@;
                self.message_buffer.push((protocol_id, protocol_buffer));
                proof {
                    assert(self.ids() =~= old_self.ids().push(id));
                    assert(!old_self.ids().contains(id));
                    assert forall|a: int, b: int| 0 <= a < b < self.ids().len() implies self.ids()[a] != self.ids()[b] by {
                        if b == self.ids().len() - 1 {
                            assert(old_self.ids()[a] == self.ids()[a]);
                        }
                    }
                    let n = old_self.message_buffer@.len();
                    assert(self.message_buffer@[n as int].1.value_buffer@ =~= seq![value]);
                    crate::connector_msgs::lemma_to_set_push(old_self.ids(), id);
                    assert(self.ids().to_set() == old_self.ids().to_set().insert(id));
                    assert(self.buffers().dom() =~= old_self.buffers().dom().insert(id));
                    assert forall|x: Seq<char>| #![trigger self.buffers()[x]] #![trigger self.operations()[x]] self.buffers().dom().contains(x) implies self.buffers()[x]
                        == old_self.buffers().insert(id, seq![value])[x] && self.operations()[x]
                        == old_self.operations().insert(id, protocol_operation)[x] by {
                        self.lemma_index_of(x);
                        let j = self.index_of(x);
                        self.lemma_entry(j);
                        if x != id {
                            assert(j != n);
                            old_self.lemma_entry(j);
                        } else {
                            self.lemma_entry(n as int);
                        }
                    }
                    assert(self.buffers() =~= old_self.buffers().insert(id, seq![value]));
                    assert(self.operations() =~= old_self.operations().insert(id, protocol_operation));
                }
            },
            Some(i) => {
                let ghost old_self = *self;
                proof {
                    old_self.lemma_entry(i as int);
                }
                let (id_string, mut buffer) = self.message_buffer.remove(i);
                buffer.push(value);
                self.message_buffer.insert(i, (id_string, buffer));
                proof {
                    let id = protocol_id@;
                    assert(self.ids() =~= old_self.ids());
                    assert(self.buffers().dom() =~= old_self.buffers().dom());
                    assert(old_self.buffers().dom().contains(id));
                    assert forall|x: Seq<char>| #![trigger self.buffers()[x]] #![trigger self.operations()[x]] self.buffers().dom().contains(x) implies self.buffers()[x]
                        == old_self.buffers().insert(id, old_self.buffers()[id].push(value))[x]
                        && self.operations()[x] == old_self.operations()[x] by {
                        self.lemma_index_of(x);
                        let j = self.index_of(x);
                        self.lemma_entry(j);
                        old_self.lemma_entry(j);
                        if j != i {
                            assert(self.message_buffer@[j] == old_self.message_buffer@[j]);
                        }
                    }
                    assert(self.buffers() =~= old_self.buffers().insert(id, old_self.buffers()[id].push(value)));
                    assert(self.operations() =~= old_self.operations());
                }
            },
        }
    }

    /// When a run has as many values as the cluster has nodes, it is closed and
    /// its values are given back in the order they came; otherwise nothing
    /// changes. The run must have values.
    pub fn try_finish_protocol(&mut self, protocol_id: String) -> (r: Option<Vec<V>>)
        requires
            old(self).wf(),
            old(self).buffers().dom().contains(protocol_id@),
        ensures
            final(self).wf(),
            final(self).size() == old(self).size(),
            old(self).buffers()[protocol_id@].len() == old(self).size() ==> r is Some && r->Some_0@
                == old(self).buffers()[protocol_id@] && final(self).buffers() == old(self).buffers().remove(protocol_id@)
                && final(self).operations() == old(self).operations().remove(protocol_id@),
            old(self).buffers()[protocol_id@].len() != old(self).size() ==> r is None && final(self).buffers()
                == old(self).buffers() && final(self).operations() == old(self).operations(),
    {
        match self.find(&protocol_id) {
            Some(i) => {
                let ghost old_self = *self;
                proof {
                    old_self.lemma_entry(i as int);
                }
                if self.message_buffer[i].1.all_received(self.cluster_size) {
                    let (_id, buffer) = self.message_buffer.remove(i);
                    proof {
                        let id = protocol_id@;
                        let ids = old_self.ids();
                        assert(self.ids() =~= ids.subrange(0, i as int) + ids.subrange(i + 1, ids.len() as int));
                        assert forall|a: int, b: int| 0 <= a < b < self.ids().len() implies self.ids()[a] != self.ids()[b] by {
                            let ia = if a < i { a } else { a + 1 };
                            let ib = if b < i { b } else { b + 1 };
                            assert(self.ids()[a] == ids[ia]);
                            assert(self.ids()[b] == ids[ib]);
                        }
                        assert forall|x: Seq<char>| self.ids().contains(x) <==> old_self.buffers().remove(id).dom().contains(x) by {
                            if self.ids().contains(x) {
                                let k = choose|k: int| 0 <= k < self.ids().len() && self.ids()[k] == x;
                                let wk = if k < i { k } else { k + 1 };
                                assert(ids[wk] == x);
                                assert(wk != i);
                                assert(ids[wk] != ids[i as int]);
                            }
                            if old_self.buffers().remove(id).dom().contains(x) {
                                let k = choose|k: int| 0 <= k < ids.len() && ids[k] == x;
                                assert(k != i);
                                if k < i {
                                    assert(self.ids()[k] == x);
                                } else {
                                    assert(self.ids()[k - 1] == x);
                                }
                            }
                        }
                        assert forall|x: Seq<char>| #![trigger self.buffers()[x]] #![trigger self.operations()[x]] self.buffers().dom().contains(x) implies self.buffers()[x]
                            == old_self.buffers()[x] && self.operations()[x] == old_self.operations()[x] by {
                            self.lemma_index_of(x);
                            let j = self.index_of(x);
                            self.lemma_entry(j);
                            if j < i {
                                assert(self.message_buffer@[j] == old_self.message_buffer@[j]);
                                old_self.lemma_entry(j);
                            } else {
                                assert(self.message_buffer@[j] == old_self.message_buffer@[j + 1]);
                                old_self.lemma_entry(j + 1);
                            }
                        }
                        assert(self.buffers().dom() =~= old_self.buffers().remove(id).dom());
                        assert(self.buffers() =~= old_self.buffers().remove(id));
                        assert(self.operations() =~= old_self.operations().remove(id));
                    }
                    Some(buffer.value_buffer)
                } else {
                    None
                }
            },
            None => None,
        }
    }

    /// A value for a run arrives: it is added, and when the run is complete its
    /// values are given back and the run closed.
    pub fn receive(&mut self, protocol_id: String, value: V, protocol_operation: ProtocolOperation) -> (r: Option<Vec<V>>)
        requires
            old(self).wf(),
        ensures
            final(self).wf(),
            final(self).size() == old(self).size(),
            final(self).buffers() == receive_step(old(self).buffers(), old(self).size(), protocol_id@, value).0,
            match r {
                Some(v) => receive_step(old(self).buffers(), old(self).size(), protocol_id@, value).1 == Some(v@),
                None => receive_step(old(self).buffers(), old(self).size(), protocol_id@, value).1 is None,
            },
    {
        let id_copy = protocol_id.clone();
        self.add_to_buffer(protocol_id, value, protocol_operation);
        let r = self.try_finish_protocol(id_copy);
        proof {
            let values = if old(self).buffers().dom().contains(protocol_id@) {
                old(self).buffers()[protocol_id@].push(value)
            } else {
                seq![value]
            };
            assert(old(self).buffers().insert(protocol_id@, values).remove(protocol_id@) =~= old(self).buffers().remove(
                protocol_id@,
            ));
        }
        r
    }
}

/// Where a protocol value for node `receiver_node_id` goes: to the protocols
/// receiver of that node when it is a remote member (`remote`), else to this
/// node's own receiver (`local`). A remote address is pointed at the actor
/// registered under `actor_id`.
pub fn get_protocols_receiver_addr<L, N: Clone>(remote: Option<&RemoteAddr<N>>, local: L, actor_id: &str) -> (r: AnyAddr<
    L,
    N,
>)
    ensures
        remote is None ==> r == AnyAddr::<L, N>::Local(local),
        remote matches Some(a) ==> (r matches AnyAddr::Remote(b) && b.node.socket_addr == a.node.socket_addr
            && handle_cloned(a.node.network_interface, b.node.network_interface) && b.id is Key && b.id->Key_0@
            == actor_id@),
{
    let mut receiver = match remote {
        None => AnyAddr::Local(local),
        Some(remote_addr) => AnyAddr::Remote(remote_addr.clone()),
    };
    receiver.change_id(actor_id);
    receiver
}

} // verus!
