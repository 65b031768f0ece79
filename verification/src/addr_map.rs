use vstd::prelude::*;
use crate::socket_addr::SocketAddr;

verus! {

/// A table from node addresses to values, each address at most once.
///
/// The entries are kept in insertion order; a new address goes to the end, a
/// known address keeps its place when its value is replaced.
pub struct AddrMap<V> {
    entries: Vec<(SocketAddr, V)>,
}

/// The table as a map.
impl<V> View for AddrMap<V> {
    type V = Map<SocketAddr, V>;

    open spec fn view(&self) -> Map<SocketAddr, V> {
        Map::new(
            |k: SocketAddr| self.keys_seq().contains(k),
            |k: SocketAddr| self.entries()[self.index_of(k)].1,
        )
    }
}

impl<V> AddrMap<V> {
    /// The entries, in order.
    pub closed spec fn entries(&self) -> Seq<(SocketAddr, V)> {
        self.entries@
    }

    /// The addresses of the table, in order.
    pub open spec fn keys_seq(&self) -> Seq<SocketAddr> {
        self.entries().map_values(|e: (SocketAddr, V)| e.0)
    }

    /// No address occurs twice.
    pub open spec fn wf(&self) -> bool {
        self.keys_seq().no_duplicates()
    }

    /// The position of an address among the entries.
    pub open spec fn index_of(&self, k: SocketAddr) -> int {
        choose|i: int| 0 <= i < self.entries().len() && self.entries()[i].0 == k
    }


    /// In a well-formed table the entry at position `i` is the one the map
    /// holds for its address.
    pub proof fn lemma_entry(&self, i: int)
        requires
            self.wf(),
            0 <= i < self.entries().len(),
        ensures
            self.view().dom().contains(self.entries()[i].0),
            self.index_of(self.entries()[i].0) == i,
            self.view()[self.entries()[i].0] == self.entries()[i].1,
    {
        let k = self.entries()[i].0;
        assert(self.keys_seq()[i] == k);
        assert(self.keys_seq().contains(k));
        let j = self.index_of(k);
        assert(self.keys_seq()[j] == k);
    }

    /// An address of the map sits at the position `index_of` gives.
    pub proof fn lemma_index_of(&self, k: SocketAddr)
        requires
            self.wf(),
            self.view().dom().contains(k),
        ensures
            0 <= self.index_of(k) < self.entries().len(),
            self.entries()[self.index_of(k)].0 == k,
            self.keys_seq()[self.index_of(k)] == k,
    {
        let w = choose|w: int| 0 <= w < self.keys_seq().len() && self.keys_seq()[w] == k;
        assert(self.entries()[w].0 == k);
    }

    /// The number of entries is the number of addresses in the map.
    pub proof fn lemma_len(&self)
        requires
            self.wf(),
        ensures
            self.view().dom().finite(),
            self.view().dom().len() == self.entries().len(),
    {
        self.keys_seq().unique_seq_to_set();
        assert(self.view().dom() =~= self.keys_seq().to_set());
    }

    /// An empty table.
    pub fn new() -> (r: AddrMap<V>)
        ensures
            r.wf(),
            r.view() == Map::<SocketAddr, V>::empty(),
            r.keys_seq() == Seq::<SocketAddr>::empty(),
    {
        let r = AddrMap { entries: Vec::new() };
        assert(r.view() =~= Map::<SocketAddr, V>::empty());
        assert(r.keys_seq() =~= Seq::<SocketAddr>::empty());
        r
    }

    /// The number of entries.
    pub fn len(&self) -> (r: usize)
        requires
            self.wf(),
        ensures
            r == self.view().dom().len(),
            r == self.keys_seq().len(),
    {
        proof {
            self.lemma_len();
        }
        self.entries.len()
    }

    /// The position of an address, if it is in the table.
    fn find(&self, k: &SocketAddr) -> (r: Option<usize>)
        requires
            self.wf(),
        ensures
            match r {
                Some(i) => i < self.entries().len() && self.entries()[i as int].0 == *k,
                None => !self.view().dom().contains(*k),
            },
    {
        let mut i: usize = 0;
        while i < self.entries.len()
            invariant
                i <= self.entries().len(),
                forall|j: int| 0 <= j < i ==> self.entries()[j].0 != *k,
            decreases self.entries().len() - i,
        {
            if self.entries[i].0 == *k {
                return Some(i);
            }
            i = i + 1;
        }
        proof {
            if self.keys_seq().contains(*k) {
                let j = choose|j: int| 0 <= j < self.keys_seq().len() && self.keys_seq()[j] == *k;
                assert(self.entries()[j].0 == *k);
            }
        }
        None
    }

    /// Whether an address is in the table.
    pub fn contains_key(&self, k: &SocketAddr) -> (r: bool)
        requires
            self.wf(),
        ensures
            r == self.view().dom().contains(*k),
    {
        match self.find(k) {
            Some(i) => {
                proof {
                    self.lemma_entry(i as int);
                }
                true
            },
            None => false,
        }
    }

    /// The value held for an address.
    pub fn get(&self, k: &SocketAddr) -> (r: Option<&V>)
        requires
            self.wf(),
        ensures
            match r {
                Some(v) => self.view().dom().contains(*k) && *v == self.view()[*k],
                None => !self.view().dom().contains(*k),
            },
    {
        match self.find(k) {
            Some(i) => {
                proof {
                    self.lemma_entry(i as int);
                }
                Some(&self.entries[i].1)
            },
            None => None,
        }
    }

    /// The address and value at a position.
    pub fn entry_at(&self, i: usize) -> (r: (&SocketAddr, &V))
        requires
            self.wf(),
            i < self.keys_seq().len(),
        ensures
            *r.0 == self.keys_seq()[i as int],
            self.view().dom().contains(*r.0),
            *r.1 == self.view()[*r.0],
    {
        proof {
            self.lemma_entry(i as int);
        }
        (&self.entries[i].0, &self.entries[i].1)
    }

    /// Sets the value of an address: a new address is added at the end, a known
    /// one keeps its place.
    pub fn insert(&mut self, k: SocketAddr, v: V)
        requires
            old(self).wf(),
        ensures
            final(self).wf(),
            final(self).view() == old(self).view().insert(k, v),
            old(self).view().dom().contains(k) ==> final(self).keys_seq() == old(self).keys_seq(),
            !old(self).view().dom().contains(k) ==> final(self).keys_seq() == old(self).keys_seq().push(k),
    {
        match self.find(&k) {
            Some(i) => {
                let ghost old_self = *self;
                self.entries.set(i, (k, v));
                proof {
                    assert(self.keys_seq() =~= old_self.keys_seq());
                    assert(old_self.keys_seq()[i as int] == k);
                    assert(old_self.view().dom().contains(k));
                    assert(self.view().dom() =~= old_self.view().insert(k, v).dom());
                    assert forall|x: SocketAddr| self.view().dom().contains(x) implies self.view()[x]
                        == old_self.view().insert(k, v)[x] by {
                        self.lemma_index_of(x);
                        let j = self.index_of(x);
                        self.lemma_entry(j);
                        assert(self.keys_seq()[i as int] == k);
                        if j != i {
                            assert(self.entries()[j] == old_self.entries()[j]);
                            old_self.lemma_entry(j);
                            assert(x != k);
                        }
                    }
                    assert(self.view() =~= old_self.view().insert(k, v));
                }
            },
            None => {
                let ghost old_self = *self;
                self.entries.push((k, v));
                proof {
                    assert(self.keys_seq() =~= old_self.keys_seq().push(k));
                    assert forall|x: SocketAddr| old_self.view().insert(k, v).dom().contains(x) implies
                        self.view().dom().contains(x) by {
                        if x != k {
                            old_self.lemma_index_of(x);
                            assert(self.keys_seq()[old_self.index_of(x)] == x);
                        } else {
                            assert(self.keys_seq()[old_self.keys_seq().len() as int] == x);
                        }
                    }
                    assert(self.view().dom() =~= old_self.view().insert(k, v).dom());
                    assert forall|x: SocketAddr| self.view().dom().contains(x) implies self.view()[x]
                        == old_self.view().insert(k, v)[x] by {
                        self.lemma_index_of(x);
                        let j = self.index_of(x);
                        self.lemma_entry(j);
                        if x != k {
                            assert(self.keys_seq()[old_self.keys_seq().len() as int] == k);
                            old_self.lemma_entry(j);
                        }
                    }
                    assert(self.view() =~= old_self.view().insert(k, v));
                }
            },
        }
    }

    /// Removes an address and gives back its value; the other entries keep their
    /// order.
    pub fn remove(&mut self, k: &SocketAddr) -> (r: Option<V>)
        requires
            old(self).wf(),
        ensures
            final(self).wf(),
            final(self).view() == old(self).view().remove(*k),
            final(self).keys_seq() == old(self).keys_seq().filter(|x: SocketAddr| x != *k),
            match r {
                Some(v) => old(self).view().dom().contains(*k) && v == old(self).view()[*k],
                None => !old(self).view().dom().contains(*k),
            },
    {
        match self.find(k) {
            Some(i) => {
                let ghost old_self = *self;
                proof {
                    old_self.lemma_entry(i as int);
                }
                let (_, v) = self.entries.remove(i);
                proof {
                    let ks = old_self.keys_seq();
                    assert(self.keys_seq() =~= ks.subrange(0, i as int) + ks.subrange(i + 1, ks.len() as int));
                    lemma_filter_out_unique(ks, i as int, *k);
                    assert forall|x: SocketAddr| self.view().dom().contains(x) implies self.view()[x]
                        == old_self.view().remove(*k)[x] by {
                        self.lemma_index_of(x);
                        let j = self.index_of(x);
                        self.lemma_entry(j);
                        if j < i {
                            old_self.lemma_entry(j);
                        } else {
                            old_self.lemma_entry(j + 1);
                        }
                    }
                    assert forall|x: SocketAddr| old_self.view().remove(*k).dom().contains(x) implies
                        self.view().dom().contains(x) by {
                        old_self.lemma_index_of(x);
                        let j = old_self.index_of(x);
                        if j < i {
                            assert(self.keys_seq()[j] == x);
                        } else {
                            assert(self.keys_seq()[j - 1] == x);
                        }
                    }
                    assert(self.view() =~= old_self.view().remove(*k));
                }
                Some(v)
            },
            None => {
                proof {
                    let ks = self.keys_seq();
                    assert(ks.filter(|x: SocketAddr| x != *k) =~= ks) by {
                        lemma_filter_keeps_all(ks, *k);
                    }
                    assert(self.view() =~= self.view().remove(*k));
                }
                None
            },
        }
    }

    /// The addresses of the table, in order.
    pub fn keys(&self) -> (r: Vec<SocketAddr>)
        requires
            self.wf(),
        ensures
            r@ == self.keys_seq(),
    {
        let mut r: Vec<SocketAddr> = Vec::new();
        let mut i: usize = 0;
        while i < self.entries.len()
            invariant
                i <= self.entries().len(),
                r@ == self.keys_seq().subrange(0, i as int),
            decreases self.entries().len() - i,
        {
            r.push(self.entries[i].0);
            i = i + 1;
            assert(r@ =~= self.keys_seq().subrange(0, i as int));
        }
        assert(r@ =~= self.keys_seq());
        r
    }
}

/// Removing the only occurrence of `k` from a sequence without duplicates is
/// filtering `k` out.
proof fn lemma_filter_out_unique(s: Seq<SocketAddr>, i: int, k: SocketAddr)
    requires
        s.no_duplicates(),
        0 <= i < s.len(),
        s[i] == k,
    ensures
        s.filter(|x: SocketAddr| x != k) == s.subrange(0, i) + s.subrange(i + 1, s.len() as int),
        (s.subrange(0, i) + s.subrange(i + 1, s.len() as int)).no_duplicates(),
    decreases s.len(),
{
    let f = |x: SocketAddr| x != k;
    let t = s.subrange(0, i) + s.subrange(i + 1, s.len() as int);
    if i == s.len() - 1 {
        assert(s.drop_last() =~= s.subrange(0, i));
        lemma_filter_keeps_all(s.drop_last(), k);
        reveal_with_fuel(Seq::<_>::filter, 1);
        assert(s.filter(f) =~= s.drop_last().filter(f));
        assert(t =~= s.drop_last());
    } else {
        let d = s.drop_last();
        assert(d[i] == k);
        lemma_filter_out_unique(d, i, k);
        reveal_with_fuel(Seq::<_>::filter, 1);
        assert(s.last() != k);
        assert(s.filter(f) == d.filter(f).push(s.last()));
        assert(t =~= (d.subrange(0, i) + d.subrange(i + 1, d.len() as int)).push(s.last()));
    }
}

/// Filtering out an address that does not occur keeps the sequence.
proof fn lemma_filter_keeps_all(s: Seq<SocketAddr>, k: SocketAddr)
    requires
        !s.contains(k),
    ensures
        s.filter(|x: SocketAddr| x != k) == s,
    decreases s.len(),
{
    let f = |x: SocketAddr| x != k;
    if s.len() > 0 {
        lemma_filter_keeps_all(s.drop_last(), k);
        reveal_with_fuel(Seq::<_>::filter, 1);
        assert(s.drop_last().push(s.last()) =~= s);
        assert(s.filter(f) =~= s.drop_last().filter(f).push(s.last()));
    } else {
        assert(s.filter(f) =~= s);
    }
}

} // verus!
