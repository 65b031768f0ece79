use vstd::prelude::*;
use vstd::std_specs::cmp::PartialEqSpec;
use crate::addr_repr::AddrRepresentation;
use std::collections::HashMap;

verus! {

/// No actor is registered under the name or for the recipient asked for.
#[derive(Debug, Clone, Copy, PartialEq, Eq, Structural)]
pub struct NotAvailableError {}

/// A request to the registry of named actors: register a recipient under a
/// name, find the recipient of a name, or find the name of a recipient.
#[derive(Debug)]
pub enum AddrRequest<R> {
    Register(R, String),
    ResolveStr(String),
    ResolveRec(R),
}

/// The registry's answer to a request.
#[derive(Debug)]
pub enum AddrResponse<R> {
    Register,
    ResolveStr(R),
    ResolveRec(String),
}

/// The registry of the actors of this node that messages from other nodes
/// reach by name. Recipients (of type `R`) are compared with their `==`.
pub struct AddrResolver<R> {
    str2rec: Vec<(String, R)>,
    rec2str: Vec<(R, String)>,
}

/// `rec` is `==` to a recipient at one of the positions.
pub open spec fn registered<R: PartialEq>(regs: Seq<(R, Seq<char>)>, rec: R) -> bool {
    exists|i: int| 0 <= i < regs.len() && (#[trigger] regs[i]).0.eq_spec(&rec)
}

/// The first position whose recipient is `==` to `rec`.
pub open spec fn first_registered<R: PartialEq>(regs: Seq<(R, Seq<char>)>, rec: R) -> int {
    choose|i: int| 0 <= i < regs.len() && regs[i].0.eq_spec(&rec) && forall|j: int| 0 <= j < i ==> !(#[trigger] regs[j]).0.eq_spec(&rec)
}

impl<R> AddrResolver<R> {
    /// The names and the recipients registered under them.
    pub closed spec fn names(&self) -> Map<Seq<char>, R> {
        Map::new(
            |id: Seq<char>| exists|i: int| 0 <= i < self.str2rec@.len() && (#[trigger] self.str2rec@[i]).0@ == id,
            |id: Seq<char>| self.str2rec@[choose|i: int| 0 <= i < self.str2rec@.len() && self.str2rec@[i].0@ == id].1,
        )
    }

    /// The recipients and their names, in the order they registered.
    pub closed spec fn regs(&self) -> Seq<(R, Seq<char>)> {
        self.rec2str@.map_values(|e: (R, String)| (e.0, e.1@))
    }

    /// Each name is on file once.
    pub closed spec fn wf(&self) -> bool {
        forall|i: int, j: int|
            0 <= i < j < self.str2rec@.len() ==> (#[trigger] self.str2rec@[i]).0@ != (#[trigger] self.str2rec@[j]).0@
    }

    proof fn lemma_name_at(&self, i: int)
        requires
            self.wf(),
            0 <= i < self.str2rec@.len(),
        ensures
            self.names().dom().contains(self.str2rec@[i].0@),
            self.names()[self.str2rec@[i].0@] == self.str2rec@[i].1,
    {
        let id = self.str2rec@[i].0@;
        let j = choose|j: int| 0 <= j < self.str2rec@.len() && self.str2rec@[j].0@ == id;
        if j != i {
            if j < i {
                assert(self.str2rec@[j].0@ != self.str2rec@[i].0@);
            } else {
                assert(self.str2rec@[i].0@ != self.str2rec@[j].0@);
            }
        }
    }

    /// Filing `(id, rec)` at position `k` of the name table, over the entry of
    /// that name or at the end when the name is new, files `rec` under `id`
    /// and keeps every other name.
    proof fn lemma_filed(before: AddrResolver<R>, after: AddrResolver<R>, k: int, id: Seq<char>, rec: R)
        requires
            before.wf(),
            0 <= k <= before.str2rec@.len(),
            k < before.str2rec@.len() ==> before.str2rec@[k].0@ == id && after.str2rec@.len()
                == before.str2rec@.len(),
            k == before.str2rec@.len() ==> !before.names().dom().contains(id) && after.str2rec@.len()
                == before.str2rec@.len() + 1,
            after.str2rec@[k].0@ == id,
            after.str2rec@[k].1 == rec,
            forall|j: int| 0 <= j < before.str2rec@.len() && j != k ==> after.str2rec@[j] == before.str2rec@[j],
        ensures
            after.wf(),
            after.names().dom() == before.names().dom().insert(id),
            after.names()[id] == rec,
            forall|x: Seq<char>| x != id && #[trigger] before.names().dom().contains(x) ==> after.names()[x]
                == before.names()[x],
    {
        let n = before.str2rec@.len();
        assert forall|a: int, b: int| 0 <= a < b < after.str2rec@.len() implies (#[trigger] after.str2rec@[a]).0@
            != (#[trigger] after.str2rec@[b]).0@ by {
            if a == k {
                if before.str2rec@[b].0@ == id {
                    before.lemma_name_at(b);
                    if k < n {
                        assert(before.str2rec@[k].0@ != before.str2rec@[b].0@);
                    }
                }
            } else if b == k {
                if before.str2rec@[a].0@ == id {
                    before.lemma_name_at(a);
                    if k < n {
                        assert(before.str2rec@[a].0@ != before.str2rec@[k].0@);
                    }
                }
            } else {
                assert(before.str2rec@[a].0@ != before.str2rec@[b].0@);
            }
        }
        after.lemma_name_at(k);
        assert forall|x: Seq<char>| after.names().dom().contains(x) <==> before.names().dom().insert(id).contains(x) by {
            if after.names().dom().contains(x) {
                let w = choose|w: int| 0 <= w < after.str2rec@.len() && after.str2rec@[w].0@ == x;
                if w != k {
                    assert(before.str2rec@[w].0@ == x);
                }
            }
            if before.names().dom().contains(x) {
                let w = choose|w: int| 0 <= w < before.str2rec@.len() && before.str2rec@[w].0@ == x;
                if w != k {
                    assert(after.str2rec@[w].0@ == x);
                } else {
                    assert(after.str2rec@[k].0@ == x);
                }
            }
        }
        assert(after.names().dom() =~= before.names().dom().insert(id));
        assert forall|x: Seq<char>| x != id && #[trigger] before.names().dom().contains(x) implies after.names()[x]
            == before.names()[x] by {
            let w = choose|w: int| 0 <= w < before.str2rec@.len() && before.str2rec@[w].0@ == x;
            assert(w != k);
            before.lemma_name_at(w);
            after.lemma_name_at(w);
        }
    }

    /// An empty registry.
    pub fn new() -> (r: AddrResolver<R>)
        ensures
            r.wf(),
            r.names() == Map::<Seq<char>, R>::empty(),
            r.regs() == Seq::<(R, Seq<char>)>::empty(),
    {
        let r = AddrResolver { str2rec: Vec::new(), rec2str: Vec::new() };
        assert(r.names() =~= Map::<Seq<char>, R>::empty());
        assert(r.regs() =~= Seq::<(R, Seq<char>)>::empty());
        r
    }

    /// The position of a name, if it is on file.
    fn find_name(&self, id: &String) -> (r: Option<usize>)
        requires
            self.wf(),
        ensures
            match r {
                Some(i) => i < self.str2rec@.len() && self.str2rec@[i as int].0@ == id@,
                None => !self.names().dom().contains(id@),
            },
    {
        let mut i: usize = 0;
        while i < self.str2rec.len()
            invariant
                i <= self.str2rec@.len(),
                forall|j: int| 0 <= j < i ==> self.str2rec@[j].0@ != id@,
            decreases self.str2rec@.len() - i,
        {
            if self.str2rec[i].0 == *id {
                return Some(i);
            }
            i = i + 1;
        }
        None
    }

    /// The recipient registered under a name.
    pub fn resolve_str(&self, id: String) -> (r: Result<&R, NotAvailableError>)
        requires
            self.wf(),
        ensures
            match r {
                Ok(rec) => self.names().dom().contains(id@) && *rec == self.names()[id@],
                Err(_) => !self.names().dom().contains(id@),
            },
    {
        match self.find_name(&id) {
            Some(i) => {
                proof {
                    self.lemma_name_at(i as int);
                }
                Ok(&self.str2rec[i].1)
            },
            None => Err(NotAvailableError {}),
        }
    }

    /// The recipient registered under the name an address representation is
    /// written as.
    pub fn resolve_rec_from_addr_representation(&self, addr_representation: AddrRepresentation) -> (r: Result<&R, NotAvailableError>)
        requires
            self.wf(),
        ensures
            match r {
                Ok(rec) => self.names().dom().contains(addr_representation.text()) && *rec == self.names()[addr_representation.text()],
                Err(_) => !self.names().dom().contains(addr_representation.text()),
            },
    {
        self.resolve_str(addr_representation.to_string())
    }
}

impl<R: PartialEq> AddrResolver<R> {
    /// The position of the first registration of a recipient `==` to `rec`.
    fn find_rec(&self, rec: &R) -> (r: Option<usize>)
        ensures
            r matches Some(i) ==> i < self.rec2str@.len(),
            R::obeys_eq_spec() ==> match r {
                Some(i) => i < self.regs().len() && i == first_registered(self.regs(), *rec) && registered(
                    self.regs(),
                    *rec,
                ) && self.regs()[i as int].0.eq_spec(rec),
                None => !registered(self.regs(), *rec),
            },
    {
        let mut i: usize = 0;
        while i < self.rec2str.len()
            invariant
                i <= self.rec2str@.len(),
                R::obeys_eq_spec() ==> forall|j: int| 0 <= j < i ==> !(#[trigger] self.regs()[j]).0.eq_spec(rec),
            decreases self.rec2str@.len() - i,
        {
            if self.rec2str[i].0 == *rec {
                proof {
                    if R::obeys_eq_spec() {
                        assert(self.regs()[i as int].0 == self.rec2str@[i as int].0);
                        let f = first_registered(self.regs(), *rec);
                        assert(f == i) by {
                            if f < i {
                                assert(!self.regs()[f].0.eq_spec(rec));
                            }
                            if f > i {
                                assert(!self.regs()[i as int].0.eq_spec(rec));
                            }
                        }
                    }
                }
                return Some(i);
            }
            proof {
                if R::obeys_eq_spec() {
                    assert(self.regs()[i as int].0 == self.rec2str@[i as int].0);
                }
            }
            i = i + 1;
        }
        None
    }

    /// The name of a recipient: that of its first registration.
    pub fn resolve_rec(&self, rec: &R) -> (r: Result<&String, NotAvailableError>)
        ensures
            R::obeys_eq_spec() ==> match r {
                Ok(id) => registered(self.regs(), *rec) && id@ == self.regs()[first_registered(self.regs(), *rec)].1,
                Err(_) => !registered(self.regs(), *rec),
            },
    {
        match self.find_rec(rec) {
            Some(i) => {
                assert(self.regs()[i as int].1 == self.rec2str@[i as int].1@);
                Ok(&self.rec2str[i].1)
            },
            None => Err(NotAvailableError {}),
        }
    }
}

/// `after` is `before` with `rec` registered under the name `id`: the name
/// leads to a copy of `rec`, every other name is kept, and the registration is
/// listed last.
pub open spec fn registered_as<R: Clone>(before: AddrResolver<R>, after: AddrResolver<R>, rec: R, id: Seq<char>) -> bool {
    &&& after.names().dom() == before.names().dom().insert(id)
    &&& cloned(rec, after.names()[id])
    &&& forall|x: Seq<char>| x != id && #[trigger] before.names().dom().contains(x) ==> after.names()[x] == before.names()[x]
    &&& after.regs() == before.regs().push((rec, id))
}

impl<R: PartialEq + Clone> AddrResolver<R> {
    /// Registers a recipient under a name, unless a recipient `==` to it is
    /// registered already. The name then leads to a copy of the recipient,
    /// replacing any earlier one under that name.
    pub fn register(&mut self, rec: R, identifier: String) -> (r: Result<AddrResponse<R>, ()>)
        requires
            old(self).wf(),
        ensures
            final(self).wf(),
            R::obeys_eq_spec() ==> (registered(old(self).regs(), rec) <==> r is Err),
            r is Err ==> *final(self) == *old(self),
            r is Ok ==> (r matches Ok(AddrResponse::Register)) && registered_as(*old(self), *final(self), rec, identifier@),
    {
        if self.find_rec(&rec).is_none() {
            let ghost old_self = *self;
            let copy = rec.clone();
            assert(cloned(rec, copy));
            let id_copy = identifier.clone();
            let k = match self.find_name(&identifier) {
                Some(i) => {
                    self.str2rec.set(i, (id_copy, copy));
                    i
                },
                None => {
                    let n = self.str2rec.len();
                    self.str2rec.push((id_copy, copy));
                    n
                },
            };
            proof {
                AddrResolver::lemma_filed(old_self, *self, k as int, identifier@, copy);
            }
            assert(self.names().dom() == old_self.names().dom().insert(identifier@));
            assert(cloned(rec, self.names()[identifier@]));
            let ghost mid = *self;
            self.rec2str.push((rec, identifier));
            assert(self.names() =~= mid.names());
            assert(self.regs() =~= old_self.regs().push((rec, identifier@)));
            Ok(AddrResponse::Register)
        } else {
            Err(())
        }
    }

    /// Answers a request: registering, or resolving a name or a recipient; an
    /// unknown name or recipient, or a recipient registered twice, gives `Err`.
    pub fn handle(&mut self, msg: AddrRequest<R>) -> (r: Result<AddrResponse<R>, ()>)
        requires
            old(self).wf(),
        ensures
            final(self).wf(),
            match msg {
                AddrRequest::Register(rec, id) => (R::obeys_eq_spec() ==> (registered(old(self).regs(), rec)
                    <==> r is Err)) && (r is Err ==> *final(self) == *old(self)) && (r is Ok ==> (r matches Ok(
                    AddrResponse::Register,
                )) && registered_as(*old(self), *final(self), rec, id@)),
                AddrRequest::ResolveStr(id) => *final(self) == *old(self) && match r {
                    Ok(AddrResponse::ResolveStr(rec)) => old(self).names().dom().contains(id@) && cloned(
                        old(self).names()[id@],
                        rec,
                    ),
                    Ok(_) => false,
                    Err(_) => !old(self).names().dom().contains(id@),
                },
                AddrRequest::ResolveRec(rec) => *final(self) == *old(self) && (R::obeys_eq_spec() ==> match r {
                    Ok(AddrResponse::ResolveRec(id)) => registered(old(self).regs(), rec) && id@ == old(self).regs()[first_registered(
                        old(self).regs(),
                        rec,
                    )].1,
                    Ok(_) => false,
                    Err(_) => !registered(old(self).regs(), rec),
                }),
            },
    {
        match msg {
            AddrRequest::Register(rec, identifier) => self.register(rec, identifier),
            AddrRequest::ResolveStr(id) => match self.resolve_str(id) {
                Ok(r) => Ok(AddrResponse::ResolveStr(r.clone())),
                Err(_) => Err(()),
            },
            AddrRequest::ResolveRec(rec) => match self.resolve_rec(&rec) {
                Ok(i) => Ok(AddrResponse::ResolveRec(i.clone())),
                Err(_) => Err(()),
            },
        }
    }
}

/// The senders (of type `S`) waiting for the answers to requests sent to remote
/// actors, each under the id of its conversation.
pub struct ResponseDispatcher<S> {
    subscribed_responses: HashMap<u128, S>,
}

impl<S> ResponseDispatcher<S> {
    /// The conversations and their senders.
    pub closed spec fn subscribed(&self) -> Map<u128, S> {
        self.subscribed_responses@
    }

    /// Nobody is waiting.
    pub fn new() -> (r: ResponseDispatcher<S>)
        ensures
            r.subscribed() == Map::<u128, S>::empty(),
    {
        ResponseDispatcher { subscribed_responses: HashMap::new() }
    }

    /// Whether anybody waits for the answer in a conversation.
    pub fn is_subscribed(&self, id: u128) -> (r: bool)
        ensures
            r == self.subscribed().dom().contains(id),
    {
        broadcast use vstd::std_specs::hash::group_hash_axioms;
        self.subscribed_responses.contains_key(&id)
    }

    /// A sender waits for the answer in conversation `id`, in place of any
    /// earlier one.
    pub fn subscribe(&mut self, id: u128, sender: S)
        ensures
            final(self).subscribed() == old(self).subscribed().insert(id, sender),
    {
        broadcast use vstd::std_specs::hash::group_hash_axioms;
        let _earlier = self.subscribed_responses.insert(id, sender);
    }

    /// The answer in conversation `id` arrived: its sender is taken off the
    /// file and given back. Somebody must be waiting for it.
    pub fn take(&mut self, id: u128) -> (r: S)
        requires
            old(self).subscribed().dom().contains(id),
        ensures
            r == old(self).subscribed()[id],
            final(self).subscribed() == old(self).subscribed().remove(id),
    {
        broadcast use vstd::std_specs::hash::group_hash_axioms;
        self.subscribed_responses.remove(&id).unwrap()
    }
}

} // verus!
