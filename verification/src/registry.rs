use vstd::prelude::*;
use crate::context::NegotiationContext;

verus! {

/// Character-for-character equality of two text slices.
pub fn text_eq(a: &str, b: &str) -> (r: bool)
    ensures
        r == (a@ == b@),
{
    let alen = a.unicode_len();
    let blen = b.unicode_len();
    if alen != blen {
        return false;
    }
    let mut i: usize = 0;
    while i < alen
        invariant
            alen == a@.len(),
            blen == b@.len(),
            alen == blen,
            i <= alen,
            forall|k: int| 0 <= k < i ==> a@[k] == b@[k],
        decreases alen - i,
    {
        if a.get_char(i) != b.get_char(i) {
            return false;
        }
        i += 1;
    }
    proof {
        assert(a@ =~= b@);
    }
    true
}

/// The mapping from peer identity to negotiation context. Backed by a
/// vector whose entries carry their own key; well-formedness keeps the
/// keys unique, so the vector denotes a finite map.
pub struct Registry {
    pub contexts: Vec<NegotiationContext>,
}

impl Registry {
    /// Keys are unique and every stored context is well-formed.
    pub open spec fn wf(&self) -> bool {
        (forall|i: int, j: int|
            0 <= i < j < self.contexts@.len() ==> (#[trigger] self.contexts@[i].peer@)
                != (#[trigger] self.contexts@[j].peer@))
        && (forall|i: int|
            0 <= i < self.contexts@.len() ==> (#[trigger] self.contexts@[i]).wf())
    }

    /// Some stored context is keyed by this identity.
    pub open spec fn has_peer(&self, id: Seq<char>) -> bool {
        exists|i: int|
            0 <= i < self.contexts@.len() && (#[trigger] self.contexts@[i]).peer@ == id
    }

    /// The position of the context keyed by this identity.
    pub open spec fn index_of(&self, id: Seq<char>) -> int {
        choose|i: int|
            0 <= i < self.contexts@.len() && (#[trigger] self.contexts@[i]).peer@ == id
    }

    /// The context keyed by this identity.
    pub open spec fn ctx_of(&self, id: Seq<char>) -> NegotiationContext {
        self.contexts@[self.index_of(id)]
    }

    /// How many contexts are live.
    pub open spec fn count(&self) -> nat {
        self.contexts@.len()
    }

    /// With unique keys, a context found at some position is the one
    /// the identity denotes.
    pub proof fn lemma_ctx_at(&self, id: Seq<char>, i: int)
        requires
            self.wf(),
            0 <= i < self.contexts@.len(),
            self.contexts@[i].peer@ == id,
        ensures
            self.has_peer(id),
            self.index_of(id) == i,
            self.ctx_of(id) == self.contexts@[i],
    {
        assert(self.has_peer(id));
        let j = self.index_of(id);
        assert(0 <= j < self.contexts@.len() && self.contexts@[j].peer@ == id);
        if i < j {
            assert(self.contexts@[i].peer@ != self.contexts@[j].peer@);
        } else if j < i {
            assert(self.contexts@[j].peer@ != self.contexts@[i].peer@);
        }
    }

    pub fn new() -> (r: Self)
        ensures
            r.wf(),
            r.count() == 0,
            forall|id: Seq<char>| !r.has_peer(id),
    {
        Registry { contexts: Vec::new() }
    }

    /// The position of the context for this identity, if any.
    fn position(&self, id: &str) -> (r: Option<usize>)
        ensures
            match r {
                Option::Some(i) => 0 <= i < self.contexts@.len()
                    && self.contexts@[i as int].peer@ == id@,
                Option::None => !self.has_peer(id@),
            },
    {
        let mut i: usize = 0;
        let n = self.contexts.len();
        while i < n
            invariant
                n == self.contexts@.len(),
                i <= n,
                forall|k: int| 0 <= k < i ==> (#[trigger] self.contexts@[k]).peer@ != id@,
            decreases n - i,
        {
            if text_eq(self.contexts[i].peer.as_str(), id) {
                return Option::Some(i);
            }
            i += 1;
        }
        Option::None
    }

    /// The position of the context for this identity, together with the
    /// knowledge that it is the one the identity denotes.
    pub fn position_of(&self, id: &str) -> (r: Option<usize>)
        requires
            self.wf(),
        ensures
            match r {
                Option::Some(i) => self.has_peer(id@) && 0 <= i < self.contexts@.len()
                    && self.contexts@[i as int].peer@ == id@ && self.contexts@[i as int]
                    == self.ctx_of(id@),
                Option::None => !self.has_peer(id@),
            },
    {
        match self.position(id) {
            Option::Some(i) => {
                proof {
                    self.lemma_ctx_at(id@, i as int);
                }
                Option::Some(i)
            },
            Option::None => Option::None,
        }
    }

    /// A copy of the context at a position, for the caller to advance
    /// and store back.
    pub fn context_at(&self, i: usize) -> (c: NegotiationContext)
        requires
            i < self.contexts@.len(),
        ensures
            c == self.contexts@[i as int],
    {
        let e = &self.contexts[i];
        NegotiationContext {
            peer: e.peer.clone(),
            state: e.state,
            role: e.role,
            local_description_set: e.local_description_set,
            remote_description_set: e.remote_description_set,
        }
    }

    /// A borrowed view of the context for this identity, if present.
    pub fn lookup(&self, id: &str) -> (r: Option<&NegotiationContext>)
        requires
            self.wf(),
        ensures
            match r {
                Option::Some(c) => self.has_peer(id@) && *c == self.ctx_of(id@),
                Option::None => !self.has_peer(id@),
            },
    {
        match self.position(id) {
            Option::Some(i) => {
                proof {
                    self.lemma_ctx_at(id@, i as int);
                }
                Option::Some(&self.contexts[i])
            },
            Option::None => Option::None,
        }
    }

    /// Insert a context for an identity that has none yet. Uniqueness
    /// of keys is preserved; no other entry moves or changes.
    pub fn insert_new(&mut self, c: NegotiationContext)
        requires
            old(self).wf(),
            !old(self).has_peer(c.peer@),
            c.wf(),
        ensures
            final(self).wf(),
            final(self).has_peer(c.peer@),
            final(self).ctx_of(c.peer@) == c,
            final(self).count() == old(self).count() + 1,
            forall|id2: Seq<char>|
                id2 != c.peer@ ==> final(self).has_peer(id2) == old(self).has_peer(id2),
            forall|id2: Seq<char>|
                id2 != c.peer@ && old(self).has_peer(id2) ==> final(self).ctx_of(id2)
                    == old(self).ctx_of(id2),
    {
        let ghost oldself = *self;
        let n = self.contexts.len();
        self.contexts.push(c);
        proof {
            let s = self.contexts@;
            assert forall|i: int, j: int| 0 <= i < j < s.len() implies (#[trigger] s[i].peer@)
                != (#[trigger] s[j].peer@) by {
                if j == s.len() - 1 {
                    assert(s[i] == oldself.contexts@[i]);
                    assert(!oldself.has_peer(c.peer@));
                }
            }
            assert(self.wf());
            self.lemma_ctx_at(c.peer@, n as int);
            assert forall|id2: Seq<char>| id2 != c.peer@ implies final(self).has_peer(id2)
                == oldself.has_peer(id2) by {
                if oldself.has_peer(id2) {
                    let k = oldself.index_of(id2);
                    assert(self.contexts@[k].peer@ == id2);
                }
                if self.has_peer(id2) {
                    let k = self.index_of(id2);
                    assert(k < n);
                    assert(oldself.contexts@[k].peer@ == id2);
                }
            }
            assert forall|id2: Seq<char>| id2 != c.peer@ && oldself.has_peer(id2) implies final(self).ctx_of(id2) == oldself.ctx_of(id2) by {
                let k = oldself.index_of(id2);
                oldself.lemma_ctx_at(id2, k);
                assert(self.contexts@[k].peer@ == id2);
                self.lemma_ctx_at(id2, k);
            }
        }
    }

    /// Replace the context at a position by one with the same key.
    pub fn replace_at(&mut self, i: usize, c: NegotiationContext)
        requires
            old(self).wf(),
            0 <= i < old(self).contexts@.len(),
            c.peer@ == old(self).contexts@[i as int].peer@,
            c.wf(),
        ensures
            final(self).wf(),
            final(self).contexts@ == old(self).contexts@.update(i as int, c),
            final(self).count() == old(self).count(),
            final(self).has_peer(c.peer@),
            final(self).ctx_of(c.peer@) == c,
            forall|id2: Seq<char>|
                final(self).has_peer(id2) == old(self).has_peer(id2),
            forall|id2: Seq<char>|
                id2 != c.peer@ && old(self).has_peer(id2) ==> final(self).ctx_of(id2)
                    == old(self).ctx_of(id2),
    {
        let ghost oldself = *self;
        let _ = self.contexts.remove(i);
        self.contexts.insert(i, c);
        proof {
            assert(self.contexts@ =~= oldself.contexts@.update(i as int, c));
            let s = self.contexts@;
            assert forall|a: int, b: int| 0 <= a < b < s.len() implies (#[trigger] s[a].peer@)
                != (#[trigger] s[b].peer@) by {
                assert(s[a].peer@ == oldself.contexts@[a].peer@);
                assert(s[b].peer@ == oldself.contexts@[b].peer@);
            }
            assert(self.wf());
            self.lemma_ctx_at(c.peer@, i as int);
            assert forall|id2: Seq<char>| final(self).has_peer(id2) == oldself.has_peer(id2) by {
                if oldself.has_peer(id2) {
                    let k = oldself.index_of(id2);
                    assert(self.contexts@[k].peer@ == id2);
                }
                if self.has_peer(id2) {
                    let k = self.index_of(id2);
                    assert(oldself.contexts@[k].peer@ == id2);
                }
            }
            assert forall|id2: Seq<char>| id2 != c.peer@ && oldself.has_peer(id2) implies final(self).ctx_of(id2) == oldself.ctx_of(id2) by {
                let k = oldself.index_of(id2);
                oldself.lemma_ctx_at(id2, k);
                assert(self.contexts@[k].peer@ == id2);
                self.lemma_ctx_at(id2, k);
            }
        }
    }

    /// Remove and return the context for this identity; leave every
    /// other entry in place.
    pub fn remove(&mut self, id: &str) -> (r: Option<NegotiationContext>)
        requires
            old(self).wf(),
        ensures
            final(self).wf(),
            match r {
                Option::Some(c) => old(self).has_peer(id@) && c == old(self).ctx_of(id@)
                    && !final(self).has_peer(id@)
                    && final(self).count() + 1 == old(self).count(),
                Option::None => !old(self).has_peer(id@) && *final(self) == *old(self),
            },
            forall|id2: Seq<char>|
                id2 != id@ ==> final(self).has_peer(id2) == old(self).has_peer(id2),
            forall|id2: Seq<char>|
                id2 != id@ && old(self).has_peer(id2) ==> final(self).ctx_of(id2) == old(
                    self,
                ).ctx_of(id2),
    {
        let ghost oldself = *self;
        match self.position(id) {
            Option::Some(i) => {
                proof {
                    self.lemma_ctx_at(id@, i as int);
                }
                let c = self.contexts.remove(i);
                proof {
                    let s = self.contexts@;
                    assert forall|a: int, b: int| 0 <= a < b < s.len() implies (
                    #[trigger] s[a].peer@) != (#[trigger] s[b].peer@) by {
                        let a0 = if a < i { a } else { a + 1 };
                        let b0 = if b < i { b } else { b + 1 };
                        assert(s[a] == oldself.contexts@[a0]);
                        assert(s[b] == oldself.contexts@[b0]);
                    }
                    assert(self.wf());
                    assert forall|k: int| 0 <= k < s.len() implies (#[trigger] s[k]).peer@
                        != id@ by {
                        let k0 = if k < i { k } else { k + 1 };
                        assert(s[k] == oldself.contexts@[k0]);
                    }
                    assert(!self.has_peer(id@));
                    assert forall|id2: Seq<char>| id2 != id@ implies final(self).has_peer(id2) == oldself.has_peer(id2) by {
                        if oldself.has_peer(id2) {
                            let k = oldself.index_of(id2);
                            let k1 = if k < i { k } else { k - 1 };
                            assert(oldself.contexts@[k].peer@ == id2);
                            assert(k != i);
                            assert(s[k1] == oldself.contexts@[k]);
                            assert(s[k1].peer@ == id2);
                        }
                        if self.has_peer(id2) {
                            let k = self.index_of(id2);
                            let k0 = if k < i { k } else { k + 1 };
                            assert(s[k] == oldself.contexts@[k0]);
                        }
                    }
                    assert forall|id2: Seq<char>| id2 != id@ && oldself.has_peer(id2) implies final(self).ctx_of(id2) == oldself.ctx_of(id2) by {
                        let k = oldself.index_of(id2);
                        oldself.lemma_ctx_at(id2, k);
                        assert(k != i);
                        let k1 = if k < i { k } else { k - 1 };
                        assert(s[k1] == oldself.contexts@[k]);
                        self.lemma_ctx_at(id2, k1);
                    }
                }
                Option::Some(c)
            },
            Option::None => Option::None,
        }
    }

    /// Remove and return every context, leaving the registry empty.
    pub fn drain_all(&mut self) -> (r: Vec<NegotiationContext>)
        ensures
            final(self).wf(),
            final(self).count() == 0,
            forall|id2: Seq<char>| !final(self).has_peer(id2),
            r@ == old(self).contexts@,
    {
        let mut drained: Vec<NegotiationContext> = Vec::new();
        core::mem::swap(&mut self.contexts, &mut drained);
        drained
    }
}

} // verus!
