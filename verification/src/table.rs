//! The endpoint table: a keyed collection of [`Endpoint`] values indexed
//! by [`Id`].  Endpoints are created lazily, on first reference.
//!
//! The table itself is plain data; the caller that shares it between
//! tasks wraps it in a lock and keeps every borrow short.

use vstd::prelude::*;

use crate::endpoint::Endpoint;
use crate::endpoint_id::Id;

verus! {

/// The entry list folded into a map keyed by id; later entries win.
pub open spec fn tmap_of(s: Seq<(Id, Endpoint)>) -> Map<Id, Endpoint>
    decreases s.len(),
{
    if s.len() == 0 {
        Map::empty()
    } else {
        tmap_of(s.drop_last()).insert(s.last().0, s.last().1)
    }
}

/// Some entry carries the given id.
pub open spec fn table_has_key(s: Seq<(Id, Endpoint)>, id: Id) -> bool {
    exists|i: int| 0 <= i < s.len() && (#[trigger] s[i]).0 == id
}

/// Ids are pairwise distinct: the list really is a keyed table.
pub open spec fn table_keys_distinct(s: Seq<(Id, Endpoint)>) -> bool {
    forall|i: int, j: int| 0 <= i < j < s.len() ==> (#[trigger] s[i]).0 != (#[trigger] s[j]).0
}

proof fn lemma_tmap_dom(s: Seq<(Id, Endpoint)>, id: Id)
    ensures
        tmap_of(s).dom().contains(id) <==> table_has_key(s, id),
    decreases s.len(),
{
    if s.len() > 0 {
        lemma_tmap_dom(s.drop_last(), id);
        if s.last().0 == id {
            assert(s[s.len() - 1].0 == id);
        } else {
            if table_has_key(s, id) {
                let i = choose|i: int| 0 <= i < s.len() && (#[trigger] s[i]).0 == id;
                assert(s.drop_last()[i] == s[i]);
                assert(table_has_key(s.drop_last(), id));
            }
            if table_has_key(s.drop_last(), id) {
                let i = choose|i: int|
                    0 <= i < s.drop_last().len() && (#[trigger] s.drop_last()[i]).0 == id;
                assert(s[i] == s.drop_last()[i]);
                assert(table_has_key(s, id));
            }
        }
    }
}

proof fn lemma_tmap_index(s: Seq<(Id, Endpoint)>, i: int)
    requires
        table_keys_distinct(s),
        0 <= i < s.len(),
    ensures
        tmap_of(s).dom().contains(s[i].0),
        tmap_of(s)[s[i].0] == s[i].1,
    decreases s.len(),
{
    if i == s.len() - 1 {
    } else {
        assert(s.drop_last()[i] == s[i]);
        lemma_tmap_index(s.drop_last(), i);
        assert(s[i].0 != s.last().0);
    }
}

proof fn lemma_tmap_push(s: Seq<(Id, Endpoint)>, id: Id, e: Endpoint)
    ensures
        tmap_of(s.push((id, e))) == tmap_of(s).insert(id, e),
{
    assert(s.push((id, e)).drop_last() =~= s);
    assert(s.push((id, e)).last() == (id, e));
}

proof fn lemma_tmap_remove(s: Seq<(Id, Endpoint)>, i: int)
    requires
        table_keys_distinct(s),
        0 <= i < s.len(),
    ensures
        tmap_of(s.remove(i)) =~= tmap_of(s).remove(s[i].0),
        table_keys_distinct(s.remove(i)),
        !table_has_key(s.remove(i), s[i].0),
    decreases s.len(),
{
    let t = s.remove(i);
    assert forall|k: int, l: int| 0 <= k < l < t.len() implies (#[trigger] t[k]).0 != (
    #[trigger] t[l]).0 by {
        let k0 = if k < i {
            k
        } else {
            k + 1
        };
        let l0 = if l < i {
            l
        } else {
            l + 1
        };
        assert(t[k] == s[k0]);
        assert(t[l] == s[l0]);
    }
    assert forall|k: int| 0 <= k < t.len() implies (#[trigger] t[k]).0 != s[i].0 by {
        let k0 = if k < i {
            k
        } else {
            k + 1
        };
        assert(t[k] == s[k0]);
    }
    if i == s.len() - 1 {
        assert(t =~= s.drop_last());
        lemma_tmap_dom(s.drop_last(), s[i].0);
        assert(!table_has_key(s.drop_last(), s[i].0)) by {
            if table_has_key(s.drop_last(), s[i].0) {
                let j = choose|j: int|
                    0 <= j < s.drop_last().len() && (#[trigger] s.drop_last()[j]).0 == s[i].0;
                assert(s[j] == s.drop_last()[j]);
            }
        }
        assert(tmap_of(t) =~= tmap_of(s).remove(s[i].0));
    } else {
        assert(t.drop_last() =~= s.drop_last().remove(i));
        assert(s.drop_last()[i] == s[i]);
        lemma_tmap_remove(s.drop_last(), i);
        assert(t.last() == s.last());
        assert(s[i].0 != s.last().0);
        assert(tmap_of(t) =~= tmap_of(s).remove(s[i].0));
    }
}

/// A mapping from endpoint id to endpoint state.  `take` and `put` move
/// one endpoint out and back so it can be updated without cloning.
#[derive(Debug)]
pub struct EndpointTable {
    entries: Vec<(Id, Endpoint)>,
}

impl EndpointTable {
    /// The entry list, in insertion order.
    pub closed spec fn entry_seq(self) -> Seq<(Id, Endpoint)> {
        self.entries@
    }

    /// The table as a map from id to endpoint.
    pub open spec fn model(self) -> Map<Id, Endpoint> {
        tmap_of(self.entry_seq())
    }

    /// Well-formedness: one entry per id, and every endpoint well-formed.
    pub open spec fn spec_wf(self) -> bool {
        &&& table_keys_distinct(self.entry_seq())
        &&& forall|i: int|
            0 <= i < self.entry_seq().len() ==> (#[trigger] self.entry_seq()[i]).1.spec_wf()
    }

    /// Every endpoint in the model of a well-formed table is well-formed.
    pub proof fn lemma_wf_model(self)
        requires
            self.spec_wf(),
        ensures
            forall|id: Id| #[trigger]
                self.model().dom().contains(id) ==> self.model()[id].spec_wf(),
    {
        assert forall|id: Id| #[trigger] self.model().dom().contains(id) implies self.model()[id]
            .spec_wf() by {
            lemma_tmap_dom(self.entry_seq(), id);
            let i = choose|i: int|
                0 <= i < self.entry_seq().len() && (#[trigger] self.entry_seq()[i]).0 == id;
            lemma_tmap_index(self.entry_seq(), i);
        }
    }

    /// An empty table.
    pub fn new() -> (t: EndpointTable)
        ensures
            t.model() == Map::<Id, Endpoint>::empty(),
            t.spec_wf(),
    {
        EndpointTable { entries: Vec::new() }
    }

    /// Index of the entry with the given id, if present.
    fn find_index(&self, id: Id) -> (r: Option<usize>)
        ensures
            match r {
                Some(i) => i < self.entry_seq().len() && self.entry_seq()[i as int].0 == id,
                None => !table_has_key(self.entry_seq(), id),
            },
    {
        let mut i: usize = 0;
        while i < self.entries.len()
            invariant
                i <= self.entries@.len(),
                forall|j: int| 0 <= j < i ==> (#[trigger] self.entries@[j]).0 != id,
            decreases self.entries@.len() - i,
        {
            if self.entries[i].0 == id {
                return Some(i);
            }
            i += 1;
        }
        None
    }

    /// Whether the table holds an endpoint for this id.
    pub fn contains(&self, id: Id) -> (r: bool)
        ensures
            r == self.model().dom().contains(id),
    {
        proof {
            lemma_tmap_dom(self.entry_seq(), id);
        }
        self.find_index(id).is_some()
    }

    /// A borrow of the endpoint for this id, if present.
    pub fn get(&self, id: Id) -> (r: Option<&Endpoint>)
        requires
            self.spec_wf(),
        ensures
            match r {
                Some(e) => self.model().dom().contains(id) && *e == self.model()[id],
                None => !self.model().dom().contains(id),
            },
    {
        proof {
            lemma_tmap_dom(self.entry_seq(), id);
        }
        match self.find_index(id) {
            Some(i) => {
                proof {
                    lemma_tmap_index(self.entry_seq(), i as int);
                }
                Some(&self.entries[i].1)
            },
            None => None,
        }
    }

    /// Moves the endpoint for this id out of the table, if present.
    pub fn take(&mut self, id: Id) -> (r: Option<Endpoint>)
        requires
            old(self).spec_wf(),
        ensures
            final(self).spec_wf(),
            (r is Some) <==> old(self).model().dom().contains(id),
            match r {
                Some(e) => e == old(self).model()[id] && e.spec_wf() && final(self).model()
                    == old(self).model().remove(id),
                None => final(self).model() == old(self).model(),
            },
    {
        proof {
            lemma_tmap_dom(self.entry_seq(), id);
        }
        match self.find_index(id) {
            Some(i) => {
                proof {
                    lemma_tmap_index(self.entry_seq(), i as int);
                    lemma_tmap_remove(self.entry_seq(), i as int);
                }
                let entry = self.entries.remove(i);
                proof {
                    assert forall|j: int|
                        0 <= j < self.entry_seq().len() implies (#[trigger] self.entry_seq()[j])
                        .1.spec_wf() by {
                        let j0 = if j < i as int {
                            j
                        } else {
                            j + 1
                        };
                        assert(self.entry_seq()[j] == old(self).entry_seq()[j0]);
                    }
                }
                Some(entry.1)
            },
            None => None,
        }
    }

    /// Adds the endpoint for an id that the table does not hold yet.
    pub fn put(&mut self, id: Id, e: Endpoint)
        requires
            old(self).spec_wf(),
            e.spec_wf(),
            !old(self).model().dom().contains(id),
        ensures
            final(self).spec_wf(),
            final(self).model() == old(self).model().insert(id, e),
    {
        proof {
            lemma_tmap_dom(self.entry_seq(), id);
            lemma_tmap_push(self.entry_seq(), id, e);
        }
        let ghost prev = self.entry_seq();
        self.entries.push((id, e));
        proof {
            assert forall|k: int, l: int|
                0 <= k < l < self.entry_seq().len() implies (#[trigger] self.entry_seq()[k]).0
                != (#[trigger] self.entry_seq()[l]).0 by {
                if l < self.entry_seq().len() - 1 {
                    assert(self.entry_seq()[k] == prev[k]);
                    assert(self.entry_seq()[l] == prev[l]);
                } else {
                    assert(self.entry_seq()[k] == prev[k]);
                }
            }
            assert forall|j: int|
                0 <= j < self.entry_seq().len() implies (#[trigger] self.entry_seq()[j])
                .1.spec_wf() by {
                if j < self.entry_seq().len() - 1 {
                    assert(self.entry_seq()[j] == prev[j]);
                }
            }
        }
    }
}

} // verus!
