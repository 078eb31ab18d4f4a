//! Typed component storage: a mapping from entity identity to one
//! component value per entity, the shape every per-tick system reads and
//! writes its component data through.
use vstd::prelude::*;
use crate::model::EntityId;

verus! {

/// The mathematical contents of an association list: later entries shadow
/// earlier ones with the same key.
pub open spec fn map_of<T>(s: Seq<(EntityId, T)>) -> Map<EntityId, T>
    decreases s.len(),
{
    if s.len() == 0 {
        Map::empty()
    } else {
        map_of(s.drop_last()).insert(s.last().0, s.last().1)
    }
}

/// No two entries of the list carry the same key.
pub open spec fn unique_keys<T>(s: Seq<(EntityId, T)>) -> bool {
    forall|i: int, j: int| 0 <= i < j < s.len() ==> s[i].0 != s[j].0
}

/// A key is in the contents exactly when some entry of the list carries it.
pub proof fn lemma_map_of_dom<T>(s: Seq<(EntityId, T)>, k: EntityId)
    ensures
        map_of(s).dom().contains(k) <==> exists|i: int| 0 <= i < s.len() && s[i].0 == k,
    decreases s.len(),
{
    if s.len() > 0 {
        lemma_map_of_dom(s.drop_last(), k);
        if s.last().0 == k {
            assert(s[s.len() - 1].0 == k);
        } else if map_of(s).dom().contains(k) {
            let i = choose|i: int| 0 <= i < s.drop_last().len() && s.drop_last()[i].0 == k;
            assert(s[i].0 == k);
        } else if exists|i: int| 0 <= i < s.len() && s[i].0 == k {
            let i = choose|i: int| 0 <= i < s.len() && s[i].0 == k;
            assert(s.drop_last()[i].0 == k);
        }
    }
}

/// The contents of an association list form a finite map.
pub proof fn lemma_map_of_finite<T>(s: Seq<(EntityId, T)>)
    ensures
        map_of(s).dom().finite(),
    decreases s.len(),
{
    if s.len() > 0 {
        lemma_map_of_finite(s.drop_last());
    }
}

/// Under unique keys, the entry at any position gives the value stored for
/// its key.
pub proof fn lemma_map_of_index<T>(s: Seq<(EntityId, T)>, i: int)
    requires
        unique_keys(s),
        0 <= i < s.len(),
    ensures
        map_of(s).dom().contains(s[i].0),
        map_of(s)[s[i].0] == s[i].1,
    decreases s.len(),
{
    lemma_map_of_dom(s, s[i].0);
    if i < s.len() - 1 {
        assert(s[i].0 != s.last().0);
        assert(s.drop_last()[i] == s[i]);
        lemma_map_of_index(s.drop_last(), i);
    }
}

/// Under unique keys, the list and its contents have the same size.
pub proof fn lemma_map_of_len<T>(s: Seq<(EntityId, T)>)
    requires
        unique_keys(s),
    ensures
        map_of(s).dom().finite(),
        map_of(s).dom().len() == s.len(),
    decreases s.len(),
{
    lemma_map_of_finite(s);
    if s.len() > 0 {
        lemma_map_of_len(s.drop_last());
        lemma_map_of_dom(s.drop_last(), s.last().0);
        assert(forall|i: int| 0 <= i < s.drop_last().len() ==> s[i].0 != s.last().0);
        assert(!map_of(s.drop_last()).dom().contains(s.last().0));
    }
}

/// Under unique keys, removing the entry at a position removes exactly its
/// key from the contents.
pub proof fn lemma_map_of_remove<T>(s: Seq<(EntityId, T)>, i: int)
    requires
        unique_keys(s),
        0 <= i < s.len(),
    ensures
        map_of(s.remove(i)) == map_of(s).remove(s[i].0),
    decreases s.len(),
{
    let k: EntityId = s[i].0;
    if i == s.len() - 1 {
        assert(s.remove(i) =~= s.drop_last());
        lemma_map_of_dom(s.drop_last(), k);
        assert(forall|j: int| 0 <= j < s.drop_last().len() ==> s[j].0 != k);
        assert(!map_of(s.drop_last()).dom().contains(k));
        assert(map_of(s.drop_last()).insert(k, s.last().1).remove(k) =~= map_of(s.drop_last()));
    } else {
        assert(s.remove(i).drop_last() =~= s.drop_last().remove(i));
        assert(s.remove(i).last() == s.last());
        lemma_map_of_remove(s.drop_last(), i);
        assert(s.last().0 != k);
        assert(map_of(s.remove(i)) == map_of(s.drop_last()).remove(k).insert(
            s.last().0,
            s.last().1,
        ));
        assert(map_of(s.drop_last()).remove(k).insert(s.last().0, s.last().1) =~= map_of(
            s.drop_last(),
        ).insert(s.last().0, s.last().1).remove(k));
    }
}

/// Per-component storage: associates at most one component value of type
/// `T` with each entity identity.
pub struct Storage<T> {
    entries: Vec<(EntityId, T)>,
}

impl<T> View for Storage<T> {
    type V = Map<EntityId, T>;

    closed spec fn view(&self) -> Map<EntityId, T> {
        map_of(self.entries@)
    }
}

impl<T> Storage<T> {
    /// Internal well-formedness: every entity is keyed at most once.
    pub closed spec fn wf(self) -> bool {
        unique_keys(self.entries@)
    }

    /// A well-formed storage has finitely many occupied entities.
    pub proof fn lemma_dom_finite(self)
        ensures
            self@.dom().finite(),
    {
        lemma_map_of_finite(self.entries@);
    }

    /// An empty storage: no entity has the component.
    pub fn new() -> (s: Self)
        ensures
            s.wf(),
            s@ == Map::<EntityId, T>::empty(),
    {
        Storage { entries: Vec::new() }
    }

    /// How many entities currently have the component.
    pub fn len(&self) -> (n: usize)
        requires
            self.wf(),
        ensures
            n == self@.dom().len(),
    {
        proof {
            lemma_map_of_len(self.entries@);
        }
        self.entries.len()
    }

    /// Position of the entry keyed by `e`, if the storage holds one.
    fn find(&self, e: EntityId) -> (r: Option<usize>)
        requires
            self.wf(),
        ensures
            match r {
                Some(i) => i < self.entries@.len() && self.entries@[i as int].0 == e,
                None => !self@.dom().contains(e),
            },
    {
        let mut i: usize = 0;
        while i < self.entries.len()
            invariant
                i <= self.entries@.len(),
                forall|j: int| 0 <= j < i ==> self.entries@[j].0 != e,
            decreases self.entries@.len() - i,
        {
            if self.entries[i].0 == e {
                return Some(i);
            }
            i += 1;
        }
        proof {
            lemma_map_of_dom(self.entries@, e);
        }
        None
    }

    /// Read access to the component attached to `e`.
    pub fn get(&self, e: EntityId) -> (r: Option<&T>)
        requires
            self.wf(),
        ensures
            match r {
                Some(v) => self@.dom().contains(e) && *v == self@[e],
                None => !self@.dom().contains(e),
            },
    {
        match self.find(e) {
            Some(i) => {
                proof {
                    lemma_map_of_index(self.entries@, i as int);
                }
                Some(&self.entries[i].1)
            },
            None => None,
        }
    }

    /// Whether `e` currently has the component.
    pub fn contains(&self, e: EntityId) -> (r: bool)
        requires
            self.wf(),
        ensures
            r == self@.dom().contains(e),
    {
        match self.find(e) {
            Some(i) => {
                proof {
                    lemma_map_of_index(self.entries@, i as int);
                }
                true
            },
            None => false,
        }
    }

    /// Attach component `v` to entity `e`, replacing any prior value
    /// (upsert semantics).
    pub fn insert(&mut self, e: EntityId, v: T)
        requires
            old(self).wf(),
        ensures
            final(self).wf(),
            final(self)@ == old(self)@.insert(e, v),
    {
        let ghost s0 = self.entries@;
        match self.find(e) {
            Some(i) => {
                proof {
                    lemma_map_of_remove(s0, i as int);
                }
                self.entries.remove(i);
                proof {
                    assert(forall|a: int, b: int|
                        0 <= a < b < self.entries@.len() ==> #[trigger] self.entries@[a].0
                            != #[trigger] self.entries@[b].0) by {
                        assert(forall|a: int|
                            0 <= a < self.entries@.len() ==> #[trigger] self.entries@[a] == if a
                                < i {
                                s0[a]
                            } else {
                                s0[a + 1]
                            });
                    }
                }
                self.entries.push((e, v));
                proof {
                    lemma_map_of_dom(s0.remove(i as int), e);
                    assert(forall|j: int|
                        0 <= j < s0.remove(i as int).len() ==> #[trigger] s0.remove(
                            i as int,
                        )[j].0 != e) by {
                        assert(forall|j: int|
                            0 <= j < s0.remove(i as int).len() ==> #[trigger] s0.remove(
                                i as int,
                            )[j] == if j < i {
                                s0[j]
                            } else {
                                s0[j + 1]
                            });
                    }
                    assert(self.entries@.drop_last() =~= s0.remove(i as int));
                    assert(final(self)@ =~= old(self)@.insert(e, v));
                }
            },
            None => {
                self.entries.push((e, v));
                proof {
                    lemma_map_of_dom(s0, e);
                    assert(forall|j: int| 0 <= j < s0.len() ==> s0[j].0 != e);
                    assert(self.entries@.drop_last() =~= s0);
                }
            },
        }
    }

    /// Detach the component from `e`, if present.
    pub fn remove(&mut self, e: EntityId)
        requires
            old(self).wf(),
        ensures
            final(self).wf(),
            final(self)@ == old(self)@.remove(e),
    {
        let ghost s0 = self.entries@;
        match self.find(e) {
            Some(i) => {
                proof {
                    lemma_map_of_remove(s0, i as int);
                }
                self.entries.remove(i);
                proof {
                    assert(forall|a: int, b: int|
                        0 <= a < b < self.entries@.len() ==> #[trigger] self.entries@[a].0
                            != #[trigger] self.entries@[b].0) by {
                        assert(forall|a: int|
                            0 <= a < self.entries@.len() ==> #[trigger] self.entries@[a] == if a
                                < i {
                                s0[a]
                            } else {
                                s0[a + 1]
                            });
                    }
                }
            },
            None => {
                proof {
                    assert(old(self)@.remove(e) =~= old(self)@);
                }
            },
        }
    }

    /// The entities that currently have the component, each exactly once.
    pub fn keys(&self) -> (r: Vec<EntityId>)
        requires
            self.wf(),
        ensures
            r@.no_duplicates(),
            forall|e: EntityId| r@.contains(e) <==> self@.dom().contains(e),
    {
        let mut r: Vec<EntityId> = Vec::new();
        let mut i: usize = 0;
        while i < self.entries.len()
            invariant
                self.wf(),
                i <= self.entries@.len(),
                r@.len() == i,
                forall|j: int| 0 <= j < i ==> r@[j] == self.entries@[j].0,
            decreases self.entries@.len() - i,
        {
            r.push(self.entries[i].0);
            i += 1;
        }
        proof {
            assert forall|e: EntityId| r@.contains(e) <==> self@.dom().contains(e) by {
                lemma_map_of_dom(self.entries@, e);
                if self@.dom().contains(e) {
                    let j = choose|j: int|
                        0 <= j < self.entries@.len() && self.entries@[j].0 == e;
                    assert(r@[j] == e);
                }
            }
            assert(r@.no_duplicates()) by {
                assert(forall|a: int, b: int|
                    0 <= a < b < r@.len() ==> r@[a] != r@[b]) by {
                    assert(forall|a: int, b: int|
                        0 <= a < b < self.entries@.len() ==> #[trigger] self.entries@[a].0
                            != #[trigger] self.entries@[b].0);
                }
            }
        }
        r
    }
}

} // verus!
