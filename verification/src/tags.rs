//! Sets of tags.

use vstd::prelude::*;
use crate::ids::{Named, TagId};

verus! {

/// The names of a sequence of tags, in its order.
pub open spec fn names_of(tags: Seq<TagId>) -> Seq<Seq<char>> {
    tags.map_values(|t: TagId| t@)
}

/// The names of a sequence of tags, as a set.
pub open spec fn tag_names(tags: Seq<TagId>) -> Set<Seq<char>> {
    names_of(tags).to_set()
}

/// A set of tags. No tag is held twice.
#[derive(Debug)]
pub struct TagSet {
    items: Vec<TagId>,
}

impl View for TagSet {
    type V = Set<Seq<char>>;

    closed spec fn view(&self) -> Set<Seq<char>> {
        tag_names(self.items@)
    }
}

impl TagSet {
    spec fn names(&self) -> Seq<Seq<char>> {
        names_of(self.items@)
    }

    #[verifier::type_invariant]
    spec fn distinct(&self) -> bool {
        self.names().no_duplicates()
    }

    /// The empty set.
    pub fn new() -> (r: TagSet)
        ensures
            r@ == Set::<Seq<char>>::empty(),
    {
        let r = TagSet { items: Vec::new() };
        assert(r@ =~= Set::<Seq<char>>::empty());
        r
    }

    /// The set of the given tags.
    pub fn from_slice(tags: &[TagId]) -> (r: TagSet)
        ensures
            r@ == tag_names(tags@),
    {
        let mut r = TagSet::new();
        r.extend(tags);
        assert(r@ =~= tag_names(tags@));
        r
    }

    /// The number of tags in the set.
    pub fn len(&self) -> (n: usize)
        ensures
            self@.finite(),
            n == self@.len(),
    {
        proof {
            use_type_invariant(self);
            self.names().unique_seq_to_set();
        }
        self.items.len()
    }

    /// Whether the set holds no tag.
    pub fn is_empty(&self) -> (r: bool)
        ensures
            r == (self@ == Set::<Seq<char>>::empty()),
    {
        proof {
            if self.items@.len() > 0 {
                assert(self.names()[0] == self.items@[0]@);
                assert(self.names().contains(self.names()[0]));
                assert(self@.contains(self.items@[0]@));
            } else {
                assert(self@ =~= Set::<Seq<char>>::empty());
            }
        }
        self.items.len() == 0
    }

    /// Whether `tag` is in the set.
    pub fn contains(&self, tag: &TagId) -> (r: bool)
        ensures
            r == self@.contains(tag@),
    {
        self.position(tag).is_some()
    }

    fn position(&self, tag: &TagId) -> (r: Option<usize>)
        ensures
            r is Some <==> self@.contains(tag@),
            r matches Some(i) ==> i < self.items@.len() && self.items@[i as int]@ == tag@,
    {
        let mut i: usize = 0;
        while i < self.items.len()
            invariant
                i <= self.items@.len(),
                forall|k: int| 0 <= k < i ==> self.items@[k]@ != tag@,
            decreases self.items@.len() - i,
        {
            if self.items[i].same(tag) {
                proof {
                    assert(self.names()[i as int] == tag@);
                    assert(self.names().contains(tag@));
                }
                return Some(i);
            }
            i += 1;
        }
        proof {
            if self@.contains(tag@) {
                let k = choose|k: int| 0 <= k < self.names().len() && self.names()[k] == tag@;
                assert(self.items@[k]@ == tag@);
            }
        }
        None
    }

    /// Puts `tag` into the set. Returns whether it was new.
    pub fn insert(&mut self, tag: TagId) -> (added: bool)
        ensures
            final(self)@ == old(self)@.insert(tag@),
            added == !old(self)@.contains(tag@),
    {
        if self.contains(&tag) {
            assert(self@ =~= self@.insert(tag@));
            false
        } else {
            proof {
                use_type_invariant(&*self);
            }
            let ghost before = self.names();
            let mut items: Vec<TagId> = Vec::new();
            core::mem::swap(&mut items, &mut self.items);
            items.push(tag);
            proof {
                assert(names_of(items@) =~= before.push(tag@));
                assert(!before.contains(tag@));
            }
            core::mem::swap(&mut items, &mut self.items);
            proof {
                assert(self.names() =~= before.push(tag@));
                assert(!before.contains(tag@));
                assert(self.names().no_duplicates());
                assert forall|n: Seq<char>| self@.contains(n) == old(self)@.insert(tag@).contains(
                    n,
                ) by {
                    if before.contains(n) {
                        let k = choose|k: int| 0 <= k < before.len() && before[k] == n;
                        assert(self.names()[k] == n);
                    }
                    if n == tag@ {
                        assert(self.names()[before.len() as int] == n);
                    }
                }
                assert(self@ =~= old(self)@.insert(tag@));
            }
            true
        }
    }

    /// Takes `tag` out of the set. Returns whether it was there.
    pub fn remove(&mut self, tag: &TagId) -> (removed: bool)
        ensures
            final(self)@ == old(self)@.remove(tag@),
            removed == old(self)@.contains(tag@),
    {
        match self.position(tag) {
            None => {
                assert(self@ =~= self@.remove(tag@));
                false
            },
            Some(i) => {
                proof {
                    use_type_invariant(&*self);
                }
                let ghost before = self.names();
                let mut items: Vec<TagId> = Vec::new();
                core::mem::swap(&mut items, &mut self.items);
                items.remove(i);
                proof {
                    assert(names_of(items@) =~= before.remove(i as int));
                }
                core::mem::swap(&mut items, &mut self.items);
                proof {
                    assert(self.names() =~= before.remove(i as int));
                    assert(self.names().no_duplicates());
                    assert(before[i as int] == tag@);
                    assert forall|n: Seq<char>| self@.contains(n) == old(self)@.remove(
                        tag@,
                    ).contains(n) by {
                        if self.names().contains(n) {
                            let k = choose|k: int| 0 <= k < self.names().len() && self.names()[k]
                                == n;
                            if k < i {
                                assert(before[k] == n);
                            } else {
                                assert(before[k + 1] == n);
                            }
                        }
                        if before.contains(n) && n != tag@ {
                            let k = choose|k: int| 0 <= k < before.len() && before[k] == n;
                            if k < i {
                                assert(self.names()[k] == n);
                            } else {
                                assert(self.names()[k - 1] == n);
                            }
                        }
                    }
                    assert(self@ =~= old(self)@.remove(tag@));
                }
                true
            },
        }
    }

    /// Puts every tag of `tags` into the set.
    pub fn extend(&mut self, tags: &[TagId])
        ensures
            final(self)@ == old(self)@.union(tag_names(tags@)),
    {
        let mut i: usize = 0;
        assert(tag_names(tags@.take(0)) =~= Set::<Seq<char>>::empty());
        assert(self@ =~= old(self)@.union(tag_names(tags@.take(0))));
        while i < tags.len()
            invariant
                i <= tags@.len(),
                self@ == old(self)@.union(tag_names(tags@.take(i as int))),
            decreases tags@.len() - i,
        {
            let tag = tags[i].duplicate();
            self.insert(tag);
            proof {
                lemma_tag_names_step(tags@, i as int);
                assert(self@ =~= old(self)@.union(tag_names(tags@.take(i + 1))));
            }
            i += 1;
        }
        assert(tags@.take(i as int) =~= tags@);
    }

    /// Takes every tag of `tags` out of the set.
    pub fn subtract(&mut self, tags: &[TagId])
        ensures
            final(self)@ == old(self)@.difference(tag_names(tags@)),
    {
        let mut i: usize = 0;
        assert(tag_names(tags@.take(0)) =~= Set::<Seq<char>>::empty());
        assert(self@ =~= old(self)@.difference(tag_names(tags@.take(0))));
        while i < tags.len()
            invariant
                i <= tags@.len(),
                self@ == old(self)@.difference(tag_names(tags@.take(i as int))),
            decreases tags@.len() - i,
        {
            self.remove(&tags[i]);
            proof {
                lemma_tag_names_step(tags@, i as int);
                assert(self@ =~= old(self)@.difference(tag_names(tags@.take(i + 1))));
            }
            i += 1;
        }
        assert(tags@.take(i as int) =~= tags@);
    }

    /// Whether every tag of `other` is in `self`.
    pub fn includes(&self, other: &TagSet) -> (r: bool)
        ensures
            r == other@.subset_of(self@),
    {
        let mut i: usize = 0;
        while i < other.items.len()
            invariant
                i <= other.items@.len(),
                forall|k: int| 0 <= k < i ==> self@.contains(other.items@[k]@),
            decreases other.items@.len() - i,
        {
            if !self.contains(&other.items[i]) {
                proof {
                    assert(other.names()[i as int] == other.items@[i as int]@);
                    assert(other.names().contains(other.items@[i as int]@));
                    assert(other@.contains(other.items@[i as int]@));
                }
                return false;
            }
            i += 1;
        }
        proof {
            assert forall|n: Seq<char>| other@.contains(n) implies self@.contains(n) by {
                let k = choose|k: int| 0 <= k < other.names().len() && other.names()[k] == n;
                assert(other.items@[k]@ == n);
            }
        }
        true
    }

    /// The set of the tags that are in `self` or in `other`.
    pub fn union(&self, other: &TagSet) -> (r: TagSet)
        ensures
            r@ == self@.union(other@),
    {
        let mut r = self.clone();
        r.extend(other.items.as_slice());
        r
    }

    /// The tags of the set, each once.
    pub fn to_vec(&self) -> (r: Vec<TagId>)
        ensures
            tag_names(r@) == self@,
            names_of(r@).no_duplicates(),
    {
        proof {
            use_type_invariant(self);
        }
        let mut r: Vec<TagId> = Vec::new();
        let mut i: usize = 0;
        while i < self.items.len()
            invariant
                i <= self.items@.len(),
                names_of(r@) == self.names().take(i as int),
            decreases self.items@.len() - i,
        {
            let ghost before = r@;
            r.push(self.items[i].duplicate());
            assert(names_of(r@) =~= names_of(before).push(self.items@[i as int]@));
            assert(names_of(r@) =~= self.names().take(i + 1));
            i += 1;
        }
        assert(self.names().take(i as int) =~= self.names());
        r
    }
}

impl Clone for TagSet {
    fn clone(&self) -> (r: TagSet)
        ensures
            r@ == self@,
    {
        let items = self.to_vec();
        proof {
            use_type_invariant(self);
        }
        TagSet { items }
    }
}

/// The names of the first `i + 1` tags are those of the first `i`, and the
/// name of the tag at `i`.
pub proof fn lemma_tag_names_step(tags: Seq<TagId>, i: int)
    requires
        0 <= i < tags.len(),
    ensures
        tag_names(tags.take(i + 1)) == tag_names(tags.take(i)).insert(tags[i]@),
{
    let a = names_of(tags.take(i));
    let b = names_of(tags.take(i + 1));
    assert(b =~= a.push(tags[i]@));
    assert forall|n: Seq<char>| b.to_set().contains(n) == a.to_set().insert(tags[i]@).contains(
        n,
    ) by {
        if a.contains(n) {
            let k = choose|k: int| 0 <= k < a.len() && a[k] == n;
            assert(b[k] == n);
        }
        if n == tags[i]@ {
            assert(b[i] == n);
        }
    }
    assert(b.to_set() =~= a.to_set().insert(tags[i]@));
}

} // verus!
