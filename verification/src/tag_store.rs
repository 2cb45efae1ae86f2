//! The tags that were given to services and features by hand, kept by id.
//!
//! The store is a flat mapping from the name of an id to a set of tags. It
//! is read as a whole from a document, and written as a whole to one: an
//! object with one member for each id, whose value is the array of the
//! tags.

use vstd::prelude::*;
use crate::ids::TagId;
use crate::json::{Json, Member};
use crate::parse::{read_tag_list, tag_list, Field, ParseError};
use crate::tags::{tag_names, TagSet};

verus! {

/// The tags that are kept for one id.
#[derive(Debug)]
pub struct StoredTags {
    id: String,
    tags: TagSet,
}

/// The tags that `mapping` keeps for `id`: none where it knows no such id.
pub open spec fn kept_for(mapping: Map<Seq<char>, Set<Seq<char>>>, id: Seq<char>) -> Set<Seq<char>> {
    if mapping.dom().contains(id) {
        mapping[id]
    } else {
        Set::empty()
    }
}

/// The mapping that a list of entries stands for. Where an id comes twice,
/// the first entry counts.
pub closed spec fn mapping_of(entries: Seq<StoredTags>) -> Map<Seq<char>, Set<Seq<char>>>
    decreases entries.len(),
{
    if entries.len() == 0 {
        Map::empty()
    } else {
        let before = mapping_of(entries.drop_last());
        if before.dom().contains(entries.last().id@) {
            before
        } else {
            before.insert(entries.last().id@, entries.last().tags@)
        }
    }
}

/// The mapping that the members of an object state: each member is an id
/// with an array of tags. Where a name comes twice, the first member
/// counts. The first member that is no array of strings decides the error.
pub open spec fn stated_mapping(members: Seq<Member>) -> Result<
    Map<Seq<char>, Set<Seq<char>>>,
    ParseError,
>
    decreases members.len(),
{
    if members.len() == 0 {
        Ok(Map::empty())
    } else {
        match stated_mapping(members.drop_last()) {
            Err(e) => Err(e),
            Ok(before) => match members.last().value {
                Json::Array(items) => match tag_list(items@) {
                    Err(e) => Err(e),
                    Ok(tags) => if before.dom().contains(members.last().name@) {
                        Ok(before)
                    } else {
                        Ok(before.insert(members.last().name@, tags))
                    },
                },
                _ => Err(ParseError::WrongType(Field::Tags)),
            },
        }
    }
}

/// The mapping that a document states.
pub open spec fn stated_store(source: Json) -> Result<Map<Seq<char>, Set<Seq<char>>>, ParseError> {
    match source {
        Json::Object(members) => stated_mapping(members@),
        _ => Err(ParseError::NotAnObject),
    }
}

spec fn keys_of(entries: Seq<StoredTags>) -> Seq<Seq<char>> {
    entries.map_values(|e: StoredTags| e.id@)
}

/// The ids of a mapping of entries are the ids of the entries.
proof fn lemma_domain(entries: Seq<StoredTags>)
    ensures
        forall|id: Seq<char>| #[trigger]
            mapping_of(entries).dom().contains(id) <==> keys_of(entries).contains(id),
    decreases entries.len(),
{
    if entries.len() == 0 {
        assert forall|id: Seq<char>| #[trigger]
            mapping_of(entries).dom().contains(id) <==> keys_of(entries).contains(id) by {}
    } else {
        let init = entries.drop_last();
        let last = entries.last().id@;
        lemma_domain(init);
        assert(keys_of(entries) =~= keys_of(init).push(last));
        assert forall|id: Seq<char>| #[trigger]
            mapping_of(entries).dom().contains(id) <==> keys_of(entries).contains(id) by {
            let known = mapping_of(init).dom().contains(id);
            assert(known <==> keys_of(init).contains(id));
            assert(mapping_of(entries).dom().contains(id) <==> known || id == last);
            if keys_of(entries).contains(id) {
                let k = choose|k: int| 0 <= k < keys_of(entries).len() && keys_of(entries)[k] == id;
                if k < init.len() {
                    assert(keys_of(init)[k] == id);
                }
            }
            if keys_of(init).contains(id) {
                let k = choose|k: int| 0 <= k < keys_of(init).len() && keys_of(init)[k] == id;
                assert(keys_of(entries)[k] == id);
            }
            if id == last {
                assert(keys_of(entries)[entries.len() - 1] == id);
            }
        }
    }
}

/// Where no id comes twice, each entry is what the mapping keeps for its id.
proof fn lemma_each_entry_counts(entries: Seq<StoredTags>, i: int)
    requires
        keys_of(entries).no_duplicates(),
        0 <= i < entries.len(),
    ensures
        mapping_of(entries).dom().contains(entries[i].id@),
        mapping_of(entries)[entries[i].id@] == entries[i].tags@,
    decreases entries.len(),
{
    let init = entries.drop_last();
    let last = entries.last().id@;
    lemma_domain(init);
    assert(keys_of(entries) =~= keys_of(init).push(last));
    assert(keys_of(entries)[i] == entries[i].id@);
    assert(keys_of(entries)[entries.len() - 1] == last);
    let known = mapping_of(init).dom().contains(last);
    assert(known <==> keys_of(init).contains(last));
    if keys_of(init).contains(last) {
        let k = choose|k: int| 0 <= k < keys_of(init).len() && keys_of(init)[k] == last;
        assert(keys_of(entries)[k] == last);
    }
    assert(!known);
    if i < entries.len() - 1 {
        assert forall|a: int, b: int|
            0 <= a < keys_of(init).len() && 0 <= b < keys_of(init).len() && a != b implies keys_of(
            init,
        )[a] != keys_of(init)[b] by {
            assert(keys_of(init)[a] == keys_of(entries)[a]);
            assert(keys_of(init)[b] == keys_of(entries)[b]);
        }
        lemma_each_entry_counts(init, i);
        assert(init[i] == entries[i]);
    }
}

/// The tags of all ids, kept by id.
#[derive(Debug)]
pub struct TagStore {
    entries: Vec<StoredTags>,
}

impl View for TagStore {
    type V = Map<Seq<char>, Set<Seq<char>>>;

    closed spec fn view(&self) -> Map<Seq<char>, Set<Seq<char>>> {
        mapping_of(self.entries@)
    }
}

impl TagStore {
    #[verifier::type_invariant]
    spec fn no_id_twice(&self) -> bool {
        keys_of(self.entries@).no_duplicates()
    }

    /// The store that keeps nothing.
    pub fn new() -> (r: TagStore)
        ensures
            r@ == Map::<Seq<char>, Set<Seq<char>>>::empty(),
    {
        TagStore { entries: Vec::new() }
    }

    fn position(&self, id: &str) -> (r: Option<usize>)
        ensures
            r is Some <==> self@.dom().contains(id@),
            r matches Some(i) ==> i < self.entries@.len() && self.entries@[i as int].id@ == id@
                && self@[id@] == self.entries@[i as int].tags@,
    {
        proof {
            use_type_invariant(self);
            lemma_domain(self.entries@);
        }
        let wanted = id.to_owned();
        let mut i: usize = 0;
        while i < self.entries.len()
            invariant
                i <= self.entries@.len(),
                wanted@ == id@,
                keys_of(self.entries@).no_duplicates(),
                forall|k: int| 0 <= k < i ==> keys_of(self.entries@)[k] != id@,
            decreases self.entries@.len() - i,
        {
            if self.entries[i].id == wanted {
                proof {
                    lemma_each_entry_counts(self.entries@, i as int);
                }
                return Some(i);
            }
            assert(keys_of(self.entries@)[i as int] == self.entries@[i as int].id@);
            i += 1;
        }
        None
    }

    /// The tags that are kept for `id`.
    pub fn tags_of(&self, id: &str) -> (r: TagSet)
        ensures
            r@ == kept_for(self@, id@),
    {
        match self.position(id) {
            Some(i) => self.entries[i].tags.clone(),
            None => TagSet::new(),
        }
    }

    fn edit(&mut self, id: &str, tags: &[TagId], add: bool)
        ensures
            final(self)@ == old(self)@.insert(
                id@,
                crate::registry::edited(kept_for(old(self)@, id@), tag_names(tags@), add),
            ),
    {
        proof {
            use_type_invariant(&*self);
            lemma_domain(self.entries@);
        }
        let ghost before = self.entries@;
        let ghost wanted = crate::registry::edited(kept_for(self@, id@), tag_names(tags@), add);
        match self.position(id) {
            Some(i) => {
                let mut entries: Vec<StoredTags> = Vec::new();
                core::mem::swap(&mut entries, &mut self.entries);
                assert(keys_of(self.entries@) =~= Seq::empty());
                if add {
                    entries[i].tags.extend(tags);
                } else {
                    entries[i].tags.subtract(tags);
                }
                proof {
                    assert(keys_of(entries@) =~= keys_of(before));
                    lemma_domain(entries@);
                    assert forall|k: Seq<char>| #[trigger]
                        mapping_of(entries@).dom().contains(k) <==> mapping_of(before).insert(
                            id@,
                            wanted,
                        ).dom().contains(k) by {}
                    assert forall|k: Seq<char>| #[trigger]
                        mapping_of(entries@).dom().contains(k) implies mapping_of(entries@)[k]
                        == mapping_of(before).insert(id@, wanted)[k] by {
                        let m = choose|m: int| 0 <= m < entries@.len() && keys_of(entries@)[m] == k;
                        lemma_each_entry_counts(entries@, m);
                        lemma_each_entry_counts(before, m);
                        if m != i {
                            assert(keys_of(before)[m] != keys_of(before)[i as int]);
                        }
                    }
                    assert(mapping_of(entries@) =~= mapping_of(before).insert(id@, wanted));
                }
                core::mem::swap(&mut entries, &mut self.entries);
            },
            None => {
                let mut kept = TagSet::new();
                if add {
                    kept.extend(tags);
                }
                assert(kept@ =~= wanted);
                let entry = StoredTags { id: id.to_owned(), tags: kept };
                let mut entries: Vec<StoredTags> = Vec::new();
                core::mem::swap(&mut entries, &mut self.entries);
                assert(keys_of(self.entries@) =~= Seq::empty());
                entries.push(entry);
                proof {
                    assert(keys_of(entries@) =~= keys_of(before).push(id@));
                    assert(entries@.drop_last() =~= before);
                }
                core::mem::swap(&mut entries, &mut self.entries);
            },
        }
    }

    /// Adds `tags` to the tags that are kept for `id`.
    pub fn add_tags(&mut self, id: &str, tags: &[TagId])
        ensures
            final(self)@ == old(self)@.insert(id@, kept_for(old(self)@, id@).union(tag_names(tags@))),
    {
        self.edit(id, tags, true)
    }

    /// Takes `tags` from the tags that are kept for `id`.
    pub fn remove_tags(&mut self, id: &str, tags: &[TagId])
        ensures
            final(self)@ == old(self)@.insert(
                id@,
                kept_for(old(self)@, id@).difference(tag_names(tags@)),
            ),
    {
        self.edit(id, tags, false)
    }

    fn from_members(members: &Vec<Member>) -> (r: Result<TagStore, ParseError>)
        ensures
            crate::parse::read_as(r) == stated_mapping(members@),
    {
        let mut store = TagStore::new();
        let mut i: usize = 0;
        assert(members@.take(0) =~= Seq::<Member>::empty());
        while i < members.len()
            invariant
                i <= members@.len(),
                stated_mapping(members@.take(i as int)) == Ok::<
                    Map<Seq<char>, Set<Seq<char>>>,
                    ParseError,
                >(store@),
            decreases members@.len() - i,
        {
            proof {
                assert(members@.take(i + 1).drop_last() =~= members@.take(i as int));
                assert(members@.take(i + 1).last() == members@[i as int]);
            }
            let tags = match &members[i].value {
                Json::Array(items) => match read_tag_list(items) {
                    Ok(tags) => tags.to_vec(),
                    Err(e) => {
                        proof {
                            lemma_mapping_fails_for_good(members@, i + 1);
                        }
                        return Err(e);
                    },
                },
                _ => {
                    proof {
                        lemma_mapping_fails_for_good(members@, i + 1);
                    }
                    return Err(ParseError::WrongType(Field::Tags));
                },
            };
            if store.position(members[i].name.as_str()).is_none() {
                let ghost before = store@;
                store.edit(members[i].name.as_str(), tags.as_slice(), true);
                proof {
                    assert(kept_for(before, members@[i as int].name@) =~= Set::empty());
                    assert(Set::<Seq<char>>::empty().union(tag_names(tags@)) =~= tag_names(tags@));
                }
            }
            i += 1;
        }
        assert(members@.take(i as int) =~= members@);
        Ok(store)
    }

    /// The store that a document states.
    pub fn from_json(source: &Json) -> (r: Result<TagStore, ParseError>)
        ensures
            crate::parse::read_as(r) == stated_store(*source),
    {
        match source {
            Json::Object(members) => TagStore::from_members(members),
            _ => Err(ParseError::NotAnObject),
        }
    }

    /// The document that states the store.
    pub fn to_json(&self) -> (r: Json)
        ensures
            stated_store(r) == Ok::<Map<Seq<char>, Set<Seq<char>>>, ParseError>(self@),
    {
        let mut members: Vec<Member> = Vec::new();
        let mut i: usize = 0;
        assert(self.entries@.take(0) =~= Seq::<StoredTags>::empty());
        while i < self.entries.len()
            invariant
                i <= self.entries@.len(),
                stated_mapping(members@) == Ok::<Map<Seq<char>, Set<Seq<char>>>, ParseError>(
                    mapping_of(self.entries@.take(i as int)),
                ),
            decreases self.entries@.len() - i,
        {
            let ghost before = members@;
            let items = write_tags(&self.entries[i].tags);
            let member = Member { name: self.entries[i].id.clone(), value: Json::Array(items) };
            members.push(member);
            proof {
                assert(members@.drop_last() =~= before);
                assert(self.entries@.take(i + 1).drop_last() =~= self.entries@.take(i as int));
                assert(self.entries@.take(i + 1).last() == self.entries@[i as int]);
            }
            i += 1;
        }
        assert(self.entries@.take(i as int) =~= self.entries@);
        Json::Object(members)
    }
}

/// Once a prefix of the members of an object is refused as a mapping, the
/// whole object is refused, with the same error.
proof fn lemma_mapping_fails_for_good(members: Seq<Member>, n: int)
    requires
        0 <= n <= members.len(),
        stated_mapping(members.take(n)) is Err,
    ensures
        stated_mapping(members) == stated_mapping(members.take(n)),
    decreases members.len() - n,
{
    if n == members.len() {
        assert(members.take(n) =~= members);
    } else {
        assert(members.take(n + 1).drop_last() =~= members.take(n));
        lemma_mapping_fails_for_good(members, n + 1);
    }
}

/// The list of documents that names the tags of a set.
fn write_tags(tags: &TagSet) -> (r: Vec<Json>)
    ensures
        tag_list(r@) == Ok::<Set<Seq<char>>, ParseError>(tags@),
{
    let listed = tags.to_vec();
    let mut r: Vec<Json> = Vec::new();
    let mut i: usize = 0;
    assert(tag_names(listed@.take(0)) =~= Set::<Seq<char>>::empty());
    while i < listed.len()
        invariant
            i <= listed@.len(),
            tag_list(r@) == Ok::<Set<Seq<char>>, ParseError>(tag_names(listed@.take(i as int))),
        decreases listed@.len() - i,
    {
        let ghost before = r@;
        r.push(Json::Text(listed[i].as_str().to_owned()));
        proof {
            assert(r@.drop_last() =~= before);
            crate::tags::lemma_tag_names_step(listed@, i as int);
        }
        i += 1;
    }
    assert(listed@.take(i as int) =~= listed@);
    r
}

} // verus!
