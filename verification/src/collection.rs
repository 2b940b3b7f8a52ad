//! The generic entry store.
//!
//! A `Collection<T>` maps integer identities to records of kind `T`. The
//! identities within one collection are unique; the next identity assigned to
//! a new record is one past the largest identity present, or 0 for an empty
//! collection. A collection travels to and from disk as a document: a list of
//! (identity, record) pairs; the caller performs the file access and hands
//! the pairs in.

use vstd::prelude::*;

verus! {

use crate::errors::StoreError;

/// What a record must offer so that a collection can assign and read its
/// identity.
pub trait MapEntryWithId: Sized {
    /// The identity currently stored in the entry.
    spec fn id_of(&self) -> u32;

    /// The entry with its identity replaced by `id` and every other field
    /// unchanged.
    spec fn with_id(&self, id: u32) -> Self;

    /// Replacing the identity stores exactly that identity.
    proof fn lemma_with_id(&self, id: u32)
        ensures
            self.with_id(id).id_of() == id,
    ;

    /// Read the identity.
    fn get_id(&self) -> (r: u32)
        ensures
            r == self.id_of(),
    ;

    /// Overwrite the identity, leaving every other field unchanged.
    fn set_id(&mut self, id: u32)
        ensures
            *final(self) == old(self).with_id(id),
    ;

    /// The two entries carry the same content: equal field for field, with
    /// bulk fields compared by their views.
    spec fn same_entry(self, other: Self) -> bool;

    /// An owned copy carrying the same content as this entry.
    fn duplicate(&self) -> (r: Self)
        ensures
            r.same_entry(*self),
    ;
}

/// The mapping described by a list of (identity, record) pairs; a later pair
/// with the same identity wins.
pub open spec fn pairs_to_map<T>(s: Seq<(u32, T)>) -> Map<u32, T>
    decreases s.len(),
{
    if s.len() == 0 {
        Map::empty()
    } else {
        pairs_to_map(s.drop_last()).insert(s.last().0, s.last().1)
    }
}

/// No identity occurs twice in the list of pairs.
pub open spec fn pairs_unique<T>(s: Seq<(u32, T)>) -> bool {
    forall|a: int, b: int| 0 <= a < b < s.len() ==> s[a].0 != s[b].0
}

/// An identity is in the mapping of a pair list exactly when some pair
/// carries it.
pub proof fn lemma_key_lookup<T>(s: Seq<(u32, T)>, k: u32)
    ensures
        pairs_to_map(s).dom().contains(k) <==> exists|i: int| 0 <= i < s.len() && s[i].0 == k,
    decreases s.len(),
{
    if s.len() > 0 {
        let s0 = s.drop_last();
        lemma_key_lookup(s0, k);
        if s.last().0 == k {
            assert(s[s.len() - 1].0 == k);
        } else {
            if exists|i: int| 0 <= i < s.len() && s[i].0 == k {
                let i = choose|i: int| 0 <= i < s.len() && s[i].0 == k;
                assert(s0[i].0 == k);
            }
            if exists|i: int| 0 <= i < s0.len() && s0[i].0 == k {
                let i = choose|i: int| 0 <= i < s0.len() && s0[i].0 == k;
                assert(s[i].0 == k);
            }
        }
    }
}

/// Dropping the last pair keeps the identities unique.
proof fn lemma_unique_drop_last<T>(s: Seq<(u32, T)>)
    requires
        pairs_unique(s),
        s.len() > 0,
    ensures
        pairs_unique(s.drop_last()),
{
    assert forall|a: int, b: int| 0 <= a < b < s.drop_last().len() implies s.drop_last()[a].0
        != s.drop_last()[b].0 by {
        assert(s[a].0 != s[b].0);
    }
}

/// With unique identities, the mapping of a pair list sends each listed
/// identity to its listed record.
pub proof fn lemma_pair_lookup<T>(s: Seq<(u32, T)>, i: int)
    requires
        pairs_unique(s),
        0 <= i < s.len(),
    ensures
        pairs_to_map(s).dom().contains(s[i].0),
        pairs_to_map(s)[s[i].0] == s[i].1,
    decreases s.len(),
{
    if i == s.len() - 1 {
    } else {
        let s0 = s.drop_last();
        lemma_unique_drop_last(s);
        lemma_pair_lookup(s0, i);
        assert(s.last().0 != s[i].0);
    }
}

/// Removing one pair from a unique list removes exactly its identity from
/// the mapping, and keeps the identities unique.
pub proof fn lemma_pairs_remove<T>(s: Seq<(u32, T)>, i: int)
    requires
        pairs_unique(s),
        0 <= i < s.len(),
    ensures
        pairs_unique(s.remove(i)),
        pairs_to_map(s.remove(i)) == pairs_to_map(s).remove(s[i].0),
    decreases s.len(),
{
    let k = s[i].0;
    assert forall|a: int, b: int| 0 <= a < b < s.remove(i).len() implies s.remove(i)[a].0
        != s.remove(i)[b].0 by {
        let a2: int = if a < i {
            a
        } else {
            a + 1
        };
        let b2: int = if b < i {
            b
        } else {
            b + 1
        };
        assert(s[a2].0 != s[b2].0);
    }
    if i == s.len() - 1 {
        let s0 = s.drop_last();
        assert(s.remove(i) =~= s0);
        lemma_unique_drop_last(s);
        lemma_key_lookup(s0, k);
        assert(!pairs_to_map(s0).dom().contains(k)) by {
            if exists|j: int| 0 <= j < s0.len() && s0[j].0 == k {
                let j = choose|j: int| 0 <= j < s0.len() && s0[j].0 == k;
                assert(s[j].0 == s[i].0);
            }
        }
        assert(pairs_to_map(s0) =~= pairs_to_map(s0).insert(k, s[i].1).remove(k));
    } else {
        let s0 = s.drop_last();
        lemma_unique_drop_last(s);
        lemma_pairs_remove(s0, i);
        assert(s.remove(i).drop_last() =~= s0.remove(i));
        assert(s.remove(i).last() == s.last());
        assert(s.last().0 != k);
        assert(pairs_to_map(s0).remove(k).insert(s.last().0, s.last().1) =~= pairs_to_map(
            s0,
        ).insert(s.last().0, s.last().1).remove(k));
    }
}

/// One category's collection: the records of that category, keyed by their
/// identities.
pub struct Collection<T> {
    entries: Vec<(u32, T)>,
}

impl<T> View for Collection<T> {
    type V = Map<u32, T>;

    closed spec fn view(&self) -> Map<u32, T> {
        pairs_to_map(self.entries@)
    }
}

impl<T> Collection<T> {
    /// The identities stored in the underlying pair list are unique.
    pub closed spec fn well_formed(&self) -> bool {
        pairs_unique(self.entries@)
    }

    /// An empty collection.
    pub fn new() -> (r: Collection<T>)
        ensures
            r@ == Map::<u32, T>::empty(),
            r.well_formed(),
    {
        Collection { entries: Vec::new() }
    }
}

/// `r` is the identity the next record added to a collection with contents
/// `m` receives: one past the largest identity present, or 0 when `m` is
/// empty.
pub open spec fn is_next_id<T>(m: Map<u32, T>, r: u32) -> bool {
    (forall|k: u32| m.dom().contains(k) ==> k < r) && (r > 0 ==> m.dom().contains((r - 1) as u32))
}

/// The next identity of a collection is uniquely determined by its contents.
pub proof fn lemma_next_id_unique<T>(m: Map<u32, T>, a: u32, b: u32)
    requires
        is_next_id(m, a),
        is_next_id(m, b),
    ensures
        a == b,
{
    if a < b {
        assert(m.dom().contains((b - 1) as u32));
        assert(((b - 1) as u32) < a);
    }
    if b < a {
        assert(m.dom().contains((a - 1) as u32));
        assert(((a - 1) as u32) < b);
    }
}

/// The identity assignment policy: an empty collection assigns 0; a
/// non-empty collection assigns one past its largest identity.
pub proof fn lemma_next_id_policy<T>(m: Map<u32, T>, r: u32)
    requires
        is_next_id(m, r),
    ensures
        m.dom() =~= Set::<u32>::empty() ==> r == 0,
        r == 0 ==> m.dom() =~= Set::<u32>::empty(),
        r > 0 ==> m.dom().contains((r - 1) as u32) && (forall|k: u32|
            m.dom().contains(k) ==> k <= (r - 1) as u32),
{
    if m.dom() =~= Set::<u32>::empty() && r > 0 {
        assert(m.dom().contains((r - 1) as u32));
    }
}

/// The position of `id` in the pair list, if it occurs.
fn find_index<T>(collection: &Collection<T>, id: u32) -> (r: Option<usize>)
    ensures
        match r {
            Some(i) => i < collection.entries@.len() && collection.entries@[i as int].0 == id,
            None => forall|j: int|
                0 <= j < collection.entries@.len() ==> collection.entries@[j].0 != id,
        },
{
    let n = collection.entries.len();
    let mut i: usize = 0;
    while i < n
        invariant
            n == collection.entries@.len(),
            i <= n,
            forall|j: int| 0 <= j < i ==> collection.entries@[j].0 != id,
        decreases n - i,
    {
        if collection.entries[i].0 == id {
            return Some(i);
        }
        i = i + 1;
    }
    None
}

/// The next identity a new record of this collection will receive: one past
/// the largest identity present, or 0 when the collection is empty.
pub fn get_next_id<T>(collection: &Collection<T>) -> (r: u32)
    requires
        forall|k: u32| collection@.dom().contains(k) ==> k < u32::MAX,
    ensures
        is_next_id(collection@, r),
{
    let n = collection.entries.len();
    let mut r: u32 = 0;
    let mut i: usize = 0;
    while i < n
        invariant
            n == collection.entries@.len(),
            i <= n,
            forall|k: u32| collection@.dom().contains(k) ==> k < u32::MAX,
            forall|j: int| 0 <= j < i ==> collection.entries@[j].0 < r,
            r > 0 ==> exists|j: int| 0 <= j < i && collection.entries@[j].0 == (r - 1) as u32,
        decreases n - i,
    {
        let k = collection.entries[i].0;
        if k >= r {
            proof {
                lemma_key_lookup(collection.entries@, k);
                assert(collection.entries@[i as int].0 == k);
                assert(collection@.dom().contains(k));
            }
            r = k + 1;
            proof {
                assert(collection.entries@[i as int].0 == (r - 1) as u32);
            }
        }
        i = i + 1;
    }
    proof {
        assert forall|k: u32| collection@.dom().contains(k) implies k < r by {
            lemma_key_lookup(collection.entries@, k);
            let j = choose|j: int|
                0 <= j < collection.entries@.len() && collection.entries@[j].0 == k;
            assert(collection.entries@[j].0 < r);
        }
        if r > 0 {
            lemma_key_lookup(collection.entries@, (r - 1) as u32);
        }
    }
    r
}

/// Add `entry` to the collection under a freshly assigned identity, stored
/// into the entry itself, and return that identity.
pub fn add_map_entry<T: MapEntryWithId>(collection: &mut Collection<T>, entry: T) -> (r: u32)
    requires
        old(collection).well_formed(),
        forall|k: u32| old(collection)@.dom().contains(k) ==> k < u32::MAX,
    ensures
        final(collection).well_formed(),
        final(collection)@ == old(collection)@.insert(r, entry.with_id(r)),
        is_next_id(old(collection)@, r),
{
    let ghost s0 = collection.entries@;
    let ghost m0 = collection@;
    let id = get_next_id(collection);
    proof {
        assert forall|j: int| 0 <= j < s0.len() implies s0[j].0 < id by {
            lemma_key_lookup(s0, s0[j].0);
        }
    }
    let mut e = entry;
    e.set_id(id);
    collection.entries.push((id, e));
    proof {
        let s = collection.entries@;
        assert(s.drop_last() =~= s0);
        assert(s.last() == (id, e));
        assert(collection@ =~= m0.insert(id, entry.with_id(id)));
        assert forall|a: int, b: int| 0 <= a < b < s.len() implies s[a].0 != s[b].0 by {
            if b < s.len() - 1 {
                assert(s0[a].0 != s0[b].0);
            } else {
                assert(s0[a].0 < id);
            }
        }
    }
    id
}

/// Replace the record whose identity the supplied entry carries. The old
/// record is overwritten wholesale; an identity absent from the collection is
/// a `NotFound` failure and leaves the collection unchanged.
pub fn update_entry_in_collection<T: MapEntryWithId>(collection: &mut Collection<T>, entry: T) -> (r:
    Result<(), StoreError>)
    requires
        old(collection).well_formed(),
    ensures
        final(collection).well_formed(),
        old(collection)@.dom().contains(entry.id_of()) ==> r is Ok && final(collection)@ == old(
            collection,
        )@.insert(entry.id_of(), entry),
        !old(collection)@.dom().contains(entry.id_of()) ==> (r matches Err(e) && e
            == StoreError::NotFound) && final(collection)@ == old(collection)@,
{
    let ghost s0 = collection.entries@;
    let ghost m0 = collection@;
    let id = entry.get_id();
    match find_index(collection, id) {
        Some(i) => {
            proof {
                lemma_pairs_remove(s0, i as int);
            }
            let _removed = collection.entries.remove(i);
            collection.entries.push((id, entry));
            proof {
                let s = collection.entries@;
                assert(s.drop_last() =~= s0.remove(i as int));
                assert(s.last() == (id, entry));
                assert(collection@ =~= m0.insert(id, entry));
                lemma_key_lookup(s0.remove(i as int), id);
                assert forall|a: int, b: int| 0 <= a < b < s.len() implies s[a].0 != s[b].0 by {
                    if b == s.len() - 1 {
                        assert(s0.remove(i as int)[a].0 != id) by {
                            if s0.remove(i as int)[a].0 == id {
                                let a2: int = if a < i {
                                    a
                                } else {
                                    a + 1
                                };
                                assert(s0[a2].0 == s0[i as int].0);
                            }
                        }
                    } else {
                        assert(s0.remove(i as int)[a].0 != s0.remove(i as int)[b].0);
                    }
                }
                lemma_pair_lookup(s0, i as int);
            }
            Ok(())
        },
        None => {
            proof {
                lemma_key_lookup(s0, id);
            }
            Err(StoreError::NotFound)
        },
    }
}

/// A copy of the record with the given identity, or `NotFound`.
pub fn get_entry_by_id<T: MapEntryWithId>(collection: &Collection<T>, id: u32) -> (r: Result<
    T,
    StoreError,
>)
    requires
        collection.well_formed(),
    ensures
        collection@.dom().contains(id) ==> (r matches Ok(e) && e.same_entry(collection@[id])),
        !collection@.dom().contains(id) ==> (r matches Err(e) && e == StoreError::NotFound),
{
    match find_index(collection, id) {
        Some(i) => {
            proof {
                lemma_pair_lookup(collection.entries@, i as int);
            }
            Ok(collection.entries[i].1.duplicate())
        },
        None => {
            proof {
                lemma_key_lookup(collection.entries@, id);
            }
            Err(StoreError::NotFound)
        },
    }
}

/// Remove the record with the given identity, or report `NotFound` and leave
/// the collection unchanged.
pub fn delete_entry_by_id<T>(collection: &mut Collection<T>, id: u32) -> (r: Result<
    (),
    StoreError,
>)
    requires
        old(collection).well_formed(),
    ensures
        final(collection).well_formed(),
        old(collection)@.dom().contains(id) ==> r is Ok && final(collection)@ == old(
            collection,
        )@.remove(id),
        !old(collection)@.dom().contains(id) ==> (r matches Err(e) && e == StoreError::NotFound)
            && final(collection)@ == old(collection)@,
{
    let ghost s0 = collection.entries@;
    match find_index(collection, id) {
        Some(i) => {
            proof {
                lemma_pairs_remove(s0, i as int);
                lemma_pair_lookup(s0, i as int);
            }
            let _removed = collection.entries.remove(i);
            Ok(())
        },
        None => {
            proof {
                lemma_key_lookup(s0, id);
            }
            Err(StoreError::NotFound)
        },
    }
}

/// The document form under which the collection is persisted: its
/// (identity, record) pairs, handed over for the caller to write out.
pub fn to_document<T>(collection: Collection<T>) -> (r: Vec<(u32, T)>)
    requires
        collection.well_formed(),
    ensures
        pairs_unique(r@),
        pairs_to_map(r@) == collection@,
{
    collection.entries
}

/// Rebuild a collection from its persisted document. A document that lists
/// one identity twice is malformed and reports a `DeserializationError`.
pub fn from_document<T>(doc: Vec<(u32, T)>) -> (r: Result<Collection<T>, StoreError>)
    ensures
        pairs_unique(doc@) ==> (r matches Ok(c) && c@ == pairs_to_map(doc@) && c.well_formed()),
        !pairs_unique(doc@) ==> (r matches Err(e) && e == StoreError::DeserializationError),
{
    let n = doc.len();
    let mut i: usize = 0;
    while i < n
        invariant
            n == doc@.len(),
            i <= n,
            forall|a: int, b: int| 0 <= a < b < n && a < i ==> doc@[a].0 != doc@[b].0,
        decreases n - i,
    {
        let mut j: usize = i + 1;
        while j < n
            invariant
                n == doc@.len(),
                i < j <= n,
                forall|b: int| i < b < j ==> doc@[i as int].0 != doc@[b].0,
            decreases n - j,
        {
            if doc[i].0 == doc[j].0 {
                proof {
                    assert(doc@[i as int].0 == doc@[j as int].0);
                    assert(!pairs_unique(doc@));
                }
                return Err(StoreError::DeserializationError);
            }
            j = j + 1;
        }
        i = i + 1;
    }
    Ok(Collection { entries: doc })
}

/// Adding an entry and then getting it by the assigned identity yields the
/// entry itself, except that its identity field now carries the assigned
/// value.
pub proof fn lemma_add_then_get<T: MapEntryWithId>(before: Map<u32, T>, entry: T, id: u32)
    ensures
        before.insert(id, entry.with_id(id)).dom().contains(id),
        before.insert(id, entry.with_id(id))[id] == entry.with_id(id),
        entry.with_id(id).id_of() == id,
{
    entry.lemma_with_id(id);
}

/// Deleting an identity removes exactly that record: a later lookup of the
/// same identity fails, and every other record is untouched.
pub proof fn lemma_delete_then_get<T>(before: Map<u32, T>, id: u32)
    ensures
        !before.remove(id).dom().contains(id),
        forall|k: u32|
            k != id && before.dom().contains(k) ==> before.remove(id).dom().contains(k)
                && before.remove(id)[k] == before[k],
{
}

/// Storing a collection as a document and loading the document back yields a
/// collection with the same contents, whatever order the pairs were listed
/// in.
pub proof fn lemma_document_round_trip<T>(
    stored: Collection<T>,
    doc: Vec<(u32, T)>,
    loaded: Collection<T>,
)
    requires
        pairs_to_map(doc@) == stored@,
        loaded@ == pairs_to_map(doc@),
    ensures
        loaded@ == stored@,
{
}

} // verus!
