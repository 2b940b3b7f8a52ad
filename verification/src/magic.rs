//! The Magic category: its record shape and the card services operating on
//! its collection.
//!
//! The services are the compute half of each operation: the caller loads the
//! collection document and performs the file writes, and hands the plain
//! values in.

use vstd::prelude::*;

verus! {

use crate::collection::{
    add_map_entry,
    delete_entry_by_id,
    get_entry_by_id,
    get_next_id,
    is_next_id,
    update_entry_in_collection,
    Collection,
    MapEntryWithId,
};
use crate::enums::{Condition, Language};
use crate::errors::StoreError;
use crate::filename::{compute_image_index, file_extension, spec_extension, spec_image_index};

use crate::sanitize::{format_text_for_fs, sanitized};
use crate::text::{
    clone_strings,
    dec_chars,
    lemma_lex_total,
    lemma_lex_trans,
    lex_le,
    push_char,
    str_le,
    u32_to_string,
};

/// Magic set information.
pub struct CardSet {
    /// The set code under which the remote catalog lists the set.
    pub id: String,
    /// The set's name.
    pub name: String,
    /// Release date in the format YYYY/MM/DD.
    pub release_date: String,
}

impl CardSet {
    /// An owned copy equal to this set.
    pub fn duplicate(&self) -> (r: CardSet)
        ensures
            r == *self,
    {
        CardSet {
            id: self.id.clone(),
            name: self.name.clone(),
            release_date: self.release_date.clone(),
        }
    }
}

/// One Magic card entry of the collection.
pub struct Card {
    /// The identity of this entry within the collection.
    pub id: u32,
    /// How many copies are owned.
    pub amount: u8,
    /// The card's name.
    pub name: String,
    /// The set the card belongs to.
    pub set: CardSet,
    /// A free-form note.
    pub note: String,
    /// The filenames of the images attached to this entry, oldest first.
    pub images: Vec<String>,
    /// The language the card is printed in.
    pub language: Language,
    /// The card's physical condition.
    pub condition: Condition,
    /// Whether the card is a foil print.
    pub foil: bool,
    /// Whether the card is signed.
    pub signed: bool,
    /// Whether the card is altered.
    pub altered: bool,
}

impl MapEntryWithId for Card {
    open spec fn id_of(&self) -> u32 {
        self.id
    }

    open spec fn with_id(&self, id: u32) -> Card {
        Card {
            id,
            amount: self.amount,
            name: self.name,
            set: self.set,
            note: self.note,
            images: self.images,
            language: self.language,
            condition: self.condition,
            foil: self.foil,
            signed: self.signed,
            altered: self.altered,
        }
    }

    proof fn lemma_with_id(&self, id: u32) {
    }

    fn get_id(&self) -> (r: u32) {
        self.id
    }

    fn set_id(&mut self, id: u32) {
        self.id = id;
    }

    open spec fn same_entry(self, other: Card) -> bool {
        self.id == other.id && self.amount == other.amount && self.name == other.name && self.set
            == other.set && self.note == other.note && self.images@ == other.images@
            && self.language == other.language && self.condition == other.condition && self.foil
            == other.foil && self.signed == other.signed && self.altered == other.altered
    }

    fn duplicate(&self) -> (r: Card) {
        Card {
            id: self.id,
            amount: self.amount,
            name: self.name.clone(),
            set: self.set.duplicate(),
            note: self.note.clone(),
            images: clone_strings(&self.images),
            language: self.language,
            condition: self.condition,
            foil: self.foil,
            signed: self.signed,
            altered: self.altered,
        }
    }
}

/// Add a card to the collection under a freshly assigned identity and
/// return that identity.
pub fn add_card(collection: &mut Collection<Card>, card: Card) -> (r: u32)
    requires
        old(collection).well_formed(),
        forall|k: u32| old(collection)@.dom().contains(k) ==> k < u32::MAX,
    ensures
        final(collection).well_formed(),
        final(collection)@ == old(collection)@.insert(r, card.with_id(r)),
        is_next_id(old(collection)@, r),
{
    add_map_entry(collection, card)
}

/// Replace the collection entry whose identity the supplied card carries,
/// wholesale. An identity absent from the collection is a `NotFound`
/// failure.
pub fn update_card(collection: &mut Collection<Card>, card: Card) -> (r: Result<(), StoreError>)
    requires
        old(collection).well_formed(),
    ensures
        final(collection).well_formed(),
        old(collection)@.dom().contains(card.id) ==> r is Ok && final(collection)@ == old(
            collection,
        )@.insert(card.id, card),
        !old(collection)@.dom().contains(card.id) ==> (r matches Err(e) && e
            == StoreError::NotFound) && final(collection)@ == old(collection)@,
{
    update_entry_in_collection(collection, card)
}

/// Remove the card with the given identity and return the image filenames
/// it listed, for the caller to delete from the image directory. An identity
/// absent from the collection is a `NotFound` failure and leaves the
/// collection unchanged.
pub fn delete_card(collection: &mut Collection<Card>, id: u32) -> (r: Result<
    Vec<String>,
    StoreError,
>)
    requires
        old(collection).well_formed(),
    ensures
        final(collection).well_formed(),
        old(collection)@.dom().contains(id) ==> (r matches Ok(images) && images@ == old(
            collection,
        )@[id].images@) && final(collection)@ == old(collection)@.remove(id),
        !old(collection)@.dom().contains(id) ==> (r matches Err(e) && e == StoreError::NotFound)
            && final(collection)@ == old(collection)@,
{
    let card = match get_entry_by_id(collection, id) {
        Ok(card) => card,
        Err(e) => {
            return Err(e);
        },
    };
    match delete_entry_by_id(collection, id) {
        Ok(()) => Ok(card.images),
        Err(e) => {
            proof {
                assert(false);
            }
            Err(e)
        },
    }
}

/// The stem of a new image filename for a card, before sanitization: the
/// naming tokens joined by `+`, led by the card's identity for a card
/// already in the collection.
pub open spec fn spec_target_stem(card: Card, idx: u8, new_entry: bool) -> Seq<char> {
    if new_entry {
        card.set.name@ + "+"@ + card.name@ + "+"@ + dec_chars(idx as nat)
    } else {
        dec_chars(card.id as nat) + "+"@ + card.set.name@ + "+"@ + card.name@ + "+"@ + dec_chars(
            idx as nat,
        )
    }
}

/// A new image filename for a card, except for the identity prefix a new
/// entry receives: the sanitized stem followed by the source file's
/// extension.
pub open spec fn spec_image_filename(card: Card, idx: u8, ext: Seq<char>, new_entry: bool) -> Seq<
    char,
> {
    sanitized(spec_target_stem(card, idx, new_entry) + "."@ + ext)
}

/// The name under which a copy of the image at `img_location` joins the
/// card's images.
///
/// The disambiguation index is computed from the card's current image list;
/// the naming tokens are sanitized; and for a new entry the filename is
/// prefixed with the identity the card will receive, taken from the
/// collection. The caller performs the copy under the returned name. A card
/// whose last image filename carries no parsable index is a
/// `DeserializationError`; a source path without a determinable extension is
/// an `IoError`.
pub fn copy_image(
    card: &Card,
    collection: &Collection<Card>,
    img_location: &str,
    new_entry: bool,
) -> (r: Result<String, StoreError>)
    requires
        new_entry ==> forall|k: u32| collection@.dom().contains(k) ==> k < u32::MAX,
    ensures
        spec_image_index(card.images@) is None ==> (r matches Err(e) && e
            == StoreError::DeserializationError),
        spec_image_index(card.images@) is Some && spec_extension(img_location@) is None ==> (
        r matches Err(e) && e == StoreError::IoError),
        spec_image_index(card.images@) is Some && spec_extension(img_location@) is Some ==> r
            is Ok,
        r matches Ok(name) ==> (spec_image_index(card.images@) matches Some(idx) && (spec_extension(
            img_location@,
        ) matches Some(ext) && (if new_entry {
            exists|nid: u32|
                #[trigger] is_next_id(collection@, nid) && name@ == dec_chars(nid as nat) + "+"@
                    + spec_image_filename(*card, idx, ext, true)
        } else {
            name@ == spec_image_filename(*card, idx, ext, false)
        }))),
{
    let idx = match compute_image_index(&card.images) {
        Ok(idx) => idx,
        Err(e) => {
            return Err(e);
        },
    };
    let ext = match file_extension(img_location) {
        Ok(ext) => ext,
        Err(e) => {
            return Err(e);
        },
    };
    let mut stem = String::new();
    if new_entry {
        stem.append(card.set.name.as_str());
        stem.append("+");
        stem.append(card.name.as_str());
        stem.append("+");
    } else {
        let ids = u32_to_string(card.id);
        stem.append(ids.as_str());
        stem.append("+");
        stem.append(card.set.name.as_str());
        stem.append("+");
        stem.append(card.name.as_str());
        stem.append("+");
    }
    let idxs = u32_to_string(idx as u32);
    stem.append(idxs.as_str());
    stem.append(".");
    stem.append(ext.as_str());
    proof {
        assert(stem@ =~= spec_target_stem(*card, idx, new_entry) + "."@ + ext@);
    }
    let base = format_text_for_fs(&stem);
    if new_entry {
        let nid = get_next_id(collection);
        let mut out = u32_to_string(nid);
        out.append("+");
        out.append(base.as_str());
        proof {
            assert(out@ =~= dec_chars(nid as nat) + "+"@ + spec_image_filename(
                *card,
                idx,
                ext@,
                true,
            ));
        }
        Ok(out)
    } else {
        Ok(base)
    }
}

/// Re-encode a loaded image of this category into the format implied by its
/// filename's extension and frame it as a data URI; see
/// [`crate::encode::get_entry_image_b64`].
pub fn get_image_b64(img: &image::DynamicImage, image: &str) -> (r: Result<String, StoreError>)
    ensures
        crate::filename::spec_extension(image@) is None ==> (r matches Err(e) && e
            == StoreError::IoError),
        r matches Ok(s) ==> crate::filename::spec_extension(image@) is Some && (exists|
            data: Seq<u8>,
        |
            s@ == #[trigger] crate::encode::spec_data_uri(
                crate::filename::spec_extension(image@)->0,
                data,
            )),
        r matches Err(e) ==> e == StoreError::IoError || e == StoreError::DecodeError,
        crate::filename::spec_extension(image@) is Some ==> (r matches Err(e) && e
            == StoreError::DecodeError) || r is Ok,
{
    crate::encode::get_entry_image_b64(img, image)
}

/// One set as the remote catalog reports it, before preparation.
pub struct FetchedSet {
    /// The set code.
    pub code: String,
    /// The set's name.
    pub name: String,
    /// Release date in the format YYYY-MM-DD.
    pub released_at: String,
    /// Whether the set exists only online.
    pub digital: bool,
}

/// The content of a set, for stating which sets a prepared list holds.
pub open spec fn set_view(s: CardSet) -> (Seq<char>, Seq<char>, Seq<char>) {
    (s.id@, s.name@, s.release_date@)
}

/// A date with its `-` separators replaced by `/`.
pub open spec fn dashes_to_slashes(s: Seq<char>) -> Seq<char> {
    s.map_values(
        |c: char|
            if c == '-' {
                '/'
            } else {
                c
            },
    )
}

/// The content of the sets that survive preparation: every set not marked
/// digital, with its release date reformatted, in catalog order.
pub open spec fn prepared_sets(s: Seq<FetchedSet>) -> Seq<(Seq<char>, Seq<char>, Seq<char>)>
    decreases s.len(),
{
    if s.len() == 0 {
        Seq::empty()
    } else {
        prepared_sets(s.drop_last()) + (if s.last().digital {
            Seq::empty()
        } else {
            seq![(s.last().code@, s.last().name@, dashes_to_slashes(s.last().released_at@))]
        })
    }
}

/// The sets are ordered by release date.
pub open spec fn sets_sorted(s: Seq<CardSet>) -> bool {
    forall|i: int, j: int|
        0 <= i < j < s.len() ==> lex_le(s[i].release_date@, s[j].release_date@)
}

/// Replace every `-` of a date by `/`.
fn replace_dashes(s: &str) -> (r: String)
    ensures
        r@ == dashes_to_slashes(s@),
{
    let n: usize = s.unicode_len();
    let mut out = String::new();
    let mut i: usize = 0;
    while i < n
        invariant
            n == s@.len(),
            i <= n,
            out@ =~= dashes_to_slashes(s@.subrange(0, i as int)),
        decreases n - i,
    {
        let c = s.get_char(i);
        if c == '-' {
            push_char(&mut out, '/');
        } else {
            push_char(&mut out, c);
        }
        proof {
            assert(out@ =~= dashes_to_slashes(s@.subrange(0, i + 1)));
        }
        i = i + 1;
    }
    proof {
        assert(s@.subrange(0, n as int) =~= s@);
    }
    out
}

/// The position before which `item` joins a sorted list of sets: past every
/// set released no later than it.
fn insert_pos(out: &Vec<CardSet>, item: &CardSet) -> (pos: usize)
    requires
        sets_sorted(out@),
    ensures
        pos <= out@.len(),
        forall|k: int| 0 <= k < pos ==> lex_le(out@[k].release_date@, item.release_date@),
        pos < out@.len() ==> !lex_le(out@[pos as int].release_date@, item.release_date@),
{
    let n = out.len();
    let mut pos: usize = 0;
    while pos < n
        invariant
            n == out@.len(),
            pos <= n,
            forall|k: int| 0 <= k < pos ==> lex_le(out@[k].release_date@, item.release_date@),
        decreases n - pos,
    {
        if !str_le(out[pos].release_date.as_str(), item.release_date.as_str()) {
            return pos;
        }
        pos = pos + 1;
    }
    pos
}

/// Insert a set into a list sorted by release date, keeping it sorted; the
/// listed contents gain exactly the new set's content.
fn insert_sorted(out: &mut Vec<CardSet>, item: CardSet)
    requires
        sets_sorted(old(out)@),
    ensures
        sets_sorted(final(out)@),
        final(out)@.map_values(|x: CardSet| set_view(x)).to_multiset() == old(out)@.map_values(
            |x: CardSet| set_view(x),
        ).to_multiset().insert(set_view(item)),
{
    broadcast use vstd::seq_lib::group_to_multiset_ensures;
    broadcast use vstd::multiset::group_multiset_axioms;

    let ghost olds = out@;
    let pos = insert_pos(out, &item);
    proof {
        if pos < olds.len() {
            lemma_lex_total(item.release_date@, olds[pos as int].release_date@);
        }
    }
    out.insert(pos, item);
    proof {
        let news = out@;
        assert forall|i: int, j: int| 0 <= i < j < news.len() implies lex_le(
            news[i].release_date@,
            news[j].release_date@,
        ) by {
            if j < pos {
            } else if i < pos && j == pos {
            } else if i < pos && j > pos {
                assert(news[j] == olds[j - 1]);
            } else if i == pos && j > pos {
                assert(news[j] == olds[j - 1]);
                if j - 1 > pos {
                    assert(lex_le(olds[pos as int].release_date@, olds[j - 1].release_date@));
                    lemma_lex_trans(
                        item.release_date@,
                        olds[pos as int].release_date@,
                        olds[j - 1].release_date@,
                    );
                }
            } else {
                assert(news[i] == olds[i - 1]);
                assert(news[j] == olds[j - 1]);
            }
        }
        let f = |x: CardSet| set_view(x);
        let mo = olds.map_values(f);
        let mn = news.map_values(f);
        assert(mn.remove(pos as int) =~= mo);
        assert(mn.remove(pos as int).to_multiset() =~= mn.to_multiset().remove(
            mn[pos as int],
        ));
        assert(mn[pos as int] == f(item));
        assert(mn.to_multiset().count(f(item)) > 0);
        assert(mn.to_multiset() =~= mo.to_multiset().insert(f(item)));
    }
}

/// Prepare the sets fetched from the remote catalog for storage and
/// display: drop every digital-only set, reformat each release date, and
/// order the rest by release date.
pub fn prepare_sets(fetched: &Vec<FetchedSet>) -> (r: Vec<CardSet>)
    ensures
        sets_sorted(r@),
        r@.map_values(|x: CardSet| set_view(x)).to_multiset() == prepared_sets(
            fetched@,
        ).to_multiset(),
{
    broadcast use vstd::seq_lib::group_to_multiset_ensures;
    broadcast use vstd::multiset::group_multiset_axioms;

    let n = fetched.len();
    let mut out: Vec<CardSet> = Vec::new();
    let mut i: usize = 0;
    proof {
        assert(prepared_sets(fetched@.subrange(0, 0)).to_multiset() =~= out@.map_values(
            |x: CardSet| set_view(x),
        ).to_multiset());
    }
    while i < n
        invariant
            n == fetched@.len(),
            i <= n,
            sets_sorted(out@),
            out@.map_values(|x: CardSet| set_view(x)).to_multiset() == prepared_sets(
                fetched@.subrange(0, i as int),
            ).to_multiset(),
        decreases n - i,
    {
        let ghost pre = fetched@.subrange(0, i as int);
        let ghost cur = fetched@.subrange(0, i + 1);
        proof {
            assert(cur.drop_last() =~= pre);
            assert(cur.last() == fetched@[i as int]);
        }
        if !fetched[i].digital {
            let item = CardSet {
                id: fetched[i].code.clone(),
                name: fetched[i].name.clone(),
                release_date: replace_dashes(fetched[i].released_at.as_str()),
            };
            proof {
                assert(set_view(item) == (
                    fetched@[i as int].code@,
                    fetched@[i as int].name@,
                    dashes_to_slashes(fetched@[i as int].released_at@),
                ));
            }
            insert_sorted(&mut out, item);
            proof {
                prepared_sets(pre).to_multiset_ensures();
                assert(prepared_sets(cur) == prepared_sets(pre).push(set_view(item)));
                assert(prepared_sets(pre).push(set_view(item)).to_multiset() =~= prepared_sets(
                    pre,
                ).to_multiset().insert(set_view(item)));
                assert(out@.map_values(|x: CardSet| set_view(x)).to_multiset() =~= prepared_sets(
                    cur,
                ).to_multiset());
            }
        } else {
            proof {
                assert(prepared_sets(cur) =~= prepared_sets(pre) + Seq::empty());
                assert(prepared_sets(cur) =~= prepared_sets(pre));
            }
        }
        i = i + 1;
    }
    proof {
        assert(fetched@.subrange(0, n as int) =~= fetched@);
    }
    out
}

/// Adding a card and then getting it by the assigned identity yields the
/// card itself, except that the identity field now carries the assigned
/// value; every other field round-trips exactly.
pub proof fn lemma_add_card_round_trip(before: Map<u32, Card>, card: Card, id: u32)
    ensures
        before.insert(id, card.with_id(id)).dom().contains(id),
        ({
            let stored = before.insert(id, card.with_id(id))[id];
            stored.id == id && stored.amount == card.amount && stored.name == card.name
                && stored.set == card.set && stored.note == card.note && stored.images
                == card.images && stored.language == card.language && stored.condition
                == card.condition && stored.foil == card.foil && stored.signed == card.signed
                && stored.altered == card.altered
        }),
{
}

} // verus!
