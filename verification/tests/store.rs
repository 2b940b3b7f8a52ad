use card_collection_manager::collection::{
    add_map_entry, delete_entry_by_id, from_document, get_entry_by_id, get_next_id, to_document,
    update_entry_in_collection, Collection,
};
use card_collection_manager::enums::{Condition, Game, Language};
use card_collection_manager::errors::StoreError;
use card_collection_manager::magic::{add_card, delete_card, update_card, Card, CardSet};

fn sample_set() -> CardSet {
    CardSet {
        id: String::from("usg"),
        name: String::from("Urza's Saga"),
        release_date: String::from("1998/10/12"),
    }
}

fn sample_card(name: &str, images: Vec<String>) -> Card {
    Card {
        id: 0,
        amount: 1,
        name: String::from(name),
        set: sample_set(),
        note: String::from("a note"),
        images,
        language: Language::English,
        condition: Condition::NearMint,
        foil: false,
        signed: false,
        altered: false,
    }
}

#[test]
fn next_id_of_empty_collection_is_zero() {
    let collection: Collection<Card> = Collection::new();
    assert_eq!(get_next_id(&collection), 0);
}

#[test]
fn next_id_is_max_plus_one() {
    let mut collection: Collection<Card> = Collection::new();
    assert_eq!(add_map_entry(&mut collection, sample_card("a", vec![])), 0);
    assert_eq!(add_map_entry(&mut collection, sample_card("b", vec![])), 1);
    assert_eq!(add_map_entry(&mut collection, sample_card("c", vec![])), 2);
    assert_eq!(get_next_id(&collection), 3);
}

#[test]
fn next_id_reuses_deleted_high_water_mark() {
    let mut collection: Collection<Card> = Collection::new();
    add_card(&mut collection, sample_card("a", vec![]));
    let top = add_card(&mut collection, sample_card("b", vec![]));
    assert_eq!(top, 1);
    delete_entry_by_id(&mut collection, top).unwrap();
    assert_eq!(get_next_id(&collection), 1);
}

#[test]
fn add_then_get_round_trips_except_id() {
    let mut collection: Collection<Card> = Collection::new();
    let mut card = sample_card("Serra Angel", vec![String::from("old.png")]);
    card.id = 77;
    let id = add_card(&mut collection, card);
    assert_eq!(id, 0);
    let stored = get_entry_by_id(&collection, id).unwrap();
    assert_eq!(stored.id, 0);
    assert_eq!(stored.amount, 1);
    assert_eq!(stored.name, "Serra Angel");
    assert_eq!(stored.set.name, "Urza's Saga");
    assert_eq!(stored.note, "a note");
    assert_eq!(stored.images, vec![String::from("old.png")]);
}

#[test]
fn update_is_a_full_replace() {
    let mut collection: Collection<Card> = Collection::new();
    let id = add_card(&mut collection, sample_card("Counterspell", vec![]));
    let mut replacement = sample_card("Counterspell", vec![]);
    replacement.id = id;
    replacement.note = String::new();
    replacement.amount = 4;
    update_card(&mut collection, replacement).unwrap();
    let stored = get_entry_by_id(&collection, id).unwrap();
    assert_eq!(stored.note, "");
    assert_eq!(stored.amount, 4);
}

#[test]
fn update_of_missing_id_is_not_found() {
    let mut collection: Collection<Card> = Collection::new();
    let mut card = sample_card("x", vec![]);
    card.id = 3;
    assert_eq!(
        update_entry_in_collection(&mut collection, card),
        Err(StoreError::NotFound)
    );
}

#[test]
fn delete_returns_images_and_removes_record() {
    let mut collection: Collection<Card> = Collection::new();
    let images = vec![String::from("0+A+B+0.png"), String::from("0+A+B+1.png")];
    let id = add_card(&mut collection, sample_card("x", images.clone()));
    let removed = delete_card(&mut collection, id).unwrap();
    assert_eq!(removed, images);
    assert!(matches!(
        get_entry_by_id(&collection, id),
        Err(StoreError::NotFound)
    ));
}

#[test]
fn delete_of_missing_id_is_not_found() {
    let mut collection: Collection<Card> = Collection::new();
    assert_eq!(delete_card(&mut collection, 9), Err(StoreError::NotFound));
}

#[test]
fn get_of_missing_id_is_not_found() {
    let collection: Collection<Card> = Collection::new();
    assert!(matches!(
        get_entry_by_id(&collection, 0),
        Err(StoreError::NotFound)
    ));
}

#[test]
fn document_round_trip_preserves_contents() {
    let mut collection: Collection<Card> = Collection::new();
    for name in ["a", "b", "c"] {
        add_card(&mut collection, sample_card(name, vec![]));
    }
    let doc = to_document(collection);
    let loaded = from_document(doc).unwrap();
    for (id, name) in [(0, "a"), (1, "b"), (2, "c")] {
        assert_eq!(get_entry_by_id(&loaded, id).unwrap().name, name);
    }
    assert_eq!(get_next_id(&loaded), 3);
}

#[test]
fn empty_document_round_trips() {
    let collection: Collection<Card> = Collection::new();
    let doc = to_document(collection);
    assert!(doc.is_empty());
    let loaded = from_document(doc).unwrap();
    assert_eq!(get_next_id(&loaded), 0);
}

#[test]
fn document_order_is_irrelevant() {
    let doc = vec![
        (2u32, sample_card("c", vec![])),
        (0u32, sample_card("a", vec![])),
        (1u32, sample_card("b", vec![])),
    ];
    let loaded = from_document(doc).unwrap();
    assert_eq!(get_entry_by_id(&loaded, 0).unwrap().name, "a");
    assert_eq!(get_entry_by_id(&loaded, 2).unwrap().name, "c");
    assert_eq!(get_next_id(&loaded), 3);
}

#[test]
fn duplicate_document_ids_are_rejected() {
    let doc = vec![(1u32, sample_card("a", vec![])), (1u32, sample_card("b", vec![]))];
    assert!(matches!(
        from_document(doc),
        Err(StoreError::DeserializationError)
    ));
}

#[test]
fn error_messages_name_the_failure() {
    assert_eq!(StoreError::NotFound.message(), "entry not found");
    assert!(matches!(Game::Magic, Game::Magic));
}
