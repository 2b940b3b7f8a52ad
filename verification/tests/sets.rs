use card_collection_manager::config::Configuration;
use card_collection_manager::enums::{
    condition_variants, game_variants, language_variants, Game,
};
use card_collection_manager::magic::{prepare_sets, CardSet, FetchedSet};
use card_collection_manager::pokemon;
use card_collection_manager::text::u32_to_string;

fn fetched(code: &str, name: &str, released_at: &str, digital: bool) -> FetchedSet {
    FetchedSet {
        code: String::from(code),
        name: String::from(name),
        released_at: String::from(released_at),
        digital,
    }
}

#[test]
fn prepare_sets_filters_reformats_and_sorts() {
    let raw = vec![
        fetched("usg", "Urza's Saga", "1998-10-12", false),
        fetched("w17", "Welcome Deck", "2017-04-28", true),
        fetched("lea", "Limited Edition Alpha", "1993-08-05", false),
        fetched("mir", "Mirage", "1996-10-08", false),
    ];
    let prepared = prepare_sets(&raw);
    let dates: Vec<&str> = prepared.iter().map(|s| s.release_date.as_str()).collect();
    assert_eq!(dates, vec!["1993/08/05", "1996/10/08", "1998/10/12"]);
    let names: Vec<&str> = prepared.iter().map(|s| s.name.as_str()).collect();
    assert_eq!(names, vec!["Limited Edition Alpha", "Mirage", "Urza's Saga"]);
    let codes: Vec<&str> = prepared.iter().map(|s| s.id.as_str()).collect();
    assert_eq!(codes, vec!["lea", "mir", "usg"]);
}

#[test]
fn prepare_sets_of_nothing_is_empty() {
    let prepared = prepare_sets(&Vec::new());
    assert!(prepared.is_empty());
}

#[test]
fn prepare_sets_keeps_equal_dates_together() {
    let raw = vec![
        fetched("b", "Second", "2000-01-01", false),
        fetched("a", "First", "2000-01-01", false),
    ];
    let prepared = prepare_sets(&raw);
    assert_eq!(prepared.len(), 2);
    assert_eq!(prepared[0].release_date, "2000/01/01");
    assert_eq!(prepared[1].release_date, "2000/01/01");
}

#[test]
fn set_duplicates_carry_the_same_content() {
    let set = CardSet {
        id: String::from("usg"),
        name: String::from("Urza's Saga"),
        release_date: String::from("1998/10/12"),
    };
    let copy = set.duplicate();
    assert_eq!(copy.id, set.id);
    assert_eq!(copy.name, set.name);
    assert_eq!(copy.release_date, set.release_date);
    let pset = pokemon::CardSet {
        id: String::from("base1"),
        name: String::from("Base"),
        release_date: String::from("1999/01/09"),
    };
    let pcopy = pset.duplicate();
    assert_eq!(pcopy.name, "Base");
}

#[test]
fn paths_are_resolved_under_the_storage_root() {
    let config = Configuration::new(String::from("/data"), Game::Magic);
    assert_eq!(config.game_dir("magic"), "/data/magic");
    assert_eq!(config.collection_file("magic"), "/data/magic/collection.json");
    assert_eq!(config.sets_file("pokemon"), "/data/pokemon/sets.json");
    assert_eq!(config.image_dir("magic"), "/data/magic/images");
    assert_eq!(
        config.image_file("magic", "0+SetA+Card+0.png"),
        "/data/magic/images/0+SetA+Card+0.png"
    );
    assert!(matches!(config.default_game, Game::Magic));
}

#[test]
fn decimal_rendering_is_exact() {
    assert_eq!(u32_to_string(0), "0");
    assert_eq!(u32_to_string(7), "7");
    assert_eq!(u32_to_string(105), "105");
    assert_eq!(u32_to_string(u32::MAX), "4294967295");
}

#[test]
fn enum_variant_lists_are_complete() {
    assert_eq!(language_variants().len(), 8);
    assert_eq!(condition_variants().len(), 7);
    assert_eq!(game_variants().len(), 2);
}
