use card_collection_manager::collection::Collection;
use card_collection_manager::encode::image_data_uri;
use card_collection_manager::enums::{Condition, Language};
use card_collection_manager::errors::StoreError;
use card_collection_manager::filename::{
    compute_image_index, file_extension, parse_index_from_filename,
};
use card_collection_manager::magic::{
    add_card, copy_image, get_image_b64, Card, CardSet,
};
use card_collection_manager::sanitize::format_text_for_fs;

fn card_with_images(id: u32, images: Vec<String>) -> Card {
    Card {
        id,
        amount: 1,
        name: String::from("Card"),
        set: CardSet {
            id: String::from("seta"),
            name: String::from("SetA"),
            release_date: String::from("1999/01/01"),
        },
        note: String::new(),
        images,
        language: Language::English,
        condition: Condition::Mint,
        foil: false,
        signed: false,
        altered: false,
    }
}

#[test]
fn sanitization_strips_and_maps_characters() {
    let sanitized = format_text_for_fs(&String::from("Urza's Saga: Legends & Lore"));
    assert_eq!(sanitized, "UrzasSaga-LegendsAndLore");
}

#[test]
fn sanitization_maps_accents_pipes_and_backticks() {
    let sanitized = format_text_for_fs(&String::from("a|b`c,d\u{e1}\u{e9}\u{ed}\u{f3}\u{fa}\u{fb}"));
    assert_eq!(sanitized, "aOrbcdaeiouu");
}

#[test]
fn parse_index_reads_one_digit() {
    assert_eq!(parse_index_from_filename("image1.png"), Ok(1));
}

#[test]
fn parse_index_reads_two_digits() {
    assert_eq!(parse_index_from_filename("image22.jpeg"), Ok(22));
}

#[test]
fn parse_index_without_digit_is_malformed() {
    assert_eq!(
        parse_index_from_filename("image.png"),
        Err(StoreError::DeserializationError)
    );
}

#[test]
fn image_index_continues_from_last_filename() {
    let images = vec![String::from("5+SetA+Card+1.png")];
    assert_eq!(compute_image_index(&images), Ok(2));
}

#[test]
fn image_index_restarts_on_legacy_marker() {
    let images = vec![String::from("5+SetA+IMG_FRONT.jpg")];
    assert_eq!(compute_image_index(&images), Ok(0));
    let back = vec![String::from("x IMG_BACK y.png")];
    assert_eq!(compute_image_index(&back), Ok(0));
}

#[test]
fn image_index_of_record_without_images_is_zero() {
    assert_eq!(compute_image_index(&vec![]), Ok(0));
}

#[test]
fn extension_is_read_from_the_final_component() {
    assert_eq!(file_extension("/tmp/card.front.PNG").unwrap(), "PNG");
    assert_eq!(
        file_extension("/tmp.d/noext"),
        Err(StoreError::IoError)
    );
}

#[test]
fn copy_image_for_new_entry_in_empty_collection_is_prefixed_zero() {
    let collection: Collection<Card> = Collection::new();
    let card = card_with_images(0, vec![]);
    let name = copy_image(&card, &collection, "/tmp/scan.png", true).unwrap();
    assert_eq!(name, "0+SetA+Card+0.png");
    assert!(name.starts_with("0+"));
}

#[test]
fn copy_image_for_existing_entry_advances_the_index() {
    let mut collection: Collection<Card> = Collection::new();
    for _ in 0..8 {
        add_card(&mut collection, card_with_images(0, vec![]));
    }
    let card = card_with_images(7, vec![String::from("7+SetA+Card+0.png")]);
    let name = copy_image(&card, &collection, "/tmp/scan.png", false).unwrap();
    assert_eq!(name, "7+SetA+Card+1.png");
    assert!(!card.images.contains(&name));
}

#[test]
fn copy_image_sanitizes_the_naming_tokens() {
    let mut card = card_with_images(2, vec![]);
    card.name = String::from("Urza's Tower");
    card.set.name = String::from("Chronicles: One & Two");
    let collection: Collection<Card> = Collection::new();
    let name = copy_image(&card, &collection, "/scans/x.jpg", false).unwrap();
    assert_eq!(name, "2+Chronicles-OneAndTwo+UrzasTower+0.jpg");
}

#[test]
fn copy_image_without_extension_is_an_io_error() {
    let collection: Collection<Card> = Collection::new();
    let card = card_with_images(0, vec![]);
    assert_eq!(
        copy_image(&card, &collection, "/tmp/noext", true),
        Err(StoreError::IoError)
    );
}

#[test]
fn data_uri_frames_the_base64_payload() {
    let data: Vec<u8> = vec![1, 2, 3];
    assert_eq!(image_data_uri("png", &data), "data:image/png;base64,AQID");
    let empty: Vec<u8> = Vec::new();
    assert_eq!(image_data_uri("gif", &empty), "data:image/gif;base64,");
}

#[test]
fn image_b64_reencodes_and_frames() {
    let img = image::DynamicImage::new_rgb8(1, 1);
    let uri = get_image_b64(&img, "card.png").unwrap();
    assert!(uri.starts_with("data:image/png;base64,"));
    assert!(uri.len() > "data:image/png;base64,".len());
    let jpeg_uri = get_image_b64(&img, "card.jpg").unwrap();
    assert!(jpeg_uri.starts_with("data:image/jpg;base64,"));
    assert_eq!(
        get_image_b64(&img, "card"),
        Err(StoreError::IoError)
    );
}
