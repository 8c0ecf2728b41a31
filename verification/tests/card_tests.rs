use catalog_sync::expansion::ExpansionMap;
use catalog_sync::feed::{CardImages, CardRecord, ImageUris};
use catalog_sync::metacard::{
    can_format, can_refresh, classify, create_card, normalize, normalize_with_id, update_card, upsert_card,
    CardWrite, FormattedCard, Skip,
};

fn no_images() -> ImageUris {
    ImageUris { small: None, normal: None, large: None }
}

fn normal_only(uri: &str) -> ImageUris {
    ImageUris { small: None, normal: Some(uri.to_string()), large: None }
}

fn card(set_code: &str, market_id: Option<u64>) -> CardRecord {
    CardRecord {
        external_id: "7a5cd03c-4227-4551-aa4b-7d119f0468b5".to_string(),
        market_id,
        name: "Lightning Helix".to_string(),
        reference_uri: "https://cards.example/card/abc/1".to_string(),
        reserved: false,
        set_code: set_code.to_string(),
        collector_number: "123a".to_string(),
        price: None,
        foil_price: None,
        images: CardImages::Single(no_images()),
        digital: false,
    }
}

fn map_with(code: &str, id: &str) -> ExpansionMap {
    let mut map = ExpansionMap::new();
    map.insert(code.to_string(), id.to_string());
    map
}

fn is_token(id: &str) -> bool {
    let bytes = id.as_bytes();
    bytes.len() >= 2
        && bytes.len() <= 24
        && bytes[0].is_ascii_lowercase()
        && bytes[1..].iter().all(|b| b.is_ascii_lowercase() || b.is_ascii_digit())
}

#[test]
fn absent_price_defaults_to_zero() {
    let map = map_with("abc", "exp1");
    let row = normalize(&card("abc", Some(42)), &map).unwrap();
    assert_eq!(row.price.as_str(), "0.00");
    assert_eq!(row.foil_price.as_str(), "0.00");
    assert_eq!(row.price.as_str().parse::<f64>().unwrap(), 0.00);
}

#[test]
fn present_price_is_stored_as_given() {
    let map = map_with("abc", "exp1");
    let mut c = card("abc", Some(42));
    c.price = Some("12.50".to_string());
    c.foil_price = Some("30.00".to_string());
    let row = normalize(&c, &map).unwrap();
    assert_eq!(row.price.as_str().parse::<f64>().unwrap(), 12.50);
    assert_eq!(row.foil_price.as_str().parse::<f64>().unwrap(), 30.00);
}

#[test]
fn two_faced_card_takes_normal_images_of_first_and_last_face() {
    let mut c = card("abc", Some(1));
    c.images = CardImages::Faces(vec![Some(normal_only("front.png")), Some(normal_only("back.png"))]);
    let (front, back) = FormattedCard::extract_images(&c);
    assert_eq!(front, "front.png");
    assert_eq!(back, "back.png");
}

#[test]
fn single_faced_card_with_only_large_image() {
    let mut c = card("abc", Some(1));
    c.images = CardImages::Single(ImageUris {
        small: None,
        normal: None,
        large: Some("large.png".to_string()),
    });
    let (front, back) = FormattedCard::extract_images(&c);
    assert_eq!(front, "large.png");
    assert_eq!(back, "");
}

#[test]
fn single_faced_card_prefers_normal_then_large_then_small() {
    let mut c = card("abc", Some(1));
    c.images = CardImages::Single(ImageUris {
        small: Some("s.png".to_string()),
        normal: Some("n.png".to_string()),
        large: Some("l.png".to_string()),
    });
    assert_eq!(FormattedCard::extract_images(&c), ("n.png".to_string(), String::new()));
    c.images = CardImages::Single(ImageUris {
        small: Some("s.png".to_string()),
        normal: None,
        large: Some("l.png".to_string()),
    });
    assert_eq!(FormattedCard::extract_images(&c), ("l.png".to_string(), String::new()));
    c.images = CardImages::Single(ImageUris {
        small: Some("s.png".to_string()),
        normal: None,
        large: None,
    });
    assert_eq!(FormattedCard::extract_images(&c), ("s.png".to_string(), String::new()));
    c.images = CardImages::Single(no_images());
    assert_eq!(FormattedCard::extract_images(&c), (String::new(), String::new()));
}

#[test]
fn face_without_normal_image_gives_empty_uri() {
    let mut c = card("abc", Some(1));
    let large_only = ImageUris { small: None, normal: None, large: Some("l.png".to_string()) };
    c.images = CardImages::Faces(vec![Some(large_only), None]);
    assert_eq!(FormattedCard::extract_images(&c), (String::new(), String::new()));
}

#[test]
fn three_faces_use_first_and_last() {
    let mut c = card("abc", Some(1));
    c.images = CardImages::Faces(vec![
        Some(normal_only("a.png")),
        Some(normal_only("b.png")),
        Some(normal_only("c.png")),
    ]);
    assert_eq!(FormattedCard::extract_images(&c), ("a.png".to_string(), "c.png".to_string()));
}

#[test]
fn one_face_is_both_front_and_back() {
    let mut c = card("abc", Some(1));
    c.images = CardImages::Faces(vec![Some(normal_only("only.png"))]);
    assert_eq!(FormattedCard::extract_images(&c), ("only.png".to_string(), "only.png".to_string()));
}

#[test]
fn no_faces_give_empty_uris() {
    let mut c = card("abc", Some(1));
    c.images = CardImages::Faces(vec![]);
    assert_eq!(FormattedCard::extract_images(&c), (String::new(), String::new()));
}

#[test]
fn card_without_market_id_is_skipped() {
    let map = map_with("abc", "exp1");
    assert_eq!(normalize(&card("abc", None), &map).err(), Some(Skip::NonTradable));
}

#[test]
fn card_without_market_id_is_skipped_before_orphan_check() {
    let map = ExpansionMap::new();
    assert_eq!(normalize(&card("abc", None), &map).err(), Some(Skip::NonTradable));
}

#[test]
fn card_of_unknown_set_is_skipped() {
    let map = map_with("abc", "exp1");
    assert_eq!(normalize(&card("xyz", Some(1)), &map).err(), Some(Skip::OrphanExpansion));
}

#[test]
fn market_id_beyond_the_column_is_reported() {
    let map = map_with("abc", "exp1");
    assert_eq!(
        normalize(&card("abc", Some(2147483648)), &map).err(),
        Some(Skip::MarketIdOutOfRange)
    );
    assert!(normalize(&card("abc", Some(2147483647)), &map).is_ok());
}

#[test]
fn unreadable_price_is_reported_not_defaulted() {
    let map = map_with("abc", "exp1");
    let mut c = card("abc", Some(1));
    c.price = Some("n/a".to_string());
    assert_eq!(normalize(&c, &map).err(), Some(Skip::PriceUnreadable));
    c.price = Some("1.00".to_string());
    c.foil_price = Some("".to_string());
    assert_eq!(normalize(&c, &map).err(), Some(Skip::FoilPriceUnreadable));
}

#[test]
fn classify_gives_the_expansion_of_the_set_code() {
    let mut map = map_with("abc", "exp1");
    map.insert("def".to_string(), "exp2".to_string());
    assert_eq!(classify(&card("def", Some(1)), &map), Ok(&"exp2".to_string()));
}

#[test]
fn normalized_row_copies_the_record() {
    let map = map_with("abc", "exp1");
    let mut c = card("abc", Some(42));
    c.reserved = true;
    c.price = Some("1.00".to_string());
    c.images = CardImages::Single(normal_only("n.png"));
    let row = normalize_with_id("tz4a98xxat96iws9zmbrgj3a".to_string(), &c, &map).unwrap();
    assert_eq!(row.id, "tz4a98xxat96iws9zmbrgj3a");
    assert_eq!(row.scryfall_id, "7a5cd03c-4227-4551-aa4b-7d119f0468b5");
    assert_eq!(row.cardmarket_id, 42);
    assert_eq!(row.name, "Lightning Helix");
    assert_eq!(row.scryfall_uri, "https://cards.example/card/abc/1");
    assert!(row.reserved);
    assert_eq!(row.expansion_id, "exp1");
    assert_eq!(row.collectors_num, "123a");
    assert_eq!(row.price.as_str(), "1.00");
    assert_eq!(row.foil_price.as_str(), "0.00");
    assert_eq!(row.front_image_uri, "n.png");
    assert_eq!(row.back_image_uri, "");
}

#[test]
fn new_rows_get_identifiers_of_their_own() {
    let map = map_with("abc", "exp1");
    let c = card("abc", Some(42));
    let first = normalize(&c, &map).unwrap();
    let second = normalize(&c, &map).unwrap();
    assert!(is_token(&first.id));
    assert!(is_token(&second.id));
    assert_ne!(first.id, "");
    assert_eq!(first.scryfall_id, second.scryfall_id);
}

#[test]
fn card_without_market_id_cannot_be_formatted() {
    let c = card("abc", None);
    assert!(!can_format(&c));
    assert!(can_refresh(&c));
    let map = map_with("abc", "exp1");
    assert!(normalize_with_id("someid".to_string(), &c, &map).is_err());
}

#[test]
fn formatted_card_holds_its_market_id() {
    let row = FormattedCard::new("exp1".to_string(), &card("abc", Some(7)));
    assert_eq!(row.cardmarket_id, 7);
    assert_eq!(row.expansion_id, "exp1");
    assert!(is_token(&row.id));
}

#[test]
fn stored_card_without_market_id_still_gets_its_prices_refreshed() {
    let mut c = card("abc", None);
    c.foil_price = Some("4.50".to_string());
    match upsert_card(&c, &"exp1".to_string(), true) {
        CardWrite::Update(update) => {
            assert_eq!(update.price.as_str(), "0.00");
            assert_eq!(update.foil_price.as_str(), "4.50");
        }
        CardWrite::Create(_) => panic!("a stored card is refreshed"),
    }
}

#[test]
fn can_refresh_tells_readable_prices() {
    let mut c = card("abc", Some(u64::MAX));
    assert!(can_refresh(&c));
    c.price = Some("1.5".to_string());
    assert!(can_refresh(&c));
    c.foil_price = Some("free".to_string());
    assert!(!can_refresh(&c));
}

#[test]
fn can_format_tells_readable_records() {
    let mut c = card("abc", Some(1));
    assert!(can_format(&c));
    c.price = Some("x".to_string());
    assert!(!can_format(&c));
    c.price = None;
    c.foil_price = Some("1.2.3".to_string());
    assert!(!can_format(&c));
    c.foil_price = None;
    c.market_id = Some(u64::MAX);
    assert!(!can_format(&c));
    c.market_id = None;
    assert!(!can_format(&c));
    c.market_id = Some(0);
    assert!(can_format(&c));
}

#[test]
fn stored_card_gets_only_its_prices_refreshed() {
    let mut c = card("abc", Some(42));
    c.price = Some("2.00".to_string());
    match upsert_card(&c, &"exp1".to_string(), true) {
        CardWrite::Update(update) => {
            assert_eq!(update.scryfall_id, "7a5cd03c-4227-4551-aa4b-7d119f0468b5");
            assert_eq!(update.price.as_str().parse::<f64>().unwrap(), 2.00);
            assert_eq!(update.foil_price.as_str(), "0.00");
        }
        CardWrite::Create(_) => panic!("a stored card is refreshed"),
    }
}

#[test]
fn unknown_card_gets_a_new_row() {
    let mut c = card("abc", Some(42));
    c.price = Some("1.00".to_string());
    match upsert_card(&c, &"exp1".to_string(), false) {
        CardWrite::Create(row) => {
            assert!(is_token(&row.id));
            assert_eq!(row.expansion_id, "exp1");
            assert_eq!(row.price.as_str(), "1.00");
            assert_eq!(row.name, "Lightning Helix");
        }
        CardWrite::Update(_) => panic!("an unknown card is created"),
    }
}

#[test]
fn create_and_update_agree_on_the_conflict_key() {
    let mut c = card("abc", Some(42));
    c.price = Some("1.00".to_string());
    let row = create_card(&c, &"exp1".to_string());
    c.price = Some("2.00".to_string());
    let update = update_card(&c);
    assert_eq!(row.scryfall_id, update.scryfall_id);
    assert_eq!(row.price.as_str(), "1.00");
    assert_eq!(update.price.as_str(), "2.00");
}
