use catalog_sync::batch::{
    after_attempt, batch_upsert_cards, select_cards, upsert_cards, CardColumns, Cause, Rejection,
    WriteStep, BATCH_SIZE, MAX_ATTEMPTS,
};
use catalog_sync::expansion::{preload_expansions, upsert_expansion, ExpansionMap, InsertOutcome};
use catalog_sync::feed::{CardImages, CardRecord, FetchError, ImageUris, SetRecord};
use catalog_sync::metacard::{FormattedCard, Skip};

fn card(n: usize, set_code: &str, market_id: Option<u64>) -> CardRecord {
    CardRecord {
        external_id: format!("card-{}", n),
        market_id,
        name: format!("Card {}", n),
        reference_uri: format!("https://cards.example/{}", n),
        reserved: n % 2 == 0,
        set_code: set_code.to_string(),
        collector_number: format!("{}", n),
        price: Some(format!("{}.25", n)),
        foil_price: None,
        images: CardImages::Single(ImageUris {
            small: None,
            normal: Some(format!("{}.png", n)),
            large: None,
        }),
        digital: false,
    }
}

fn eligible(count: usize) -> Vec<Result<CardRecord, FetchError>> {
    (0..count).map(|n| Ok(card(n, "abc", Some(n as u64 + 1)))).collect()
}

fn abc_map() -> ExpansionMap {
    let mut map = ExpansionMap::new();
    map.insert("abc".to_string(), "exp-abc".to_string());
    map
}

fn statement_sizes(count: usize) -> Vec<usize> {
    upsert_cards(&abc_map(), &eligible(count)).statements.iter().map(|s| s.len()).collect()
}

#[test]
fn batch_size_is_two_hundred() {
    assert_eq!(BATCH_SIZE, 200);
}

#[test]
fn no_cards_no_statement() {
    assert_eq!(statement_sizes(0), Vec::<usize>::new());
}

#[test]
fn one_card_one_statement() {
    assert_eq!(statement_sizes(1), vec![1]);
}

#[test]
fn full_batch_is_one_statement() {
    assert_eq!(statement_sizes(200), vec![200]);
}

#[test]
fn one_more_than_a_batch_is_two_statements() {
    assert_eq!(statement_sizes(201), vec![200, 1]);
}

#[test]
fn statements_are_full_but_the_last() {
    assert_eq!(statement_sizes(450), vec![200, 200, 50]);
    assert_eq!(statement_sizes(400), vec![200, 200]);
    assert_eq!(statement_sizes(399), vec![200, 199]);
}

#[test]
fn rows_come_in_feed_order_across_statements() {
    let run = upsert_cards(&abc_map(), &eligible(401));
    let ids: Vec<String> =
        run.statements.iter().flat_map(|s| s.scryfall_ids.iter().cloned()).collect();
    let expected: Vec<String> = (0..401).map(|n| format!("card-{}", n)).collect();
    assert_eq!(ids, expected);
    assert_eq!(run.statements[2].scryfall_ids, vec!["card-400".to_string()]);
    assert!(run.rejected.is_empty());
}

#[test]
fn skipped_cards_do_not_count_towards_a_batch() {
    let mut items = eligible(200);
    items.insert(10, Ok(card(1000, "abc", None)));
    items.insert(20, Ok(card(1001, "zzz", Some(5))));
    items.insert(30, Err(FetchError { message: "broken".to_string() }));
    items.push(Ok(card(2000, "abc", Some(9))));
    let run = upsert_cards(&abc_map(), &items);
    let sizes: Vec<usize> = run.statements.iter().map(|s| s.len()).collect();
    assert_eq!(sizes, vec![200, 1]);
    assert_eq!(
        run.rejected,
        vec![
            Rejection { position: 10, cause: Cause::Skipped(Skip::NonTradable) },
            Rejection { position: 20, cause: Cause::Skipped(Skip::OrphanExpansion) },
            Rejection { position: 30, cause: Cause::FetchFailed },
        ]
    );
}

#[test]
fn cards_without_market_id_produce_no_row() {
    let items = vec![Ok(card(1, "abc", None)), Ok(card(2, "abc", None))];
    let run = upsert_cards(&abc_map(), &items);
    assert!(run.statements.is_empty());
    assert_eq!(run.rejected.len(), 2);
}

#[test]
fn cards_of_unknown_sets_produce_no_row() {
    let items = vec![Ok(card(1, "zzz", Some(1))), Ok(card(2, "abc", Some(2)))];
    let run = upsert_cards(&abc_map(), &items);
    assert_eq!(run.statements.len(), 1);
    assert_eq!(run.statements[0].scryfall_ids, vec!["card-2".to_string()]);
    assert_eq!(
        run.rejected,
        vec![Rejection { position: 0, cause: Cause::Skipped(Skip::OrphanExpansion) }]
    );
}

#[test]
fn unreadable_price_drops_only_that_record() {
    let mut bad = card(1, "abc", Some(1));
    bad.price = Some("cheap".to_string());
    let items = vec![Ok(card(0, "abc", Some(7))), Ok(bad), Ok(card(2, "abc", Some(8)))];
    let run = upsert_cards(&abc_map(), &items);
    assert_eq!(run.statements.len(), 1);
    assert_eq!(
        run.statements[0].scryfall_ids,
        vec!["card-0".to_string(), "card-2".to_string()]
    );
    assert_eq!(
        run.rejected,
        vec![Rejection { position: 1, cause: Cause::Skipped(Skip::PriceUnreadable) }]
    );
}

#[test]
fn columns_hold_each_field_of_each_row() {
    let a = card(3, "abc", Some(33));
    let mut b = card(4, "abc", Some(44));
    b.foil_price = Some("9.99".to_string());
    b.images = CardImages::Faces(vec![
        Some(ImageUris { small: None, normal: Some("f.png".to_string()), large: None }),
        Some(ImageUris { small: None, normal: Some("b.png".to_string()), large: None }),
    ]);
    let columns = batch_upsert_cards(&vec![("e1".to_string(), &a), ("e2".to_string(), &b)]);
    assert_eq!(columns.len(), 2);
    assert_eq!(columns.ids.len(), 2);
    assert_ne!(columns.ids[0], columns.ids[1]);
    assert_eq!(columns.scryfall_ids, vec!["card-3".to_string(), "card-4".to_string()]);
    assert_eq!(columns.cardmarket_ids, vec![33, 44]);
    assert_eq!(columns.names, vec!["Card 3".to_string(), "Card 4".to_string()]);
    assert_eq!(
        columns.scryfall_uris,
        vec!["https://cards.example/3".to_string(), "https://cards.example/4".to_string()]
    );
    assert_eq!(columns.reserveds, vec![false, true]);
    assert_eq!(columns.expansion_ids, vec!["e1".to_string(), "e2".to_string()]);
    assert_eq!(columns.collectors_nums, vec!["3".to_string(), "4".to_string()]);
    let prices: Vec<&str> = columns.prices.iter().map(|p| p.as_str()).collect();
    assert_eq!(prices, vec!["3.25", "4.25"]);
    let foil_prices: Vec<&str> = columns.foil_prices.iter().map(|p| p.as_str()).collect();
    assert_eq!(foil_prices, vec!["0.00", "9.99"]);
    assert_eq!(columns.front_image_uris, vec!["3.png".to_string(), "f.png".to_string()]);
    assert_eq!(columns.back_image_uris, vec!["".to_string(), "b.png".to_string()]);
}

#[test]
fn empty_group_gives_empty_columns() {
    let columns = batch_upsert_cards(&Vec::new());
    assert_eq!(columns.len(), 0);
    assert!(columns.prices.is_empty());
}

#[test]
fn selection_pairs_each_card_with_its_expansion() {
    let mut map = abc_map();
    map.insert("def".to_string(), "exp-def".to_string());
    let items = vec![
        Ok(card(1, "def", Some(1))),
        Err(FetchError { message: "timeout".to_string() }),
        Ok(card(2, "abc", Some(2))),
    ];
    let (chosen, passed) = select_cards(&map, &items);
    assert_eq!(chosen.len(), 2);
    assert_eq!(chosen[0].0, "exp-def");
    assert_eq!(chosen[0].1.external_id, "card-1");
    assert_eq!(chosen[1].0, "exp-abc");
    assert_eq!(chosen[1].1.external_id, "card-2");
    assert_eq!(passed, vec![Rejection { position: 1, cause: Cause::FetchFailed }]);
}

#[test]
fn every_item_is_either_chosen_or_reported() {
    let mut items = eligible(7);
    items.push(Ok(card(8, "abc", None)));
    items.push(Err(FetchError { message: "gone".to_string() }));
    let (chosen, passed) = select_cards(&abc_map(), &items);
    assert_eq!(chosen.len() + passed.len(), items.len());
}

#[test]
fn second_run_produces_rows_of_the_same_external_ids() {
    let map = abc_map();
    let first = upsert_cards(&map, &eligible(3));
    let second = upsert_cards(&map, &eligible(3));
    assert_eq!(first.statements[0].scryfall_ids, second.statements[0].scryfall_ids);
    assert_eq!(first.statements[0].names, second.statements[0].names);
}

#[test]
fn one_set_and_one_card_end_to_end() {
    let set = SetRecord {
        external_id: "3f1c9c7e-0000-4000-8000-000000000001".to_string(),
        name: "Alpha Beta".to_string(),
        code: "ABC".to_string(),
        digital: false,
    };
    let mut map = preload_expansions(&Vec::new());
    let expansion = upsert_expansion(&set, &map).expect("the set is new");
    assert_eq!(expansion.code, "ABC");
    assert_eq!(expansion.name, "Alpha Beta");
    assert_eq!(expansion.scryfall_id, "3f1c9c7e-0000-4000-8000-000000000001");
    map.record_insert(&expansion, InsertOutcome::Inserted);

    let mut c = card(1, "ABC", Some(42));
    c.price = Some("1.00".to_string());
    c.foil_price = None;
    let run = upsert_cards(&map, &vec![Ok(c)]);
    assert_eq!(run.statements.len(), 1);
    let statement = &run.statements[0];
    assert_eq!(statement.len(), 1);
    assert_eq!(statement.prices[0].as_str().parse::<f64>().unwrap(), 1.00);
    assert_eq!(statement.foil_prices[0].as_str().parse::<f64>().unwrap(), 0.00);
    assert_eq!(statement.expansion_ids[0], expansion.id);
    assert_eq!(statement.cardmarket_ids[0], 42);
    assert!(run.rejected.is_empty());
}

#[test]
fn failed_statement_is_retried_once() {
    assert_eq!(MAX_ATTEMPTS, 2);
    assert_eq!(after_attempt(1, true), WriteStep::Proceed);
    assert_eq!(after_attempt(1, false), WriteStep::Retry);
    assert_eq!(after_attempt(2, true), WriteStep::Proceed);
    assert_eq!(after_attempt(2, false), WriteStep::GiveUp);
    assert_eq!(after_attempt(3, false), WriteStep::GiveUp);
    assert_eq!(after_attempt(0, false), WriteStep::Retry);
}

#[test]
fn card_columns_grow_row_by_row() {
    let mut columns = CardColumns::new();
    assert_eq!(columns.len(), 0);
    let c = card(5, "abc", Some(55));
    columns.push(FormattedCard::with_id("id5".to_string(), "e5".to_string(), &c));
    assert_eq!(columns.len(), 1);
    assert_eq!(columns.ids, vec!["id5".to_string()]);
    assert_eq!(columns.cardmarket_ids, vec![55]);
    assert_eq!(columns.expansion_ids, vec!["e5".to_string()]);
    assert_eq!(columns.prices[0].as_str(), "5.25");
    assert_eq!(columns.foil_prices[0].as_str(), "0.00");
    assert_eq!(columns.front_image_uris, vec!["5.png".to_string()]);
    assert_eq!(columns.back_image_uris, vec![String::new()]);
}

#[test]
fn market_id_that_does_not_fit_is_rejected_in_a_run() {
    let items = vec![Ok(card(1, "abc", Some(1u64 << 31))), Ok(card(2, "abc", Some((1u64 << 31) - 1)))];
    let run = upsert_cards(&abc_map(), &items);
    assert_eq!(run.statements.len(), 1);
    assert_eq!(run.statements[0].cardmarket_ids, vec![i32::MAX]);
    assert_eq!(
        run.rejected,
        vec![Rejection { position: 0, cause: Cause::Skipped(Skip::MarketIdOutOfRange) }]
    );
}
