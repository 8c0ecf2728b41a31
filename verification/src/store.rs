//! What the statements of a run ask of the store, as a model.
//!
//! The expansion table is keyed by code and the card table by external
//! identifier, as the store's unique constraints have it. An expansion
//! insert does nothing where the code is taken; a card upsert refreshes the
//! two prices where the external identifier is taken, and touches nothing
//! else. On these rules stand the models of a whole run: the card table
//! after the statements of a run, and the expansion table and the map after
//! a run of the expansion cache against a store that does not fail. The
//! database itself is outside this crate: what is proved here is proved of
//! these rules.

use crate::batch::lists;
use crate::expansion::{
    built, first_needed, lemma_first_needed, lemma_nothing_needed_when_all_bound, needs_expansion,
    recorded, InsertOutcome,
};
use crate::feed::{CardRecordView, SetRecordView};
use crate::metacard::{formatted, price_text, CardRow, PriceChange};
use crate::set::{set_row, SetRow};
use vstd::prelude::*;

verus! {

/// Each row is stored under its own external identifier.
pub open spec fn keyed(cards: Map<Seq<char>, CardRow>) -> bool {
    forall|k: Seq<char>| cards.contains_key(k) ==> (#[trigger] cards[k]).scryfall_id == k
}

/// The stored row with its two prices taken from the incoming one.
pub open spec fn refreshed(stored: CardRow, price: Seq<char>, foil_price: Seq<char>) -> CardRow {
    CardRow { price, foil_price, ..stored }
}

/// The card table after one row was upserted.
pub open spec fn upsert_row(cards: Map<Seq<char>, CardRow>, row: CardRow) -> Map<Seq<char>, CardRow> {
    if cards.contains_key(row.scryfall_id) {
        cards.insert(row.scryfall_id, refreshed(cards[row.scryfall_id], row.price, row.foil_price))
    } else {
        cards.insert(row.scryfall_id, row)
    }
}

/// The card table after the rows of one bulk statement were upserted, in
/// their order.
pub open spec fn upsert_rows(cards: Map<Seq<char>, CardRow>, rows: Seq<CardRow>) -> Map<
    Seq<char>,
    CardRow,
>
    decreases rows.len(),
{
    if rows.len() == 0 {
        cards
    } else {
        upsert_row(upsert_rows(cards, rows.drop_last()), rows.last())
    }
}

/// The card table after the prices of one card were refreshed: nothing
/// changes where the store holds no row of that external identifier.
pub open spec fn refresh_prices(cards: Map<Seq<char>, CardRow>, change: PriceChange) -> Map<
    Seq<char>,
    CardRow,
> {
    if cards.contains_key(change.scryfall_id) {
        cards.insert(
            change.scryfall_id,
            refreshed(cards[change.scryfall_id], change.price, change.foil_price),
        )
    } else {
        cards
    }
}

/// The expansion table after one row was inserted: nothing changes where
/// the code is taken.
pub open spec fn insert_set(sets: Map<Seq<char>, SetRow>, row: SetRow) -> Map<Seq<char>, SetRow> {
    if sets.contains_key(row.code) {
        sets
    } else {
        sets.insert(row.code, row)
    }
}

/// An upsert of a card that the store holds refreshes its two prices and
/// nothing else: the stored row keeps every other field, no row is added,
/// and every other row stays as it is.
pub proof fn lemma_upsert_refreshes_only_prices(cards: Map<Seq<char>, CardRow>, row: CardRow)
    requires
        cards.contains_key(row.scryfall_id),
    ensures
        upsert_row(cards, row).dom() == cards.dom(),
        upsert_row(cards, row)[row.scryfall_id] == refreshed(
            cards[row.scryfall_id],
            row.price,
            row.foil_price,
        ),
        upsert_row(cards, row)[row.scryfall_id].price == row.price,
        upsert_row(cards, row)[row.scryfall_id].foil_price == row.foil_price,
        upsert_row(cards, row)[row.scryfall_id].id == cards[row.scryfall_id].id,
        upsert_row(cards, row)[row.scryfall_id].name == cards[row.scryfall_id].name,
        upsert_row(cards, row)[row.scryfall_id].expansion_id == cards[row.scryfall_id].expansion_id,
        forall|k: Seq<char>|
            cards.contains_key(k) && k != row.scryfall_id ==> #[trigger] upsert_row(cards, row)[k]
                == cards[k],
{
    assert(upsert_row(cards, row).dom() =~= cards.dom());
}

/// An upsert of a row of a stored card and the refresh of that card's
/// prices come to the same.
pub proof fn lemma_upsert_of_stored_is_refresh(cards: Map<Seq<char>, CardRow>, row: CardRow)
    requires
        cards.contains_key(row.scryfall_id),
    ensures
        upsert_row(cards, row) == refresh_prices(
            cards,
            PriceChange {
                scryfall_id: row.scryfall_id,
                price: row.price,
                foil_price: row.foil_price,
            },
        ),
{
}

/// Upserts keep each row under its own external identifier.
pub proof fn lemma_upsert_rows_keyed(cards: Map<Seq<char>, CardRow>, rows: Seq<CardRow>)
    requires
        keyed(cards),
    ensures
        keyed(upsert_rows(cards, rows)),
    decreases rows.len(),
{
    if rows.len() > 0 {
        lemma_upsert_rows_keyed(cards, rows.drop_last());
    }
}

/// After the rows of a statement were upserted the table holds the rows it
/// held and one row for each external identifier among the incoming ones,
/// and no other.
pub proof fn lemma_upsert_rows_dom(cards: Map<Seq<char>, CardRow>, rows: Seq<CardRow>)
    ensures
        forall|k: Seq<char>|
            #[trigger] upsert_rows(cards, rows).contains_key(k) <==> cards.contains_key(k) || exists|
                i: int,
            |
                0 <= i < rows.len() && (#[trigger] rows[i]).scryfall_id == k,
    decreases rows.len(),
{
    if rows.len() > 0 {
        let front = rows.drop_last();
        lemma_upsert_rows_dom(cards, front);
        assert forall|k: Seq<char>| #[trigger]
            upsert_rows(cards, rows).contains_key(k) <==> cards.contains_key(k) || exists|i: int|
                0 <= i < rows.len() && (#[trigger] rows[i]).scryfall_id == k by {
            let held = upsert_rows(cards, front);
            assert(upsert_rows(cards, rows) == upsert_row(held, rows.last()));
            if upsert_rows(cards, rows).contains_key(k) {
                if k == rows.last().scryfall_id {
                    assert(rows[rows.len() - 1].scryfall_id == k);
                } else if !cards.contains_key(k) {
                    assert(held.contains_key(k));
                    let i = choose|i: int|
                        0 <= i < front.len() && (#[trigger] front[i]).scryfall_id == k;
                    assert(rows[i].scryfall_id == k);
                }
            }
            if cards.contains_key(k) {
                assert(held.contains_key(k));
            }
            if exists|i: int| 0 <= i < rows.len() && (#[trigger] rows[i]).scryfall_id == k {
                let i = choose|i: int| 0 <= i < rows.len() && (#[trigger] rows[i]).scryfall_id == k;
                if i < rows.len() - 1 {
                    assert(front[i].scryfall_id == k);
                    assert(held.contains_key(k));
                }
            }
        }
    }
}

/// A second run over an unchanged feed adds no card row: where every
/// incoming row carries an external identifier that the table holds, the
/// table holds the same external identifiers afterwards, one row each.
pub proof fn lemma_rerun_adds_no_card(cards: Map<Seq<char>, CardRow>, rows: Seq<CardRow>)
    requires
        forall|i: int| 0 <= i < rows.len() ==> cards.contains_key((#[trigger] rows[i]).scryfall_id),
    ensures
        upsert_rows(cards, rows).dom() == cards.dom(),
    decreases rows.len(),
{
    lemma_upsert_rows_dom(cards, rows);
    assert(upsert_rows(cards, rows).dom() =~= cards.dom());
}

/// Upserting the same cards twice, under whatever identifiers the rows of
/// the second run carry, leaves as many rows as upserting them once.
pub proof fn lemma_upsert_twice_adds_none(
    cards: Map<Seq<char>, CardRow>,
    first: Seq<CardRow>,
    second: Seq<CardRow>,
)
    requires
        first.len() == second.len(),
        forall|i: int|
            0 <= i < first.len() ==> (#[trigger] first[i]).scryfall_id == second[i].scryfall_id,
    ensures
        upsert_rows(upsert_rows(cards, first), second).dom() == upsert_rows(cards, first).dom(),
{
    lemma_upsert_rows_dom(cards, first);
    assert forall|i: int| 0 <= i < second.len() implies upsert_rows(cards, first).contains_key(
        (#[trigger] second[i]).scryfall_id,
    ) by {
        assert(first[i].scryfall_id == second[i].scryfall_id);
    }
    lemma_rerun_adds_no_card(upsert_rows(cards, first), second);
}

/// The second of two runs changes, of a card that both deliver, the two
/// prices and nothing else: the row that the first run wrote keeps its
/// identifier, its expansion and every field that was copied from the feed,
/// whatever the second run finds in the feed under that external identifier.
pub proof fn lemma_second_run_refreshes_only_prices(
    cards: Map<Seq<char>, CardRow>,
    first_id: Seq<char>,
    first_expansion: Seq<char>,
    first: CardRecordView,
    second_id: Seq<char>,
    second_expansion: Seq<char>,
    second: CardRecordView,
)
    requires
        !cards.contains_key(first.external_id),
        second.external_id == first.external_id,
    ensures
        ({
            let written = formatted(first_id, first_expansion, first);
            let incoming = formatted(second_id, second_expansion, second);
            let after = upsert_row(upsert_row(cards, written), incoming);
            &&& after.dom() == upsert_row(cards, written).dom()
            &&& after[first.external_id] == refreshed(
                written,
                price_text(second.price),
                price_text(second.foil_price),
            )
        }),
{
    let written = formatted(first_id, first_expansion, first);
    let incoming = formatted(second_id, second_expansion, second);
    lemma_upsert_refreshes_only_prices(upsert_row(cards, written), incoming);
}

/// A second run over an unchanged feed adds no card row: the rows that two
/// runs make of the same cards differ in their identifiers at most, so that
/// the second statement finds every external identifier taken.
pub proof fn lemma_second_run_adds_no_card(
    cards: Map<Seq<char>, CardRow>,
    feed: Seq<(Seq<char>, CardRecordView)>,
    first: Seq<CardRow>,
    second: Seq<CardRow>,
)
    requires
        lists(first, feed),
        lists(second, feed),
    ensures
        upsert_rows(upsert_rows(cards, first), second).dom() == upsert_rows(cards, first).dom(),
{
    assert forall|i: int| 0 <= i < first.len() implies (#[trigger] first[i]).scryfall_id
        == second[i].scryfall_id by {
        assert(first[i].scryfall_id == feed[i].1.external_id);
        assert(second[i].scryfall_id == feed[i].1.external_id);
    }
    lemma_upsert_twice_adds_none(cards, first, second);
}

/// Inserting an expansion whose code is taken changes nothing, so that no
/// code is ever held twice.
pub proof fn lemma_insert_set_is_idempotent(sets: Map<Seq<char>, SetRow>, row: SetRow, again: SetRow)
    requires
        again.code == row.code,
    ensures
        insert_set(insert_set(sets, row), again) == insert_set(sets, row),
{
}

/// The card table after the statements of one run were issued, in their
/// order.
pub open spec fn run_cards(cards: Map<Seq<char>, CardRow>, statements: Seq<Seq<CardRow>>) -> Map<
    Seq<char>,
    CardRow,
>
    decreases statements.len(),
{
    if statements.len() == 0 {
        cards
    } else {
        upsert_rows(run_cards(cards, statements.drop_last()), statements.last())
    }
}

/// The two prices of the last row of a statement that carries the external
/// identifier `key`, or `None` where no row carries it.
pub open spec fn last_prices(rows: Seq<CardRow>, key: Seq<char>) -> Option<(Seq<char>, Seq<char>)>
    decreases rows.len(),
{
    if rows.len() == 0 {
        None
    } else if rows.last().scryfall_id == key {
        Some((rows.last().price, rows.last().foil_price))
    } else {
        last_prices(rows.drop_last(), key)
    }
}

/// The two prices of the last row of a run that carries the external
/// identifier `key`, or `None` where no row of the run carries it.
pub open spec fn final_prices(statements: Seq<Seq<CardRow>>, key: Seq<char>) -> Option<
    (Seq<char>, Seq<char>),
>
    decreases statements.len(),
{
    if statements.len() == 0 {
        None
    } else {
        match last_prices(statements.last(), key) {
            Some(prices) => Some(prices),
            None => final_prices(statements.drop_last(), key),
        }
    }
}

/// What one statement does to the row of one external identifier: where no
/// incoming row carries it, nothing; else the row holds the prices of the
/// last incoming row that carries it, and a row that was stored keeps every
/// other field.
pub proof fn lemma_statement_refreshes_only_prices(
    cards: Map<Seq<char>, CardRow>,
    rows: Seq<CardRow>,
    key: Seq<char>,
)
    ensures
        match last_prices(rows, key) {
            Some(prices) => {
                &&& upsert_rows(cards, rows).contains_key(key)
                &&& upsert_rows(cards, rows)[key].price == prices.0
                &&& upsert_rows(cards, rows)[key].foil_price == prices.1
                &&& cards.contains_key(key) ==> upsert_rows(cards, rows)[key] == refreshed(
                    cards[key],
                    prices.0,
                    prices.1,
                )
            },
            None => {
                &&& upsert_rows(cards, rows).contains_key(key) == cards.contains_key(key)
                &&& cards.contains_key(key) ==> upsert_rows(cards, rows)[key] == cards[key]
            },
        },
    decreases rows.len(),
{
    if rows.len() > 0 {
        lemma_statement_refreshes_only_prices(cards, rows.drop_last(), key);
    }
}

/// What a whole run does to the row of one external identifier: where no
/// row of the run carries it, nothing; else the row holds the prices of the
/// last row of the run that carries it, and a row that was stored before
/// the run keeps its identifier, its expansion and every other field.
pub proof fn lemma_run_refreshes_only_prices(
    cards: Map<Seq<char>, CardRow>,
    statements: Seq<Seq<CardRow>>,
    key: Seq<char>,
)
    ensures
        match final_prices(statements, key) {
            Some(prices) => {
                &&& run_cards(cards, statements).contains_key(key)
                &&& run_cards(cards, statements)[key].price == prices.0
                &&& run_cards(cards, statements)[key].foil_price == prices.1
                &&& cards.contains_key(key) ==> run_cards(cards, statements)[key] == refreshed(
                    cards[key],
                    prices.0,
                    prices.1,
                )
            },
            None => {
                &&& run_cards(cards, statements).contains_key(key) == cards.contains_key(key)
                &&& cards.contains_key(key) ==> run_cards(cards, statements)[key] == cards[key]
            },
        },
    decreases statements.len(),
{
    if statements.len() > 0 {
        let front = statements.drop_last();
        lemma_run_refreshes_only_prices(cards, front, key);
        lemma_statement_refreshes_only_prices(run_cards(cards, front), statements.last(), key);
    }
}

/// A run keeps each row under its own external identifier, so that no
/// external identifier is ever held by two rows.
pub proof fn lemma_run_keyed(cards: Map<Seq<char>, CardRow>, statements: Seq<Seq<CardRow>>)
    requires
        keyed(cards),
    ensures
        keyed(run_cards(cards, statements)),
    decreases statements.len(),
{
    if statements.len() > 0 {
        lemma_run_keyed(cards, statements.drop_last());
        lemma_upsert_rows_keyed(run_cards(cards, statements.drop_last()), statements.last());
    }
}

/// Two statements that list the same cards carry, for every external
/// identifier, the same last prices.
pub proof fn lemma_same_cards_same_prices(
    feed: Seq<(Seq<char>, CardRecordView)>,
    first: Seq<CardRow>,
    second: Seq<CardRow>,
    key: Seq<char>,
)
    requires
        lists(first, feed),
        lists(second, feed),
    ensures
        last_prices(first, key) == last_prices(second, key),
    decreases feed.len(),
{
    if feed.len() > 0 {
        let n = feed.len() - 1;
        assert(first[n].scryfall_id == feed[n].1.external_id);
        assert(second[n].scryfall_id == feed[n].1.external_id);
        lemma_lists_front(first, feed);
        lemma_lists_front(second, feed);
        lemma_same_cards_same_prices(feed.drop_last(), first.drop_last(), second.drop_last(), key);
    }
}

/// Rows that list cards list them still when the last row and the last
/// card are left out.
proof fn lemma_lists_front(rows: Seq<CardRow>, feed: Seq<(Seq<char>, CardRecordView)>)
    requires
        lists(rows, feed),
        feed.len() > 0,
    ensures
        lists(rows.drop_last(), feed.drop_last()),
{
    assert forall|i: int| 0 <= i < rows.len() - 1 implies crate::token::is_token(
        (#[trigger] rows.drop_last()[i]).id,
    ) && rows.drop_last()[i] == formatted(
        rows.drop_last()[i].id,
        feed.drop_last()[i].0,
        feed.drop_last()[i].1,
    ) by {
        assert(rows.drop_last()[i] == rows[i]);
    }
}

/// Two runs whose statements list the same cards carry, for every external
/// identifier, the same final prices.
pub proof fn lemma_same_feed_same_prices(
    groups: Seq<Seq<(Seq<char>, CardRecordView)>>,
    first: Seq<Seq<CardRow>>,
    second: Seq<Seq<CardRow>>,
    key: Seq<char>,
)
    requires
        first.len() == groups.len(),
        second.len() == groups.len(),
        forall|k: int|
            0 <= k < groups.len() ==> lists(#[trigger] first[k], groups[k]) && lists(
                second[k],
                groups[k],
            ),
    ensures
        final_prices(first, key) == final_prices(second, key),
    decreases groups.len(),
{
    if groups.len() > 0 {
        let n = groups.len() - 1;
        assert(lists(first[n], groups[n]) && lists(second[n], groups[n]));
        lemma_same_cards_same_prices(groups[n], first.last(), second.last(), key);
        assert forall|k: int| 0 <= k < n implies lists(
            #[trigger] first.drop_last()[k],
            groups.drop_last()[k],
        ) && lists(second.drop_last()[k], groups.drop_last()[k]) by {
            assert(lists(first[k], groups[k]) && lists(second[k], groups[k]));
        }
        lemma_same_feed_same_prices(groups.drop_last(), first.drop_last(), second.drop_last(), key);
    }
}

/// A second run over an unchanged feed changes no card row: where the
/// statements of two runs list the same cards, group for group, the table
/// after the second run is the table after the first. No row is added, and
/// every row keeps the value that the first run left, its identifier
/// included.
pub proof fn lemma_second_run_changes_no_card(
    cards: Map<Seq<char>, CardRow>,
    groups: Seq<Seq<(Seq<char>, CardRecordView)>>,
    first: Seq<Seq<CardRow>>,
    second: Seq<Seq<CardRow>>,
)
    requires
        first.len() == groups.len(),
        second.len() == groups.len(),
        forall|k: int|
            0 <= k < groups.len() ==> lists(#[trigger] first[k], groups[k]) && lists(
                second[k],
                groups[k],
            ),
    ensures
        run_cards(run_cards(cards, first), second) == run_cards(cards, first),
{
    let stored = run_cards(cards, first);
    let after = run_cards(stored, second);
    assert forall|key: Seq<char>|
        #![trigger after.dom().contains(key)]
        #![trigger stored.dom().contains(key)]
        after.dom().contains(key) == stored.dom().contains(key) && (stored.dom().contains(key)
            ==> after[key] == stored[key]) by {
        lemma_same_feed_same_prices(groups, first, second, key);
        lemma_run_refreshes_only_prices(cards, first, key);
        lemma_run_refreshes_only_prices(stored, second, key);
    }
    assert(after =~= stored);
}

/// What the preload of a run reads from the store: each code that the
/// store holds, bound to the identifier of its row.
pub open spec fn listed(sets: Map<Seq<char>, SetRow>) -> Map<Seq<char>, Seq<char>> {
    Map::new(|code: Seq<char>| sets.contains_key(code), |code: Seq<char>| sets[code].id)
}

/// What a store that does not fail answers to the insert of a row.
pub open spec fn answer(sets: Map<Seq<char>, SetRow>, row: SetRow) -> InsertOutcome {
    if sets.contains_key(row.code) {
        InsertOutcome::Conflict
    } else {
        InsertOutcome::Inserted
    }
}

/// The expansion table and the map at the end of a run.
pub ghost struct SyncEnd {
    pub sets: Map<Seq<char>, SetRow>,
    pub map: Map<Seq<char>, Seq<char>>,
}

/// Where a run of the expansion cache ends that starts with the table
/// `sets`, the map `map` and the sets `pending`, against a store that does
/// not fail: each set that needs a row gets the next of `ids`, its row is
/// inserted, and the store's answer is recorded.
pub open spec fn sync_end(
    sets: Map<Seq<char>, SetRow>,
    map: Map<Seq<char>, Seq<char>>,
    pending: Seq<SetRecordView>,
    ids: Seq<Seq<char>>,
) -> SyncEnd
    decreases pending.len(),
{
    let k = first_needed(pending, map);
    if 0 <= k < pending.len() && ids.len() > 0 {
        let row = set_row(ids[0], pending[k]);
        sync_end(
            insert_set(sets, row),
            recorded(map, row, answer(sets, row)),
            pending.skip(k + 1),
            ids.drop_first(),
        )
    } else {
        SyncEnd { sets, map }
    }
}

/// The map of a run against a store that does not fail, started from the
/// preload, is the map that the cache builder builds when every insert is
/// answered as written.
pub proof fn lemma_sync_map_is_built(
    sets: Map<Seq<char>, SetRow>,
    pending: Seq<SetRecordView>,
    ids: Seq<Seq<char>>,
)
    ensures
        sync_end(sets, listed(sets), pending, ids).map == built(
            listed(sets),
            pending,
            ids.map_values(|id: Seq<char>| (id, InsertOutcome::Inserted)),
        ),
    decreases pending.len(),
{
    let map = listed(sets);
    let answers = ids.map_values(|id: Seq<char>| (id, InsertOutcome::Inserted));
    let k = first_needed(pending, map);
    lemma_first_needed(pending, map);
    if 0 <= k < pending.len() && ids.len() > 0 {
        let row = set_row(ids[0], pending[k]);
        assert(!sets.contains_key(row.code));
        assert(recorded(map, row, answer(sets, row)) =~= listed(insert_set(sets, row)));
        assert(answers.drop_first() =~= ids.drop_first().map_values(
            |id: Seq<char>| (id, InsertOutcome::Inserted),
        ));
        lemma_sync_map_is_built(insert_set(sets, row), pending.skip(k + 1), ids.drop_first());
    }
}

/// A run changes no row that the store held, binds no code anew that it
/// does not write, and writes rows of printed sets of the feed alone: each
/// row that the table holds afterwards and did not hold before carries the
/// code, the external identifier and the name of a set of the feed that is
/// not digital-only.
pub proof fn lemma_sync_writes_only_printed_sets(
    sets: Map<Seq<char>, SetRow>,
    map: Map<Seq<char>, Seq<char>>,
    pending: Seq<SetRecordView>,
    ids: Seq<Seq<char>>,
)
    ensures
        forall|code: Seq<char>|
            sets.contains_key(code) ==> #[trigger] sync_end(sets, map, pending, ids).sets.contains_key(
                code,
            ) && sync_end(sets, map, pending, ids).sets[code] == sets[code],
        forall|code: Seq<char>|
            map.contains_key(code) ==> #[trigger] sync_end(sets, map, pending, ids).map.contains_key(
                code,
            ) && sync_end(sets, map, pending, ids).map[code] == map[code],
        forall|code: Seq<char>|
            #[trigger] sync_end(sets, map, pending, ids).sets.contains_key(code)
                && !sets.contains_key(code) ==> exists|i: int|
                0 <= i < pending.len() && !(#[trigger] pending[i]).digital && pending[i].code == code
                    && sync_end(sets, map, pending, ids).sets[code].code == code && sync_end(
                    sets,
                    map,
                    pending,
                    ids,
                ).sets[code].scryfall_id == pending[i].external_id && sync_end(
                    sets,
                    map,
                    pending,
                    ids,
                ).sets[code].name == pending[i].name,
        forall|code: Seq<char>|
            #[trigger] sync_end(sets, map, pending, ids).map.contains_key(code) && !map.contains_key(
                code,
            ) ==> exists|i: int|
                0 <= i < pending.len() && !(#[trigger] pending[i]).digital && pending[i].code
                    == code,
    decreases pending.len(),
{
    let k = first_needed(pending, map);
    let end = sync_end(sets, map, pending, ids);
    lemma_first_needed(pending, map);
    if 0 <= k < pending.len() && ids.len() > 0 {
        let row = set_row(ids[0], pending[k]);
        let next_sets = insert_set(sets, row);
        let next_map = recorded(map, row, answer(sets, row));
        let rest = pending.skip(k + 1);
        let tail = sync_end(next_sets, next_map, rest, ids.drop_first());
        lemma_sync_writes_only_printed_sets(next_sets, next_map, rest, ids.drop_first());
        assert(end == tail);
        assert forall|code: Seq<char>| sets.contains_key(code) implies #[trigger] end.sets.contains_key(
            code,
        ) && end.sets[code] == sets[code] by {
            assert(next_sets.contains_key(code) && next_sets[code] == sets[code]);
            assert(tail.sets.contains_key(code));
        }
        assert forall|code: Seq<char>| map.contains_key(code) implies #[trigger] end.map.contains_key(
            code,
        ) && end.map[code] == map[code] by {
            assert(next_map.contains_key(code) && next_map[code] == map[code]);
            assert(tail.map.contains_key(code));
        }
        assert forall|code: Seq<char>|
            #[trigger] end.sets.contains_key(code) && !sets.contains_key(code) implies exists|i: int|
            0 <= i < pending.len() && !(#[trigger] pending[i]).digital && pending[i].code == code
                && end.sets[code].code == code && end.sets[code].scryfall_id
                == pending[i].external_id && end.sets[code].name == pending[i].name by {
            assert(tail.sets.contains_key(code));
            if next_sets.contains_key(code) {
                assert(code == row.code);
                assert(tail.sets[code] == next_sets[code]);
                assert(pending[k].code == code);
            } else {
                let i = choose|i: int|
                    0 <= i < rest.len() && !(#[trigger] rest[i]).digital && rest[i].code == code
                        && end.sets[code].code == code && end.sets[code].scryfall_id
                        == rest[i].external_id && end.sets[code].name == rest[i].name;
                assert(pending[i + k + 1] == rest[i]);
            }
        }
        assert forall|code: Seq<char>|
            #[trigger] end.map.contains_key(code) && !map.contains_key(code) implies exists|i: int|
            0 <= i < pending.len() && !(#[trigger] pending[i]).digital && pending[i].code
                == code by {
            assert(tail.map.contains_key(code));
            if next_map.contains_key(code) {
                assert(pending[k].code == code);
            } else {
                let i = choose|i: int|
                    0 <= i < rest.len() && !(#[trigger] rest[i]).digital && rest[i].code == code;
                assert(pending[i + k + 1] == rest[i]);
            }
        }
    }
}

/// No expansion is ever made of a digital-only set: where the store holds
/// no row of the set's code or external identifier before the run and no
/// printed set of the feed shares either, it holds none after the run, and
/// the map of the run does not bind the code.
pub proof fn lemma_digital_set_is_never_stored(
    sets: Map<Seq<char>, SetRow>,
    map: Map<Seq<char>, Seq<char>>,
    pending: Seq<SetRecordView>,
    ids: Seq<Seq<char>>,
    set: SetRecordView,
)
    requires
        set.digital,
        !sets.contains_key(set.code),
        !map.contains_key(set.code),
        forall|code: Seq<char>|
            sets.contains_key(code) ==> (#[trigger] sets[code]).scryfall_id != set.external_id,
        forall|i: int|
            0 <= i < pending.len() && !(#[trigger] pending[i]).digital ==> pending[i].code
                != set.code && pending[i].external_id != set.external_id,
    ensures
        !sync_end(sets, map, pending, ids).sets.contains_key(set.code),
        !sync_end(sets, map, pending, ids).map.contains_key(set.code),
        forall|code: Seq<char>|
            sync_end(sets, map, pending, ids).sets.contains_key(code) ==> (#[trigger] sync_end(
                sets,
                map,
                pending,
                ids,
            ).sets[code]).scryfall_id != set.external_id,
{
    lemma_sync_writes_only_printed_sets(sets, map, pending, ids);
    let end = sync_end(sets, map, pending, ids);
    assert forall|code: Seq<char>| end.sets.contains_key(code) implies (#[trigger] end.sets[code]).scryfall_id
        != set.external_id by {
        if sets.contains_key(code) {
            assert(end.sets[code] == sets[code]);
        }
    }
}

/// Where a run starts from the map that the preload reads, the map stays
/// what a preload would read: at the end of the run it binds exactly the
/// codes that the store holds, each to the identifier of its row.
pub proof fn lemma_sync_keeps_listing(
    sets: Map<Seq<char>, SetRow>,
    pending: Seq<SetRecordView>,
    ids: Seq<Seq<char>>,
)
    ensures
        sync_end(sets, listed(sets), pending, ids).map == listed(
            sync_end(sets, listed(sets), pending, ids).sets,
        ),
    decreases pending.len(),
{
    let map = listed(sets);
    let k = first_needed(pending, map);
    lemma_first_needed(pending, map);
    if 0 <= k < pending.len() && ids.len() > 0 {
        let row = set_row(ids[0], pending[k]);
        assert(!sets.contains_key(row.code));
        assert(recorded(map, row, answer(sets, row)) =~= listed(insert_set(sets, row)));
        lemma_sync_keeps_listing(insert_set(sets, row), pending.skip(k + 1), ids.drop_first());
    }
}

/// A run that has an identifier for every set binds the code of every
/// printed set of the feed.
pub proof fn lemma_complete_sync_binds_every_printed_set(
    sets: Map<Seq<char>, SetRow>,
    pending: Seq<SetRecordView>,
    ids: Seq<Seq<char>>,
)
    requires
        ids.len() >= pending.len(),
    ensures
        forall|i: int|
            0 <= i < pending.len() ==> (#[trigger] pending[i]).digital || sync_end(
                sets,
                listed(sets),
                pending,
                ids,
            ).map.contains_key(pending[i].code),
    decreases pending.len(),
{
    let map = listed(sets);
    let k = first_needed(pending, map);
    let end = sync_end(sets, map, pending, ids);
    lemma_first_needed(pending, map);
    lemma_sync_writes_only_printed_sets(sets, map, pending, ids);
    if 0 <= k < pending.len() && ids.len() > 0 {
        let row = set_row(ids[0], pending[k]);
        let next_sets = insert_set(sets, row);
        let next_map = recorded(map, row, answer(sets, row));
        let rest = pending.skip(k + 1);
        assert(!sets.contains_key(row.code));
        assert(next_map =~= listed(next_sets));
        lemma_complete_sync_binds_every_printed_set(next_sets, rest, ids.drop_first());
        lemma_sync_writes_only_printed_sets(next_sets, next_map, rest, ids.drop_first());
        assert(end == sync_end(next_sets, next_map, rest, ids.drop_first()));
        assert forall|i: int| 0 <= i < pending.len() implies (#[trigger] pending[i]).digital
            || end.map.contains_key(pending[i].code) by {
            if i < k {
                assert(!needs_expansion(pending[i], map));
            } else if i == k {
                assert(next_map.contains_key(pending[k].code));
            } else {
                assert(rest[i - k - 1] == pending[i]);
            }
        }
    } else {
        assert forall|i: int| 0 <= i < pending.len() implies (#[trigger] pending[i]).digital
            || end.map.contains_key(pending[i].code) by {
            assert(!needs_expansion(pending[i], map));
        }
    }
}

/// A second run over an unchanged feed changes no expansion: after a run
/// that started from the preload and had an identifier for every set, a run
/// over the same sets that starts from the preload of the table as it then
/// is inserts nothing, leaves the table as it is and returns the map that
/// the first run returned.
pub proof fn lemma_second_sync_changes_nothing(
    sets: Map<Seq<char>, SetRow>,
    pending: Seq<SetRecordView>,
    ids: Seq<Seq<char>>,
    again: Seq<Seq<char>>,
)
    requires
        ids.len() >= pending.len(),
    ensures
        ({
            let first = sync_end(sets, listed(sets), pending, ids);
            let second = sync_end(first.sets, listed(first.sets), pending, again);
            &&& first_needed(pending, listed(first.sets)) == pending.len()
            &&& second.sets == first.sets
            &&& second.map == first.map
        }),
{
    let first = sync_end(sets, listed(sets), pending, ids);
    lemma_sync_keeps_listing(sets, pending, ids);
    lemma_complete_sync_binds_every_printed_set(sets, pending, ids);
    lemma_nothing_needed_when_all_bound(pending, first.map);
}

} // verus!
