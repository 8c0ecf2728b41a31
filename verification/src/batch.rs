//! The batch upsert engine: the cards of the feed that get a row, cut into
//! groups of a fixed size, each group laid out column by column for one
//! bulk statement.

use crate::expansion::ExpansionMap;
use crate::feed::{CardRecord, CardRecordView, FetchError};
use crate::metacard::{classify, formattable, formatted, verdict, CardRow, FormattedCard, Skip};
use crate::price::Price;
use crate::token::is_token;
use itertools::Itertools;
use vstd::prelude::*;

verus! {

/// How many rows one bulk statement carries at most.
pub const BATCH_SIZE: usize = 200;

/// How many groups of at most `size` items a sequence of `len` items is cut
/// into: `len / size`, rounded up.
pub open spec fn chunk_count(len: nat, size: nat) -> nat {
    if size == 0 {
        0
    } else {
        ((len + size - 1) / (size as int)) as nat
    }
}

/// The `k`-th group of `s` cut into groups of `size`.
pub open spec fn chunk_at<T>(s: Seq<T>, size: nat, k: int) -> Seq<T> {
    let from = k * size;
    let to = if from + size <= s.len() {
        from + size
    } else {
        s.len() as int
    };
    s.subrange(from, to)
}

/// `s` cut into consecutive groups of `size`, the last one shorter where the
/// items do not fill it.
pub open spec fn chunked<T>(s: Seq<T>, size: nat) -> Seq<Seq<T>> {
    Seq::new(chunk_count(s.len(), size), |k: int| chunk_at(s, size, k))
}

/// The groups, each as the sequence of its items.
pub open spec fn groups_view<T>(groups: Seq<Vec<T>>) -> Seq<Seq<T>> {
    groups.map_values(|g: Vec<T>| g@)
}

/// Calls `Itertools::chunks` on the items and collects each chunk it yields.
/// The chunks are consecutive runs of `size` items in their order, the last
/// one shorter where the items run out; no chunk is empty. A `size` of zero
/// makes `chunks` panic and is left out.
#[verifier::external_body]
pub(crate) fn chunks_of<T>(items: Vec<T>, size: usize) -> (groups: Vec<Vec<T>>)
    requires
        size > 0,
    ensures
        groups_view(groups@) == chunked(items@, size as nat),
{
    let chunks = items.into_iter().chunks(size);
    let mut groups: Vec<Vec<T>> = Vec::new();
    for chunk in &chunks {
        groups.push(chunk.collect());
    }
    groups
}

/// The rows of one bulk statement, column by column.
#[derive(Debug)]
pub struct CardColumns {
    pub ids: Vec<String>,
    pub scryfall_ids: Vec<String>,
    pub cardmarket_ids: Vec<i32>,
    pub names: Vec<String>,
    pub scryfall_uris: Vec<String>,
    pub reserveds: Vec<bool>,
    pub expansion_ids: Vec<String>,
    pub collectors_nums: Vec<String>,
    pub prices: Vec<Price>,
    pub foil_prices: Vec<Price>,
    pub front_image_uris: Vec<String>,
    pub back_image_uris: Vec<String>,
}

impl CardColumns {
    /// The columns are equally long.
    pub open spec fn wf(&self) -> bool {
        let n = self.ids@.len();
        &&& self.scryfall_ids@.len() == n
        &&& self.cardmarket_ids@.len() == n
        &&& self.names@.len() == n
        &&& self.scryfall_uris@.len() == n
        &&& self.reserveds@.len() == n
        &&& self.expansion_ids@.len() == n
        &&& self.collectors_nums@.len() == n
        &&& self.prices@.len() == n
        &&& self.foil_prices@.len() == n
        &&& self.front_image_uris@.len() == n
        &&& self.back_image_uris@.len() == n
    }

    /// The `i`-th row, read across the columns.
    pub open spec fn row(&self, i: int) -> CardRow {
        CardRow {
            id: self.ids@[i]@,
            scryfall_id: self.scryfall_ids@[i]@,
            cardmarket_id: self.cardmarket_ids@[i] as int,
            name: self.names@[i]@,
            scryfall_uri: self.scryfall_uris@[i]@,
            reserved: self.reserveds@[i],
            expansion_id: self.expansion_ids@[i]@,
            collectors_num: self.collectors_nums@[i]@,
            price: self.prices@[i].text(),
            foil_price: self.foil_prices@[i].text(),
            front_image_uri: self.front_image_uris@[i]@,
            back_image_uri: self.back_image_uris@[i]@,
        }
    }

    /// Columns without rows.
    pub fn new() -> (columns: CardColumns)
        ensures
            columns.wf(),
            columns@.len() == 0,
    {
        CardColumns {
            ids: Vec::new(),
            scryfall_ids: Vec::new(),
            cardmarket_ids: Vec::new(),
            names: Vec::new(),
            scryfall_uris: Vec::new(),
            reserveds: Vec::new(),
            expansion_ids: Vec::new(),
            collectors_nums: Vec::new(),
            prices: Vec::new(),
            foil_prices: Vec::new(),
            front_image_uris: Vec::new(),
            back_image_uris: Vec::new(),
        }
    }

    /// Appends one row, each field to its column.
    pub fn push(&mut self, card: FormattedCard)
        requires
            old(self).wf(),
        ensures
            final(self).wf(),
            final(self)@ == old(self)@.push(card@),
    {
        self.ids.push(card.id);
        self.scryfall_ids.push(card.scryfall_id);
        self.cardmarket_ids.push(card.cardmarket_id);
        self.names.push(card.name);
        self.scryfall_uris.push(card.scryfall_uri);
        self.reserveds.push(card.reserved);
        self.expansion_ids.push(card.expansion_id);
        self.collectors_nums.push(card.collectors_num);
        self.prices.push(card.price);
        self.foil_prices.push(card.foil_price);
        self.front_image_uris.push(card.front_image_uri);
        self.back_image_uris.push(card.back_image_uri);
    }

    /// How many rows the columns hold.
    pub fn len(&self) -> (n: usize)
        ensures
            n == self@.len(),
    {
        self.ids.len()
    }
}

impl View for CardColumns {
    type V = Seq<CardRow>;

    /// The rows, in their order.
    open spec fn view(&self) -> Seq<CardRow> {
        Seq::new(self.ids@.len(), |i: int| self.row(i))
    }
}

/// The cards with their expansion identifiers, as plain values.
pub open spec fn pairs_view(cards: Seq<(String, &CardRecord)>) -> Seq<(Seq<char>, CardRecordView)> {
    cards.map_values(|p: (String, &CardRecord)| (p.0@, p.1@))
}

/// The rows are those of the cards, one for one and in their order: each
/// under an identifier of its own, with the fields that the card and its
/// expansion give.
pub open spec fn lists(rows: Seq<CardRow>, cards: Seq<(Seq<char>, CardRecordView)>) -> bool {
    &&& rows.len() == cards.len()
    &&& forall|i: int|
        0 <= i < rows.len() ==> is_token((#[trigger] rows[i]).id) && rows[i] == formatted(
            rows[i].id,
            cards[i].0,
            cards[i].1,
        )
}

/// Lays one group of cards out as the columns of a bulk statement, each
/// card under a new identifier.
pub fn batch_upsert_cards(cards: &Vec<(String, &CardRecord)>) -> (columns: CardColumns)
    requires
        forall|i: int| 0 <= i < cards@.len() ==> formattable((#[trigger] cards@[i]).1@),
    ensures
        columns.wf(),
        lists(columns@, pairs_view(cards@)),
{
    let mut columns = CardColumns::new();
    let n: usize = cards.len();
    let mut i: usize = 0;
    while i < n
        invariant
            n == cards@.len(),
            0 <= i <= n,
            forall|j: int| 0 <= j < cards@.len() ==> formattable((#[trigger] cards@[j]).1@),
            columns.wf(),
            lists(columns@, pairs_view(cards@).take(i as int)),
        decreases n - i,
    {
        let card = FormattedCard::new(cards[i].0.clone(), cards[i].1);
        columns.push(card);
        i = i + 1;
    }
    columns
}

/// Why an item of the feed gets no row.
#[derive(Clone, Copy, Debug, PartialEq, Eq, Structural)]
pub enum Cause {
    /// The feed failed to deliver the card.
    FetchFailed,
    /// The normalizer passed the card over.
    Skipped(Skip),
}

/// An item of the feed that gets no row: its position in the feed, and why.
#[derive(Clone, Copy, Debug, PartialEq, Eq, Structural)]
pub struct Rejection {
    pub position: usize,
    pub cause: Cause,
}

/// Why an item gets no row, or `None` where it gets one.
pub open spec fn item_cause(item: Result<CardRecord, FetchError>, map: Map<Seq<char>, Seq<char>>)
    -> Option<Cause> {
    match item {
        Ok(card) => match verdict(card@, map) {
            Some(reason) => Some(Cause::Skipped(reason)),
            None => None,
        },
        Err(_) => Some(Cause::FetchFailed),
    }
}

/// The cards that get a row, in the order of the feed, each with the
/// identifier of its expansion.
pub open spec fn selected(items: Seq<Result<CardRecord, FetchError>>, map: Map<Seq<char>, Seq<char>>)
    -> Seq<(Seq<char>, CardRecordView)>
    decreases items.len(),
{
    if items.len() == 0 {
        Seq::empty()
    } else {
        let rest = selected(items.drop_last(), map);
        match items.last() {
            Ok(card) => if verdict(card@, map) is None {
                rest.push((map[card@.set_code], card@))
            } else {
                rest
            },
            Err(_) => rest,
        }
    }
}

/// The items that get no row, in the order of the feed.
pub open spec fn rejected(items: Seq<Result<CardRecord, FetchError>>, map: Map<Seq<char>, Seq<char>>)
    -> Seq<Rejection>
    decreases items.len(),
{
    if items.len() == 0 {
        Seq::empty()
    } else {
        let rest = rejected(items.drop_last(), map);
        match item_cause(items.last(), map) {
            Some(cause) => rest.push(Rejection { position: (items.len() - 1) as usize, cause }),
            None => rest,
        }
    }
}

/// Every item of the feed is either given a row or reported.
pub proof fn lemma_every_item_accounted(
    items: Seq<Result<CardRecord, FetchError>>,
    map: Map<Seq<char>, Seq<char>>,
)
    ensures
        selected(items, map).len() + rejected(items, map).len() == items.len(),
    decreases items.len(),
{
    if items.len() > 0 {
        lemma_every_item_accounted(items.drop_last(), map);
    }
}

/// Rows are made only of cards that are traded and whose set code is bound:
/// every card that gets a row has a market identifier and a set code that
/// the map binds, and the row's expansion is the one that the code is bound
/// to.
pub proof fn lemma_rows_only_for_tradable_of_known_set(
    items: Seq<Result<CardRecord, FetchError>>,
    map: Map<Seq<char>, Seq<char>>,
)
    ensures
        forall|j: int|
            0 <= j < selected(items, map).len() ==> {
                let pair = #[trigger] selected(items, map)[j];
                &&& pair.1.market_id is Some
                &&& map.contains_key(pair.1.set_code)
                &&& pair.0 == map[pair.1.set_code]
                &&& formattable(pair.1)
            },
    decreases items.len(),
{
    if items.len() > 0 {
        lemma_rows_only_for_tradable_of_known_set(items.drop_last(), map);
    }
}

/// Every card that gets a row was delivered by the feed, and the rows keep
/// the order of the feed: the cards that get a row come from positions of
/// the feed that increase.
pub proof fn lemma_rows_keep_feed_order(
    items: Seq<Result<CardRecord, FetchError>>,
    map: Map<Seq<char>, Seq<char>>,
) -> (origin: Seq<int>)
    ensures
        origin.len() == selected(items, map).len(),
        forall|j: int|
            0 <= j < origin.len() ==> 0 <= #[trigger] origin[j] < items.len() && item_cause(
                items[origin[j]],
                map,
            ) is None && match items[origin[j]] {
                Ok(card) => selected(items, map)[j].1 == card@,
                Err(_) => false,
            },
        forall|i: int, j: int| 0 <= i < j < origin.len() ==> origin[i] < origin[j],
    decreases items.len(),
{
    if items.len() == 0 {
        Seq::empty()
    } else {
        let rest = lemma_rows_keep_feed_order(items.drop_last(), map);
        if item_cause(items.last(), map) is None {
            rest.push(items.len() - 1)
        } else {
            rest
        }
    }
}

/// Sorts the feed: the cards that get a row, each with the identifier of
/// its expansion, and the items that get none.
pub fn select_cards<'a>(map: &ExpansionMap, items: &'a Vec<Result<CardRecord, FetchError>>) -> (r: (
    Vec<(String, &'a CardRecord)>,
    Vec<Rejection>,
))
    ensures
        pairs_view(r.0@) == selected(items@, map@),
        forall|j: int| 0 <= j < r.0@.len() ==> formattable((#[trigger] r.0@[j]).1@),
        r.1@ == rejected(items@, map@),
{
    let mut chosen: Vec<(String, &'a CardRecord)> = Vec::new();
    let mut passed: Vec<Rejection> = Vec::new();
    let n: usize = items.len();
    let mut i: usize = 0;
    while i < n
        invariant
            n == items@.len(),
            0 <= i <= n,
            pairs_view(chosen@) == selected(items@.take(i as int), map@),
            forall|j: int| 0 <= j < chosen@.len() ==> formattable((#[trigger] chosen@[j]).1@),
            passed@ == rejected(items@.take(i as int), map@),
        decreases n - i,
    {
        proof {
            assert(items@.take(i + 1).drop_last() =~= items@.take(i as int));
        }
        let ghost before = chosen@;
        match &items[i] {
            Ok(card) => match classify(card, map) {
                Ok(expansion_id) => {
                    chosen.push((expansion_id.clone(), card));
                    assert(pairs_view(chosen@) =~= pairs_view(before).push(
                        (map@[card@.set_code], card@),
                    ));
                },
                Err(reason) => {
                    passed.push(Rejection { position: i, cause: Cause::Skipped(reason) });
                },
            },
            Err(_) => {
                passed.push(Rejection { position: i, cause: Cause::FetchFailed });
            },
        }
        i = i + 1;
    }
    assert(items@.take(n as int) =~= items@);
    (chosen, passed)
}

/// What one run does with the cards of the feed.
#[derive(Debug)]
pub struct CardRun {
    /// The bulk statements to issue, in this order.
    pub statements: Vec<CardColumns>,
    /// The items that get no row, in the order of the feed.
    pub rejected: Vec<Rejection>,
}

/// Plans the card upserts of one run: the cards that get a row are cut, in
/// the order of the feed, into groups of `BATCH_SIZE`, and each group is laid
/// out as the columns of one bulk statement.
pub fn upsert_cards(
    set_code_to_expansion_id: &ExpansionMap,
    items: &Vec<Result<CardRecord, FetchError>>,
) -> (run: CardRun)
    ensures
        run.rejected@ == rejected(items@, set_code_to_expansion_id@),
        run.statements@.len() == chunk_count(
            selected(items@, set_code_to_expansion_id@).len(),
            BATCH_SIZE as nat,
        ),
        forall|k: int|
            0 <= k < run.statements@.len() ==> (#[trigger] run.statements@[k]).wf() && lists(
                run.statements@[k]@,
                chunk_at(selected(items@, set_code_to_expansion_id@), BATCH_SIZE as nat, k),
            ),
        forall|k: int|
            0 <= k < run.statements@.len() - 1 ==> (#[trigger] run.statements@[k])@.len()
                == BATCH_SIZE,
        run.statements@.len() > 0 ==> 1 <= run.statements@.last()@.len() <= BATCH_SIZE,
{
    let (chosen, passed) = select_cards(set_code_to_expansion_id, items);
    let ghost all = chosen@;
    let groups = chunks_of(chosen, BATCH_SIZE);
    let ghost cut = chunked(all, BATCH_SIZE as nat);
    let ghost plain = selected(items@, set_code_to_expansion_id@);
    proof {
        lemma_chunked_shape(all, BATCH_SIZE as nat);
        assert forall|k: int| 0 <= k < groups@.len() implies (#[trigger] groups@[k])@ == cut[k] by {
            assert(groups_view(groups@)[k] == groups@[k]@);
        }
    }
    let mut statements: Vec<CardColumns> = Vec::new();
    let n: usize = groups.len();
    let mut k: usize = 0;
    while k < n
        invariant
            n == groups@.len(),
            0 <= k <= n,
            cut == chunked(all, BATCH_SIZE as nat),
            cut.len() == n,
            plain == pairs_view(all),
            forall|j: int| 0 <= j < all.len() ==> formattable((#[trigger] all[j]).1@),
            forall|g: int| 0 <= g < n ==> (#[trigger] groups@[g])@ == cut[g],
            forall|g: int, j: int|
                0 <= g < cut.len() && 0 <= j < cut[g].len() ==> 0 <= g * BATCH_SIZE + j < all.len()
                    && #[trigger] cut[g][j] == all[g * BATCH_SIZE + j],
            statements@.len() == k,
            forall|g: int|
                0 <= g < k ==> (#[trigger] statements@[g]).wf() && lists(
                    statements@[g]@,
                    chunk_at(plain, BATCH_SIZE as nat, g),
                ),
        decreases n - k,
    {
        let group = &groups[k];
        let columns = batch_upsert_cards(group);
        statements.push(columns);
        k = k + 1;
    }
    proof {
        lemma_chunked_shape(plain, BATCH_SIZE as nat);
    }
    CardRun { statements, rejected: passed }
}

/// How often one bulk statement is issued at most: once, and once more
/// after a failure.
pub const MAX_ATTEMPTS: u32 = 2;

/// What to do after an attempt at a bulk statement.
#[derive(Clone, Copy, Debug, PartialEq, Eq, Structural)]
pub enum WriteStep {
    /// The statement went through: go on with the next one.
    Proceed,
    /// The statement failed: issue it again.
    Retry,
    /// The statement failed for the last time: report it and go on.
    GiveUp,
}

/// What to do after the `attempt`-th attempt at a statement, the first
/// being attempt one.
pub open spec fn step_after(attempt: u32, succeeded: bool) -> WriteStep {
    if succeeded {
        WriteStep::Proceed
    } else if attempt < MAX_ATTEMPTS {
        WriteStep::Retry
    } else {
        WriteStep::GiveUp
    }
}

/// Decides what to do after an attempt at a bulk statement: a failed
/// statement is retried once.
pub fn after_attempt(attempt: u32, succeeded: bool) -> (step: WriteStep)
    ensures
        step == step_after(attempt, succeeded),
{
    if succeeded {
        WriteStep::Proceed
    } else if attempt < MAX_ATTEMPTS {
        WriteStep::Retry
    } else {
        WriteStep::GiveUp
    }
}

/// The shape of a cut into groups: there are `len / size` groups, rounded
/// up; every group but the last holds exactly `size` items and the last one
/// holds at least one and at most `size`; the groups hold all the items,
/// each once, in the order in which they came.
pub proof fn lemma_chunked_shape<T>(s: Seq<T>, size: nat)
    requires
        size > 0,
    ensures
        chunked(s, size).len() == chunk_count(s.len(), size),
        s.len() == 0 <==> chunked(s, size).len() == 0,
        forall|k: int|
            0 <= k < chunked(s, size).len() - 1 ==> (#[trigger] chunked(s, size)[k]).len() == size,
        chunked(s, size).len() > 0 ==> 1 <= chunked(s, size).last().len() <= size && (chunked(
            s,
            size,
        ).len() - 1) * size + chunked(s, size).last().len() == s.len(),
        forall|k: int|
            0 <= k < chunked(s, size).len() ==> 0 <= k * size && k * size + (#[trigger] chunked(
                s,
                size,
            )[k]).len() <= s.len(),
        forall|k: int, j: int|
            0 <= k < chunked(s, size).len() && 0 <= j < chunked(s, size)[k].len()
                ==> #[trigger] chunked(s, size)[k][j] == s[k * size + j],
{
    let len = s.len() as int;
    let d = size as int;
    let c = chunk_count(s.len(), size) as int;
    lemma_chunk_count(s.len(), size);
    assert forall|k: int| 0 <= k < c - 1 implies (#[trigger] chunked(s, size)[k]).len() == size by {
        lemma_chunk_start(len, d, c, k);
    }
    if c > 0 {
        lemma_chunk_start(len, d, c, c - 1);
        assert((c - 1) * d + d == c * d) by (nonlinear_arith);
    }
    assert forall|k: int| 0 <= k < chunked(s, size).len() implies 0 <= k * size && k * size + (
    #[trigger] chunked(s, size)[k]).len() <= s.len() by {
        lemma_chunk_start(len, d, c, k);
        assert(0 <= k * d) by (nonlinear_arith)
            requires
                0 <= k,
                0 < d,
        ;
    }
    assert forall|k: int, j: int|
        0 <= k < chunked(s, size).len() && 0 <= j < chunked(s, size)[k].len()
        implies #[trigger] chunked(s, size)[k][j] == s[k * size + j] by {
        lemma_chunk_start(len, d, c, k);
        assert(0 <= k * d) by (nonlinear_arith)
            requires
                0 <= k,
                0 < d,
        ;
    }
}

/// Rounding up: the groups have room for all the items, and without the
/// last group they have not.
proof fn lemma_chunk_count(len: nat, size: nat)
    requires
        size > 0,
    ensures
        chunk_count(len, size) * size >= len,
        len > 0 ==> (chunk_count(len, size) - 1) * size < len,
        len == 0 <==> chunk_count(len, size) == 0,
{
    let x = (len + size - 1) as int;
    let d = size as int;
    assert(x == d * (x / d) + x % d && 0 <= x % d < d && (x < d ==> x / d == 0) && (x >= d ==> x
        / d >= 1)) by (nonlinear_arith)
        requires
            d > 0,
            x >= 0,
    ;
    let c = x / d;
    assert((c - 1) * d == c * d - d && c * d == d * c) by (nonlinear_arith);
}

/// Where the `k`-th group starts, there are items left; and any group but
/// the last is filled.
proof fn lemma_chunk_start(len: int, d: int, c: int, k: int)
    requires
        d > 0,
        len >= 0,
        c * d >= len,
        len > 0 ==> (c - 1) * d < len,
        len == 0 ==> c == 0,
        0 <= k < c,
    ensures
        k * d < len,
        k < c - 1 ==> k * d + d <= len,
{
    assert(k * d <= (c - 1) * d) by (nonlinear_arith)
        requires
            k <= c - 1,
            d > 0,
    ;
    if k < c - 1 {
        assert(k * d + d <= (c - 1) * d) by (nonlinear_arith)
            requires
                k + 1 <= c - 1,
                d > 0,
        ;
    }
}

} // verus!
