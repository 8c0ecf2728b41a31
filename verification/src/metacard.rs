//! The card normalizer: from one card of the feed to the row that is
//! written for it, or to the reason why none is.

use crate::expansion::{built, lemma_run_binds_only_printed_sets, ExpansionMap, InsertOutcome};
use crate::feed::{
    CardImages, CardImagesView, CardRecord, CardRecordView, ImageUris, ImageUrisView, SetRecordView,
};
use crate::price::{get_default_price, is_decimal, parse_price, Price};
use crate::token::{fresh_token, is_token};
use vstd::prelude::*;

verus! {

/// One card printing as it is written to the store.
#[derive(Debug)]
pub struct FormattedCard {
    pub id: String,
    pub scryfall_id: String,
    pub cardmarket_id: i32,
    pub name: String,
    pub scryfall_uri: String,
    pub reserved: bool,
    pub expansion_id: String,
    pub collectors_num: String,
    pub price: Price,
    pub foil_price: Price,
    pub front_image_uri: String,
    pub back_image_uri: String,
}

/// A card row as plain values; the two prices are decimal numerals.
pub ghost struct CardRow {
    pub id: Seq<char>,
    pub scryfall_id: Seq<char>,
    pub cardmarket_id: int,
    pub name: Seq<char>,
    pub scryfall_uri: Seq<char>,
    pub reserved: bool,
    pub expansion_id: Seq<char>,
    pub collectors_num: Seq<char>,
    pub price: Seq<char>,
    pub foil_price: Seq<char>,
    pub front_image_uri: Seq<char>,
    pub back_image_uri: Seq<char>,
}

impl View for FormattedCard {
    type V = CardRow;

    open spec fn view(&self) -> CardRow {
        CardRow {
            id: self.id@,
            scryfall_id: self.scryfall_id@,
            cardmarket_id: self.cardmarket_id as int,
            name: self.name@,
            scryfall_uri: self.scryfall_uri@,
            reserved: self.reserved,
            expansion_id: self.expansion_id@,
            collectors_num: self.collectors_num@,
            price: self.price.text(),
            foil_price: self.foil_price.text(),
            front_image_uri: self.front_image_uri@,
            back_image_uri: self.back_image_uri@,
        }
    }
}

/// The largest market identifier that fits the column of the store.
pub const MARKET_ID_MAX: u64 = 2147483647;

/// Why a card of the feed gets no row.
#[derive(Clone, Copy, Debug, PartialEq, Eq, Structural)]
pub enum Skip {
    /// The card has no market identifier: it is not traded.
    NonTradable,
    /// The card's set code is bound to no expansion.
    OrphanExpansion,
    /// The market identifier does not fit the column.
    MarketIdOutOfRange,
    /// The price is present and is no decimal numeral.
    PriceUnreadable,
    /// The foil price is present and is no decimal numeral.
    FoilPriceUnreadable,
}

/// The image of a single-faced card: the normal resolution, else the large
/// one, else the small one, else none.
pub open spec fn preferred_image(m: ImageUrisView) -> Seq<char> {
    match m.normal {
        Some(u) => u,
        None => match m.large {
            Some(u) => u,
            None => match m.small {
                Some(u) => u,
                None => Seq::empty(),
            },
        },
    }
}

/// The normal-resolution image of one face, or none.
pub open spec fn normal_image(face: Option<ImageUrisView>) -> Seq<char> {
    match face {
        Some(m) => match m.normal {
            Some(u) => u,
            None => Seq::empty(),
        },
        None => Seq::empty(),
    }
}

/// The front image: of the first face where the card has faces.
pub open spec fn front_image(images: CardImagesView) -> Seq<char> {
    match images {
        CardImagesView::Single(m) => preferred_image(m),
        CardImagesView::Faces(faces) => if faces.len() == 0 {
            Seq::empty()
        } else {
            normal_image(faces.first())
        },
    }
}

/// The back image: of the last face where the card has faces, else none.
pub open spec fn back_image(images: CardImagesView) -> Seq<char> {
    match images {
        CardImagesView::Single(m) => Seq::empty(),
        CardImagesView::Faces(faces) => if faces.len() == 0 {
            Seq::empty()
        } else {
            normal_image(faces.last())
        },
    }
}

/// The numeral that a price of the feed is read from: the default where
/// the feed gives none.
pub open spec fn price_text(p: Option<Seq<char>>) -> Seq<char> {
    match p {
        Some(t) => t,
        None => "0.00"@,
    }
}

/// The market identifier of a card that has one, as a number.
pub open spec fn market_number(m: Option<u64>) -> int
    recommends
        m is Some,
{
    m->0 as int
}

/// Whether the prices of the card can be read: each one that is present is
/// a decimal numeral.
pub open spec fn refreshable(card: CardRecordView) -> bool {
    &&& is_decimal(price_text(card.price))
    &&& is_decimal(price_text(card.foil_price))
}

/// Whether a row can be made of the card: it has a market identifier, which
/// fits the column, and its prices can be read.
pub open spec fn formattable(card: CardRecordView) -> bool {
    &&& card.market_id is Some
    &&& market_number(card.market_id) <= MARKET_ID_MAX
    &&& refreshable(card)
}

/// The row of a card, under a given identifier and expansion.
pub open spec fn formatted(id: Seq<char>, expansion_id: Seq<char>, card: CardRecordView) -> CardRow {
    CardRow {
        id,
        scryfall_id: card.external_id,
        cardmarket_id: market_number(card.market_id),
        name: card.name,
        scryfall_uri: card.reference_uri,
        reserved: card.reserved,
        expansion_id,
        collectors_num: card.collector_number,
        price: price_text(card.price),
        foil_price: price_text(card.foil_price),
        front_image_uri: front_image(card.images),
        back_image_uri: back_image(card.images),
    }
}

/// What becomes of a card: `None` where it gets a row, else the first
/// reason that applies, in the order in which they are checked.
pub open spec fn verdict(card: CardRecordView, map: Map<Seq<char>, Seq<char>>) -> Option<Skip> {
    if card.market_id is None {
        Some(Skip::NonTradable)
    } else if !map.contains_key(card.set_code) {
        Some(Skip::OrphanExpansion)
    } else if market_number(card.market_id) > MARKET_ID_MAX {
        Some(Skip::MarketIdOutOfRange)
    } else if !is_decimal(price_text(card.price)) {
        Some(Skip::PriceUnreadable)
    } else if !is_decimal(price_text(card.foil_price)) {
        Some(Skip::FoilPriceUnreadable)
    } else {
        None
    }
}

/// The text of an optional string, or the empty text.
fn text_or_empty(o: &Option<String>) -> (s: String)
    ensures
        s@ == match *o {
            Some(t) => t@,
            None => Seq::<char>::empty(),
        },
{
    match o {
        Some(t) => t.clone(),
        None => String::new(),
    }
}

/// The normal-resolution image of one face.
fn normal_of(face: &Option<ImageUris>) -> (s: String)
    ensures
        s@ == normal_image(crate::feed::face_view(*face)),
{
    match face {
        Some(m) => text_or_empty(&m.normal),
        None => String::new(),
    }
}

/// The image of a single-faced card, by the order of preference.
fn preferred_of(m: &ImageUris) -> (s: String)
    ensures
        s@ == preferred_image(m@),
{
    match &m.normal {
        Some(u) => u.clone(),
        None => match &m.large {
            Some(u) => u.clone(),
            None => text_or_empty(&m.small),
        },
    }
}

/// Reads a price of the feed, with the default in place of an absent one.
fn read_price(p: &Option<String>) -> (r: Option<Price>)
    ensures
        r is Some <==> is_decimal(price_text(crate::feed::text_of(*p))),
        r matches Some(q) ==> q.text() == price_text(crate::feed::text_of(*p)),
{
    match p {
        Some(t) => parse_price(t.as_str()),
        None => {
            let d = get_default_price();
            parse_price(d.as_str())
        },
    }
}

impl FormattedCard {
    /// The front and the back image of a card.
    pub fn extract_images(card: &CardRecord) -> (images: (String, String))
        ensures
            images.0@ == front_image(card.images@),
            images.1@ == back_image(card.images@),
    {
        match &card.images {
            CardImages::Single(m) => (preferred_of(m), String::new()),
            CardImages::Faces(faces) => {
                let n: usize = faces.len();
                if n == 0 {
                    (String::new(), String::new())
                } else {
                    (normal_of(&faces[0]), normal_of(&faces[n - 1]))
                }
            },
        }
    }

    /// The row of a card under the identifier `id`.
    pub fn with_id(id: String, expansion_id: String, card: &CardRecord) -> (row: FormattedCard)
        requires
            formattable(card@),
        ensures
            row@ == formatted(id@, expansion_id@, card@),
    {
        let cardmarket_id: i32 = card.market_id.unwrap() as i32;
        let price = read_price(&card.price);
        let foil_price = read_price(&card.foil_price);
        let images = FormattedCard::extract_images(card);
        FormattedCard {
            id,
            scryfall_id: card.external_id.clone(),
            cardmarket_id,
            name: card.name.clone(),
            scryfall_uri: card.reference_uri.clone(),
            reserved: card.reserved,
            expansion_id,
            collectors_num: card.collector_number.clone(),
            price: price.unwrap(),
            foil_price: foil_price.unwrap(),
            front_image_uri: images.0,
            back_image_uri: images.1,
        }
    }

    /// The row of a card under a new identifier.
    pub fn new(expansion_id: String, card: &CardRecord) -> (row: FormattedCard)
        requires
            formattable(card@),
        ensures
            is_token(row.id@),
            row@ == formatted(row.id@, expansion_id@, card@),
    {
        FormattedCard::with_id(fresh_token(), expansion_id, card)
    }
}

/// Whether a row can be made of the card.
pub fn can_format(card: &CardRecord) -> (ok: bool)
    ensures
        ok == formattable(card@),
{
    let fits = match card.market_id {
        Some(n) => n <= MARKET_ID_MAX,
        None => false,
    };
    fits && can_refresh(card)
}

/// Whether the prices of the card can be read.
pub fn can_refresh(card: &CardRecord) -> (ok: bool)
    ensures
        ok == refreshable(card@),
{
    read_price(&card.price).is_some() && read_price(&card.foil_price).is_some()
}

/// What becomes of a card, and the identifier of its expansion where it
/// gets a row.
pub fn classify<'a>(card: &CardRecord, map: &'a ExpansionMap) -> (r: Result<&'a String, Skip>)
    ensures
        match r {
            Ok(expansion_id) => verdict(card@, map@) is None && expansion_id@ == map@[card.set_code@],
            Err(reason) => verdict(card@, map@) == Some(reason),
        },
{
    let market_id: u64 = match card.market_id {
        Some(n) => n,
        None => {
            return Err(Skip::NonTradable);
        },
    };
    let expansion_id = match map.get(card.set_code.as_str()) {
        Some(id) => id,
        None => {
            return Err(Skip::OrphanExpansion);
        },
    };
    if market_id > MARKET_ID_MAX {
        return Err(Skip::MarketIdOutOfRange);
    }
    if read_price(&card.price).is_none() {
        return Err(Skip::PriceUnreadable);
    }
    if read_price(&card.foil_price).is_none() {
        return Err(Skip::FoilPriceUnreadable);
    }
    Ok(expansion_id)
}

/// Normalizes one card under the identifier `id`: its row, or the reason
/// why it gets none.
pub fn normalize_with_id(id: String, card: &CardRecord, map: &ExpansionMap) -> (r: Result<
    FormattedCard,
    Skip,
>)
    ensures
        match r {
            Ok(row) => verdict(card@, map@) is None && row@ == formatted(
                id@,
                map@[card.set_code@],
                card@,
            ),
            Err(reason) => verdict(card@, map@) == Some(reason),
        },
{
    match classify(card, map) {
        Ok(expansion_id) => Ok(FormattedCard::with_id(id, expansion_id.clone(), card)),
        Err(reason) => Err(reason),
    }
}

/// Normalizes one card: its row under a new identifier, or the reason why
/// it gets none. Whether it gets one, and every field but the identifier,
/// depend on the card and the map alone.
pub fn normalize(card: &CardRecord, map: &ExpansionMap) -> (r: Result<FormattedCard, Skip>)
    ensures
        match r {
            Ok(row) => verdict(card@, map@) is None && is_token(row.id@) && row@ == formatted(
                row.id@,
                map@[card.set_code@],
                card@,
            ),
            Err(reason) => verdict(card@, map@) == Some(reason),
        },
{
    match classify(card, map) {
        Ok(expansion_id) => Ok(FormattedCard::new(expansion_id.clone(), card)),
        Err(reason) => Err(reason),
    }
}

/// The only fields that are refreshed for a card that the store holds
/// already: the two prices, under the card's external identifier.
#[derive(Debug)]
pub struct PriceUpdate {
    pub scryfall_id: String,
    pub price: Price,
    pub foil_price: Price,
}

/// A price refresh as plain values; the two prices are decimal numerals.
pub ghost struct PriceChange {
    pub scryfall_id: Seq<char>,
    pub price: Seq<char>,
    pub foil_price: Seq<char>,
}

impl View for PriceUpdate {
    type V = PriceChange;

    open spec fn view(&self) -> PriceChange {
        PriceChange {
            scryfall_id: self.scryfall_id@,
            price: self.price.text(),
            foil_price: self.foil_price.text(),
        }
    }
}

/// The price refresh of a card.
pub open spec fn price_change(card: CardRecordView) -> PriceChange {
    PriceChange {
        scryfall_id: card.external_id,
        price: price_text(card.price),
        foil_price: price_text(card.foil_price),
    }
}

/// What is written for one card: a new row, or a refresh of the prices of
/// the row that the store holds.
#[derive(Debug)]
pub enum CardWrite {
    Create(FormattedCard),
    Update(PriceUpdate),
}

/// The row to insert for a card that the store does not hold yet.
pub fn create_card(card: &CardRecord, expansion_id: &String) -> (row: FormattedCard)
    requires
        formattable(card@),
    ensures
        is_token(row.id@),
        row@ == formatted(row.id@, expansion_id@, card@),
{
    FormattedCard::new(expansion_id.clone(), card)
}

/// The refresh for a card that the store holds already: its prices, and
/// nothing else.
pub fn update_card(card: &CardRecord) -> (update: PriceUpdate)
    requires
        refreshable(card@),
    ensures
        update@ == price_change(card@),
{
    let price = read_price(&card.price);
    let foil_price = read_price(&card.foil_price);
    PriceUpdate {
        scryfall_id: card.external_id.clone(),
        price: price.unwrap(),
        foil_price: foil_price.unwrap(),
    }
}

/// Decides what to write for one card, given whether the store holds a row
/// of its external identifier: a refresh of the prices where it does, a new
/// row where it does not. The refresh reads the two prices alone; the new
/// row needs a market identifier too.
pub fn upsert_card(card: &CardRecord, expansion_id: &String, exists: bool) -> (write: CardWrite)
    requires
        exists ==> refreshable(card@),
        !exists ==> formattable(card@),
    ensures
        match write {
            CardWrite::Update(update) => exists && update@ == price_change(card@),
            CardWrite::Create(row) => !exists && is_token(row.id@) && row@ == formatted(
                row.id@,
                expansion_id@,
                card@,
            ),
        },
{
    if exists {
        CardWrite::Update(update_card(card))
    } else {
        CardWrite::Create(create_card(card, expansion_id))
    }
}

/// A card without a market identifier gets no row, whatever else it holds.
pub proof fn lemma_non_tradable_gets_no_row(card: CardRecordView, map: Map<Seq<char>, Seq<char>>)
    requires
        card.market_id is None,
    ensures
        verdict(card, map) == Some(Skip::NonTradable),
{
}

/// A card whose set code is bound to no expansion gets no row.
pub proof fn lemma_orphan_gets_no_row(card: CardRecordView, map: Map<Seq<char>, Seq<char>>)
    requires
        !map.contains_key(card.set_code),
    ensures
        verdict(card, map) is Some,
        card.market_id is Some ==> verdict(card, map) == Some(Skip::OrphanExpansion),
{
}

/// No card of a digital-only set is ever given a row: where the store lists
/// no expansion of the card's set code and the feed lists that code for
/// digital-only sets alone, the card gets no row under the map that the run
/// builds, whatever the store answers.
pub proof fn lemma_card_of_digital_set_gets_no_row(
    map: Map<Seq<char>, Seq<char>>,
    pending: Seq<SetRecordView>,
    answers: Seq<(Seq<char>, InsertOutcome)>,
    card: CardRecordView,
)
    requires
        !map.contains_key(card.set_code),
        forall|i: int|
            0 <= i < pending.len() && (#[trigger] pending[i]).code == card.set_code
                ==> pending[i].digital,
    ensures
        verdict(card, built(map, pending, answers)) is Some,
{
    lemma_run_binds_only_printed_sets(map, pending, answers);
    assert(!built(map, pending, answers).contains_key(card.set_code));
}

/// A price that the feed leaves out is read as the default numeral, and one
/// that it gives is read as given.
pub proof fn lemma_price_defaults(id: Seq<char>, expansion_id: Seq<char>, card: CardRecordView)
    ensures
        card.price is None ==> formatted(id, expansion_id, card).price == "0.00"@,
        card.foil_price is None ==> formatted(id, expansion_id, card).foil_price == "0.00"@,
        card.price matches Some(t) ==> formatted(id, expansion_id, card).price == t,
        card.foil_price matches Some(t) ==> formatted(id, expansion_id, card).foil_price == t,
{
}

} // verus!
