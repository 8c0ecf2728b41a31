//! The records that the feed delivers, as plain values.

use vstd::prelude::*;

verus! {

/// The text of an optional string.
pub open spec fn text_of(o: Option<String>) -> Option<Seq<char>> {
    match o {
        Some(s) => Some(s@),
        None => None,
    }
}

/// One released set, as the feed lists it.
#[derive(Clone, Debug)]
pub struct SetRecord {
    pub external_id: String,
    pub name: String,
    pub code: String,
    pub digital: bool,
}

pub ghost struct SetRecordView {
    pub external_id: Seq<char>,
    pub name: Seq<char>,
    pub code: Seq<char>,
    pub digital: bool,
}

impl View for SetRecord {
    type V = SetRecordView;

    open spec fn view(&self) -> SetRecordView {
        SetRecordView {
            external_id: self.external_id@,
            name: self.name@,
            code: self.code@,
            digital: self.digital,
        }
    }
}

/// The image addresses of a card or of one face, by resolution.
#[derive(Clone, Debug)]
pub struct ImageUris {
    pub small: Option<String>,
    pub normal: Option<String>,
    pub large: Option<String>,
}

pub ghost struct ImageUrisView {
    pub small: Option<Seq<char>>,
    pub normal: Option<Seq<char>>,
    pub large: Option<Seq<char>>,
}

impl View for ImageUris {
    type V = ImageUrisView;

    open spec fn view(&self) -> ImageUrisView {
        ImageUrisView {
            small: text_of(self.small),
            normal: text_of(self.normal),
            large: text_of(self.large),
        }
    }
}

/// The images of a card: one map for a single-faced card, or one optional
/// map per face.
#[derive(Clone, Debug)]
pub enum CardImages {
    Single(ImageUris),
    Faces(Vec<Option<ImageUris>>),
}

pub ghost enum CardImagesView {
    Single(ImageUrisView),
    Faces(Seq<Option<ImageUrisView>>),
}

/// The view of one face's optional image map.
pub open spec fn face_view(face: Option<ImageUris>) -> Option<ImageUrisView> {
    match face {
        Some(m) => Some(m@),
        None => None,
    }
}

impl View for CardImages {
    type V = CardImagesView;

    open spec fn view(&self) -> CardImagesView {
        match *self {
            CardImages::Single(m) => CardImagesView::Single(m@),
            CardImages::Faces(faces) => CardImagesView::Faces(
                faces@.map_values(|f: Option<ImageUris>| face_view(f)),
            ),
        }
    }
}

/// One card printing, as the feed delivers it.
#[derive(Clone, Debug)]
pub struct CardRecord {
    pub external_id: String,
    pub market_id: Option<u64>,
    pub name: String,
    pub reference_uri: String,
    pub reserved: bool,
    pub set_code: String,
    pub collector_number: String,
    pub price: Option<String>,
    pub foil_price: Option<String>,
    pub images: CardImages,
    pub digital: bool,
}

pub ghost struct CardRecordView {
    pub external_id: Seq<char>,
    pub market_id: Option<u64>,
    pub name: Seq<char>,
    pub reference_uri: Seq<char>,
    pub reserved: bool,
    pub set_code: Seq<char>,
    pub collector_number: Seq<char>,
    pub price: Option<Seq<char>>,
    pub foil_price: Option<Seq<char>>,
    pub images: CardImagesView,
    pub digital: bool,
}

impl View for CardRecord {
    type V = CardRecordView;

    open spec fn view(&self) -> CardRecordView {
        CardRecordView {
            external_id: self.external_id@,
            market_id: self.market_id,
            name: self.name@,
            reference_uri: self.reference_uri@,
            reserved: self.reserved,
            set_code: self.set_code@,
            collector_number: self.collector_number@,
            price: text_of(self.price),
            foil_price: text_of(self.foil_price),
            images: self.images@,
            digital: self.digital,
        }
    }
}

/// A card that the feed failed to deliver.
#[derive(Clone, Debug)]
pub struct FetchError {
    pub message: String,
}

} // verus!
