//! Texture sources: which of them name an image file, and what a
//! descriptor of a flat texture holds.
use vstd::prelude::*;
use crate::document::{Document, Json};

verus! {

/// The ending of the sources that name an image file.
pub open spec fn raster_ending() -> Seq<char> {
    seq!['.', 'p', 'n', 'g']
}

/// The source names an image file: it ends in `.png`. Any other source
/// names the descriptor of a flat texture.
pub open spec fn is_raster_source(source: Seq<char>) -> bool {
    source.len() >= 4 && source.subrange(source.len() - 4, source.len() as int) == raster_ending()
}

/// Whether the source names an image file.
pub fn is_raster(source: &str) -> (raster: bool)
    ensures
        raster == is_raster_source(source@),
{
    let length = source.unicode_len();
    if length < 4 {
        return false;
    }
    let ghost tail = source@.subrange(length - 4, length as int);
    let raster = source.get_char(length - 4) == '.' && source.get_char(length - 3) == 'p'
        && source.get_char(length - 2) == 'n' && source.get_char(length - 1) == 'g';
    proof {
        assert(tail[0] == source@[length - 4] && tail[1] == source@[length - 3]);
        assert(tail[2] == source@[length - 2] && tail[3] == source@[length - 1]);
        if raster {
            assert(tail =~= raster_ending());
        }
    }
    raster
}

/// The key under which a descriptor holds its colour.
pub open spec fn color_key() -> Seq<char> {
    "color"@
}

/// The value is a number.
pub open spec fn is_number(value: Json) -> bool {
    value is Integer || value is Decimal
}

/// The three channels of the colour of a descriptor: the first three
/// items of the array under `color`, where they are numbers.
pub open spec fn channels(descriptor: Json) -> Option<(Json, Json, Json)> {
    match descriptor.get(color_key()) {
        Some(Json::Array(items)) => if items.len() >= 3 && is_number(items[0]) && is_number(
            items[1],
        ) && is_number(items[2]) {
            Some((items[0], items[1], items[2]))
        } else {
            None
        },
        _ => None,
    }
}

/// Whether the document is a number.
fn number(value: &Document) -> (is: bool)
    ensures
        is == is_number(value@),
{
    match value {
        Document::Integer(_) => true,
        Document::Decimal(_) => true,
        _ => false,
    }
}

/// The red, green and blue channel of the colour of a descriptor, each a
/// number between 0 and 1 that is still to be scaled. Nothing where the
/// descriptor holds no array of at least three numbers under `color`.
pub fn color_channels(descriptor: &Document) -> (found: Option<(&Document, &Document, &Document)>)
    ensures
        match found {
            Some((red, green, blue)) => channels(descriptor@) == Some((red@, green@, blue@)),
            None => channels(descriptor@) is None,
        },
{
    match descriptor.get("color") {
        Some(Document::Array(items)) => {
            if items.len() >= 3 && number(&items[0]) && number(&items[1]) && number(&items[2]) {
                Some((&items[0], &items[1], &items[2]))
            } else {
                None
            }
        },
        _ => None,
    }
}

} // verus!
