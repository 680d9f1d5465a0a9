//! Trusted boundary to the H3 spatial index. Which texts are cell tokens,
//! and where a cell's centroid lies, only the h3ron crate can say; both are
//! pure functions of their input, so they are held as named results that the
//! two wrappers below produce.
use vstd::prelude::*;

verus! {

/// The cell index that the H3 library reads out of a token, if the text is
/// one of its tokens and the cell is valid.
pub uninterp spec fn h3_token_index(s: Seq<char>) -> Option<u64>;

/// The centroid of the cell with the given index — latitude and longitude in
/// degrees, each as its shortest decimal rendering — or nothing when the
/// index is not a cell.
pub uninterp spec fn h3_centroid_text(index: u64) -> Option<(Seq<char>, Seq<char>)>;

/// Relies on h3ron::H3Cell::from_str (libh3's stringToH3 followed by
/// isValidCell): it reads the token text alone, so its result is a function
/// of that text; a token it accepts names a valid cell, and libh3's
/// cellToLatLng computes a centroid for every valid cell.
#[verifier::external_body]
pub(crate) fn h3_parse_token(s: &str) -> (r: Option<u64>)
    ensures
        r == h3_token_index(s@),
        r matches Some(n) ==> h3_centroid_text(n) is Some,
{
    match <h3ron::H3Cell as core::str::FromStr>::from_str(s) {
        Ok(cell) => Some(h3ron::Index::h3index(&cell)),
        Err(_) => None,
    }
}

/// Relies on h3ron::ToCoordinate::to_coordinate for H3Cell (libh3's
/// cellToLatLng), which maps an index to its centroid or rejects it, and on
/// std's decimal rendering of the two values; both depend on the index
/// alone.
#[verifier::external_body]
pub(crate) fn h3_centroid(index: u64) -> (r: Option<(String, String)>)
    ensures
        match r {
            Some(t) => h3_centroid_text(index) == Some((t.0@, t.1@)),
            None => h3_centroid_text(index) is None,
        },
{
    let cell = <h3ron::H3Cell as h3ron::FromH3Index>::from_h3index(index);
    match h3ron::ToCoordinate::to_coordinate(&cell) {
        Ok(c) => Some((format!("{}", c.y), format!("{}", c.x))),
        Err(_) => None,
    }
}

} // verus!
