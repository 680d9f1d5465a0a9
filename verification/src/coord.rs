//! Coordinates and the three input grammars: a grid cell token, a numeric
//! grid cell index, and a literal "latitude, longitude" pair, tried in that
//! fixed order.
use vstd::prelude::*;

verus! {

/// A geographic position in degrees, held in billionths of a degree.
#[derive(Clone, Copy, Debug, PartialEq, Eq, Structural)]
pub struct GeoCoordinate {
    pub lat_nano: i64,
    pub lng_nano: i64,
}

/// The coordinate a grid cell index resolves to: its centroid text, read
/// back as fixed-point degrees.
pub open spec fn cell_coordinate(n: u64) -> Option<GeoCoordinate> {
    match crate::h3::h3_centroid_text(n) {
        Some(t) => match (crate::text::dec_nano_i64(t.0), crate::text::dec_nano_i64(t.1)) {
            (Some(lat), Some(lng)) => Some(GeoCoordinate { lat_nano: lat, lng_nano: lng }),
            _ => None,
        },
        None => None,
    }
}

/// The literal grammar: trim the text, split it at the first comma, trim the
/// sides, read each side as a signed decimal number of degrees.
pub open spec fn literal_coordinate(s: Seq<char>) -> Option<GeoCoordinate> {
    let t = crate::text::trim_spec(s);
    match crate::text::first_index(t, ',') {
        Some(i) => {
            let lat = crate::text::dec_nano_i64(crate::text::trim_spec(t.take(i)));
            let lng = crate::text::dec_nano_i64(crate::text::trim_spec(t.skip(i + 1)));
            match (lat, lng) {
                (Some(a), Some(b)) => Some(GeoCoordinate { lat_nano: a, lng_nano: b }),
                _ => None,
            }
        },
        None => None,
    }
}

/// The three grammars in priority order: a text of digits is always a grid
/// cell index, never a bare latitude.
pub open spec fn parse_spec(s: Seq<char>) -> Option<GeoCoordinate> {
    match crate::h3::h3_token_index(s) {
        Some(n) => cell_coordinate(n),
        None => match crate::text::dec_u64(s) {
            Some(n) => cell_coordinate(n),
            None => literal_coordinate(s),
        },
    }
}

impl GeoCoordinate {
    pub fn new(lat_nano: i64, lng_nano: i64) -> (c: GeoCoordinate)
        ensures
            c == (GeoCoordinate { lat_nano, lng_nano }),
    {
        GeoCoordinate { lat_nano, lng_nano }
    }

    /// Resolves a grid cell index to the coordinate of its centroid.
    pub fn from_index(n: u64) -> (r: Option<GeoCoordinate>)
        ensures
            r == cell_coordinate(n),
    {
        match crate::h3::h3_centroid(n) {
            Some(t) => {
                let lat = crate::text::parse_nano(t.0.as_str());
                let lng = crate::text::parse_nano(t.1.as_str());
                match (lat, lng) {
                    (Some(a), Some(b)) => Some(GeoCoordinate { lat_nano: a, lng_nano: b }),
                    _ => None,
                }
            },
            None => None,
        }
    }

    /// Reads a literal "latitude, longitude" pair.
    pub fn from_literal(s: &str) -> (r: Option<GeoCoordinate>)
        ensures
            r == literal_coordinate(s@),
    {
        let t = crate::text::trim(s);
        match crate::text::find_char(t, ',') {
            Some(i) => {
                let n = t.unicode_len();
                let left = t.substring_char(0, i);
                let right = t.substring_char(i + 1, n);
                proof {
                    assert(left@ =~= t@.take(i as int));
                    assert(right@ =~= t@.skip(i + 1));
                }
                let lat = crate::text::parse_nano(crate::text::trim(left));
                let lng = crate::text::parse_nano(crate::text::trim(right));
                match (lat, lng) {
                    (Some(a), Some(b)) => Some(GeoCoordinate { lat_nano: a, lng_nano: b }),
                    _ => None,
                }
            },
            None => None,
        }
    }

    /// Reads a coordinate in any of the three grammars, in priority order.
    pub fn from_text(s: &str) -> (r: Option<GeoCoordinate>)
        ensures
            r == parse_spec(s@),
    {
        match crate::h3::h3_parse_token(s) {
            Some(n) => GeoCoordinate::from_index(n),
            None => match crate::text::parse_u64(s) {
                Some(n) => GeoCoordinate::from_index(n),
                None => GeoCoordinate::from_literal(s),
            },
        }
    }
}

/// Law: parsing is a function of the input text alone, so reading the same
/// token twice yields the identical coordinate.
pub proof fn lemma_parse_deterministic(s: Seq<char>, t: Seq<char>)
    requires
        s == t,
    ensures
        parse_spec(s) == parse_spec(t),
{
}

/// Law: a grid cell given by its token and by its decimal index resolve to
/// the same coordinate — provided the decimal text is not itself read as a
/// token, which the grammar priority would put first.
pub proof fn lemma_token_and_index_agree(s: Seq<char>, t: Seq<char>, n: u64)
    requires
        crate::h3::h3_token_index(s) == Some(n),
        crate::h3::h3_token_index(t) is None,
        crate::text::dec_u64(t) == Some(n),
    ensures
        parse_spec(s) == parse_spec(t),
{
}

} // verus!
