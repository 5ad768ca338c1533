//! The shape of a notice as it is drawn on a map.

use vstd::prelude::*;
use crate::utils::dates::date_text;
use crate::utils::dates::date_text_of;
use crate::utils::gazette::joined;
use crate::utils::gazette::text_view;
use crate::utils::gazette::Gazette;
use crate::utils::hull::hull_of;
use crate::utils::maptypes::centre_of;
use crate::utils::maptypes::without_identical;
use crate::utils::maptypes::GeoPosition;
use crate::utils::maptypes::MapPolygon;
use crate::utils::proximity::without_isolated;
use crate::utils::proximity::without_outliers;
use crate::utils::proximity::DistanceTable;

verus! {

/// How far, in metres, a neighbour may lie from a point that is drawn.
pub const NEIGHBOUR_DISTANCE: u32 = 5000;

/// How many neighbours a point needs to be drawn.
pub const NEIGHBOURS_NEEDED: usize = 2;

/// The type of a feature.
pub const FEATURE: &'static str = "Feature";

/// The type of a collection of features.
pub const FEATURE_COLLECTION: &'static str = "FeatureCollection";

/// A shape on the map. Each coordinate pair holds the longitude and then
/// the latitude.
#[derive(Debug)]
pub enum GeoJsonGeometry {
    Point { coordinates: [i32; 2] },
    Polygon { coordinates: Vec<Vec<[i32; 2]>> },
}

/// Some features.
#[derive(Debug)]
pub struct GeoJsonFeatureCollection {
    pub type_field: String,
    pub features: Vec<GeoJsonFeature>,
}

/// A shape with what is known of its notice.
#[derive(Debug)]
pub struct GeoJsonFeature {
    pub type_field: String,
    pub geometry: GeoJsonGeometry,
    pub properties: GeoJsonProperties,
}

/// What is known of the notice of a feature.
#[derive(Debug)]
pub struct GeoJsonProperties {
    pub title: Option<String>,
    pub uri: String,
    pub img_uri: Option<String>,
    pub start: String,
    pub end: String,
}

impl GeoJsonFeatureCollection {
    /// A collection without features.
    pub fn new() -> (r: Self)
        ensures
            r.type_field@ == FEATURE_COLLECTION@,
            r.features@.len() == 0,
    {
        GeoJsonFeatureCollection { type_field: FEATURE_COLLECTION.to_owned(), features: Vec::new() }
    }
}

/// The coordinate pair of `p`: its longitude and then its latitude.
pub open spec fn pair_of(p: GeoPosition) -> Seq<i32> {
    seq![p.longitude, p.latitude]
}

/// The coordinate pairs of the points `s`.
pub open spec fn pairs_of(s: Seq<GeoPosition>) -> Seq<Seq<i32>> {
    Seq::new(s.len(), |i: int| pair_of(s[i]))
}

/// The coordinate pairs `ring` as plain values.
pub open spec fn ring_view(ring: Seq<[i32; 2]>) -> Seq<Seq<i32>> {
    Seq::new(ring.len(), |i: int| ring[i]@)
}

impl GeoPosition {
    /// The coordinate pair of the position: its longitude and then its
    /// latitude.
    pub fn coordinates(&self) -> (r: [i32; 2])
        ensures
            r@ == pair_of(*self),
    {
        let pair: [i32; 2] = [self.longitude, self.latitude];
        proof {
            assert(pair@ =~= pair_of(*self));
        }
        pair
    }
}

/// The points of a notice as they are drawn: without the isolated ones
/// and without repetitions.
pub open spec fn drawn_points(s: Seq<GeoPosition>, d: Seq<Seq<u32>>) -> Seq<GeoPosition> {
    without_identical(without_isolated(s, d, NEIGHBOUR_DISTANCE as int, NEIGHBOURS_NEEDED as int))
}

/// The boundary of a notice: the convex hull of its points without the
/// outliers and without repetitions.
pub open spec fn outline_of(s: Seq<GeoPosition>, d: Seq<Seq<u32>>, threshold: int, buffer: int)
    -> Seq<GeoPosition> {
    hull_of(without_identical(without_outliers(s, d, threshold, buffer)))
}

/// Whether `geometry` is the shape of the points `s` with the distances
/// `d`: nothing where no point is drawn, the centre of the drawn points
/// where they are fewer than three, else the one ring of their convex hull.
pub open spec fn is_shape_of(
    geometry: Option<GeoJsonGeometry>,
    s: Seq<GeoPosition>,
    d: Seq<Seq<u32>>,
) -> bool {
    let drawn = drawn_points(s, d);
    match geometry {
        None => drawn.len() == 0,
        Some(GeoJsonGeometry::Point { coordinates }) => {
            &&& 0 < drawn.len() < 3
            &&& coordinates@ == pair_of(centre_of(drawn))
        },
        Some(GeoJsonGeometry::Polygon { coordinates }) => {
            &&& drawn.len() >= 3
            &&& coordinates@.len() == 1
            &&& ring_view(coordinates@[0]@) == pairs_of(hull_of(drawn))
        },
    }
}

/// The coordinate pairs of the points of `polygon`.
pub fn ring_of(polygon: &MapPolygon) -> (r: Vec<[i32; 2]>)
    ensures
        ring_view(r@) == pairs_of(polygon@),
{
    let mut ring: Vec<[i32; 2]> = Vec::new();
    let mut i: usize = 0;
    while i < polygon.data.len()
        invariant
            i <= polygon.data@.len(),
            ring@.len() == i,
            forall|k: int| 0 <= k < i ==> (#[trigger] ring@[k])@ == pair_of(polygon.data@[k]),
        decreases polygon.data@.len() - i,
    {
        ring.push(polygon.data[i].coordinates());
        i = i + 1;
    }
    proof {
        assert(ring_view(ring@) =~= pairs_of(polygon@));
    }
    ring
}

/// The shape of a notice for the map, from its points and the distances
/// between them: isolated points and repetitions are removed; what is
/// left is drawn as its convex hull, or as a single point at its centre
/// where fewer than three points are left, or not at all where none is.
pub fn display_geometry(polygon: &MapPolygon, distances: &DistanceTable) -> (r: Option<
    GeoJsonGeometry,
>)
    requires
        distances.size() == polygon@.len(),
    ensures
        is_shape_of(r, polygon@, distances@),
{
    let mut drawn = polygon.duplicate();
    drawn.remove_isolated_points(distances, NEIGHBOUR_DISTANCE, NEIGHBOURS_NEEDED);
    drawn.remove_identical_points();
    if drawn.data.len() == 0 {
        None
    } else if drawn.data.len() < 3 {
        Some(GeoJsonGeometry::Point { coordinates: drawn.centre().coordinates() })
    } else {
        let hull = drawn.convex_hull();
        let mut rings: Vec<Vec<[i32; 2]>> = Vec::new();
        rings.push(ring_of(&hull));
        Some(GeoJsonGeometry::Polygon { coordinates: rings })
    }
}

/// The boundary of a notice for the map, from its points and the
/// distances between them: outliers and repetitions are removed, and the
/// convex hull is taken of what is left.
pub fn outline(polygon: &MapPolygon, distances: &DistanceTable, threshold: u16, buffer: u32) -> (r:
    MapPolygon)
    requires
        distances.size() == polygon@.len(),
    ensures
        r@ == outline_of(polygon@, distances@, threshold as int, buffer as int),
{
    let mut cleaned = polygon.duplicate();
    cleaned.remove_outliers_by_proximity(distances, threshold, buffer);
    cleaned.remove_identical_points();
    cleaned.convex_hull()
}

/// The reference of an image as the map uses it: the stored reference
/// behind the address of the storage.
pub fn image_address(base_uri: &str, img_uri: &Option<String>) -> (r: Option<String>)
    ensures
        text_view(r) == match text_view(*img_uri) {
            Some(reference) => Some(base_uri@ + reference),
            None => None,
        },
{
    match img_uri {
        Some(reference) => Some(joined(base_uri, reference.as_str())),
        None => None,
    }
}

/// The feature of a notice, from its record and the distances between the
/// points of its polygon. There is none where the record has no polygon or
/// none of its points is drawn.
pub fn feature_of(gazette: &Gazette, distances: &DistanceTable, base_uri: &str) -> (r: Option<
    GeoJsonFeature,
>)
    requires
        gazette.polygon is Some ==> distances.size() == gazette.polygon->Some_0@.len(),
    ensures
        match r {
            Some(feature) => {
                &&& gazette.polygon is Some
                &&& is_shape_of(Some(feature.geometry), gazette.polygon->Some_0@, distances@)
                &&& feature.type_field@ == FEATURE@
                &&& text_view(feature.properties.title) == gazette@.title
                &&& feature.properties.uri@ == gazette@.uri
                &&& text_view(feature.properties.img_uri) == match gazette@.img_uri {
                    Some(reference) => Some(base_uri@ + reference),
                    None => None,
                }
                &&& feature.properties.start@ == date_text_of(gazette.start)
                &&& feature.properties.end@ == date_text_of(gazette.end)
            },
            None => gazette.polygon is None || is_shape_of(
                None,
                gazette.polygon->Some_0@,
                distances@,
            ),
        },
{
    match &gazette.polygon {
        None => None,
        Some(polygon) => match display_geometry(polygon, distances) {
            None => None,
            Some(geometry) => {
                let title = match &gazette.title {
                    Some(t) => Some(t.clone()),
                    None => None,
                };
                Some(
                    GeoJsonFeature {
                        type_field: FEATURE.to_owned(),
                        geometry,
                        properties: GeoJsonProperties {
                            title,
                            uri: gazette.uri.clone(),
                            img_uri: image_address(base_uri, &gazette.img_uri),
                            start: date_text(&gazette.start),
                            end: date_text(&gazette.end),
                        },
                    },
                )
            },
        },
    }
}

} // verus!
