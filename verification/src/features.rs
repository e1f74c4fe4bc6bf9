//! Features that decorate tiles (trees and the like) and their per-terrain variants.
//!
//! A feature has one variant per kind of tile it can grow on; the variant's identifier is that
//! tile kind's identifier. The noise that decides where features grow, and the scenes and
//! thresholds of the variants, are kept by the game beside these records.

use vstd::prelude::*;
use crate::lookup::{first_with, is_first_with, lemma_first_none, position_of, Identified};

verus! {

/// Identifier of a feature.
pub type FeatureID = String;

/// One variant of a feature: the tile kind it grows on (`id`) and its display name.
#[derive(Clone, Debug)]
pub struct FeatureVariant {
    pub id: String,
    pub name: String,
}

impl Identified for FeatureVariant {
    open spec fn key(&self) -> Seq<char> {
        self.id@
    }

    fn id(&self) -> (id: &String) {
        &self.id
    }
}

/// A feature and its variants.
#[derive(Clone, Debug)]
pub struct FeatureAsset {
    pub id: FeatureID,
    pub name: String,
    pub variants: Vec<FeatureVariant>,
}

impl Identified for FeatureAsset {
    open spec fn key(&self) -> Seq<char> {
        self.id@
    }

    fn id(&self) -> (id: &String) {
        &self.id
    }
}

/// The feature placed on a tile, if any.
#[derive(Clone, Debug)]
pub struct TileFeature(pub Option<FeatureID>);

impl FeatureAsset {
    /// Position of the first variant for the tile kind `id`.
    pub fn variant_position(&self, id: &String) -> (pos: Option<usize>)
        ensures
            match pos {
                Some(i) => first_with(self.variants@, id@) == Some(i as int),
                None => first_with(self.variants@, id@) is None,
            },
    {
        position_of(&self.variants, id)
    }

    /// The first variant for the tile kind `id`.
    pub fn get_variant(&self, id: &String) -> (variant: Option<&FeatureVariant>)
        ensures
            match first_with(self.variants@, id@) {
                Some(i) => variant == Some(&self.variants@[i]),
                None => variant is None,
            },
    {
        match position_of(&self.variants, id) {
            Some(i) => Some(&self.variants[i]),
            None => None,
        }
    }
}

/// The features known to the game.
#[derive(Clone, Debug)]
pub struct FeatureAssets {
    pub features: Vec<FeatureAsset>,
}

/// Where the variant for a tile sits: the positions of the feature and of its variant, when the
/// tile carries a known feature that has a variant for the tile's kind.
pub open spec fn variant_site(
    features: Seq<FeatureAsset>,
    feature: Option<FeatureID>,
    tile: Seq<char>,
) -> Option<(int, int)> {
    match feature {
        None => None,
        Some(id) => match first_with(features, id@) {
            None => None,
            Some(f) => match first_with(features[f].variants@, tile) {
                None => None,
                Some(v) => Some((f, v)),
            },
        },
    }
}


/// `f` is the first feature whose identifier is `id`.
pub open spec fn first_feature(features: Seq<FeatureAsset>, id: Seq<char>, f: int) -> bool {
    &&& 0 <= f < features.len()
    &&& features[f].id@ == id
    &&& forall|j: int| 0 <= j < f ==> (#[trigger] features[j]).id@ != id
}

/// `v` is the first variant of `feature` whose tile kind is `tile`.
pub open spec fn first_variant(feature: FeatureAsset, tile: Seq<char>, v: int) -> bool {
    &&& 0 <= v < feature.variants@.len()
    &&& feature.variants@[v].id@ == tile
    &&& forall|k: int| 0 <= k < v ==> (#[trigger] feature.variants@[k]).id@ != tile
}

/// The site found for a tile is the first feature carrying the tile's feature identifier and,
/// within that feature (not any other), the first variant for the tile's kind. No site is found
/// exactly when the tile has no feature, no feature has its identifier, or the first feature
/// with that identifier has no variant for the tile's kind.
pub proof fn law_variant_site(
    features: Seq<FeatureAsset>,
    feature: Option<FeatureID>,
    tile: Seq<char>,
)
    ensures
        forall|f: int, v: int|
            variant_site(features, feature, tile) == Some((f, v)) <==> (feature is Some
                && first_feature(features, feature->0@, f) && first_variant(features[f], tile, v)),
        variant_site(features, feature, tile) is None <==> (feature is None || (forall|j: int|
            0 <= j < features.len() ==> (#[trigger] features[j]).id@ != feature->0@) || exists|
            f: int,
        |
            first_feature(features, feature->0@, f) && forall|k: int|
                0 <= k < features[f].variants@.len() ==> (#[trigger] features[f].variants@[k]).id@
                    != tile),
{
    if let Some(id) = feature {
        lemma_first_none(features, id@);
        match first_with(features, id@) {
            None => {
                assert forall|f: int| !first_feature(features, id@, f) by {
                    if first_feature(features, id@, f) {
                        assert(features[f].key() == id@);
                    }
                }
            },
            Some(f) => {
                assert(exists|i: int| is_first_with(features, id@, i));
                assert(is_first_with(features, id@, f));
                assert forall|g: int| first_feature(features, id@, g) implies g == f by {
                    if g < f {
                        assert(features[g].key() != id@);
                    } else if f < g {
                        assert(features[f].id@ != id@);
                    }
                }
                assert(first_feature(features, id@, f)) by {
                    assert forall|j: int| 0 <= j < f implies (#[trigger] features[j]).id@ != id@ by {
                        assert(features[j].key() != id@);
                    }
                }
                let vs = features[f].variants@;
                lemma_first_none(vs, tile);
                match first_with(vs, tile) {
                    None => {
                        assert forall|v: int| !first_variant(features[f], tile, v) by {
                            if first_variant(features[f], tile, v) {
                                assert(vs[v].key() == tile);
                            }
                        }
                        assert forall|k: int|
                            0 <= k < features[f].variants@.len() implies (
                            #[trigger] features[f].variants@[k]).id@ != tile by {
                            assert(vs[k].key() != tile);
                        }
                    },
                    Some(v) => {
                        assert(exists|i: int| is_first_with(vs, tile, i));
                        assert(is_first_with(vs, tile, v));
                        assert(first_variant(features[f], tile, v)) by {
                            assert forall|k: int| 0 <= k < v implies (
                            #[trigger] features[f].variants@[k]).id@ != tile by {
                                assert(vs[k].key() != tile);
                            }
                        }
                        assert forall|w: int| first_variant(features[f], tile, w) implies w == v by {
                            if w < v {
                                assert(vs[w].key() != tile);
                            } else if v < w {
                                assert(vs[v].id@ != tile);
                            }
                        }
                        assert(!(forall|k: int|
                            0 <= k < features[f].variants@.len() ==> (
                            #[trigger] features[f].variants@[k]).id@ != tile));
                    },
                }
            },
        }
    }
}

impl FeatureAssets {
    pub fn new(features: Vec<FeatureAsset>) -> (assets: FeatureAssets)
        ensures
            assets.features == features,
    {
        FeatureAssets { features }
    }

    /// The first feature whose identifier is `id`.
    pub fn get_feature(&self, id: &FeatureID) -> (feature: Option<&FeatureAsset>)
        ensures
            match first_with(self.features@, id@) {
                Some(i) => feature == Some(&self.features@[i]),
                None => feature is None,
            },
    {
        match position_of(&self.features, id) {
            Some(i) => Some(&self.features[i]),
            None => None,
        }
    }

    /// The variant to show on a tile of kind `tile` that carries `feature`: the feature is
    /// looked up by identifier, then its variant for the tile kind.
    pub fn feature_variant(&self, feature: &TileFeature, tile: &String) -> (site: Option<
        (usize, usize),
    >)
        ensures
            match variant_site(self.features@, feature.0, tile@) {
                Some((f, v)) => site == Some((f as usize, v as usize)),
                None => site is None,
            },
            site matches Some((f, v)) ==> f < self.features@.len() && v
                < self.features@[f as int].variants@.len(),
            site matches Some((f, v)) ==> feature.0 is Some && first_feature(
                self.features@,
                feature.0->0@,
                f as int,
            ) && first_variant(self.features@[f as int], tile@, v as int),
    {
        proof {
            law_variant_site(self.features@, feature.0, tile@);
        }
        match &feature.0 {
            None => None,
            Some(id) => match position_of(&self.features, id) {
                None => None,
                Some(f) => match self.features[f].variant_position(tile) {
                    None => None,
                    Some(v) => Some((f, v)),
                },
            },
        }
    }
}

} // verus!
