//! Features of bodies and how filters match them.

use vstd::prelude::*;

verus! {

/// An economic role attached to a body.
#[derive(Clone, Copy, Debug, PartialEq, Eq, Structural)]
pub enum PlanetFeature {
    /// A station, with the number of ore units it holds.
    Station { stock: usize },
    /// A harvestable ore source.
    Ore,
}

impl PlanetFeature {
    /// Whether two features carry the same tag, whatever their payload.
    pub open spec fn same_kind(self, other: PlanetFeature) -> bool {
        (self is Station) == (other is Station)
    }

    /// Compares two features by tag only.
    pub fn is_same_kind(&self, other: &PlanetFeature) -> (r: bool)
        ensures
            r == self.same_kind(*other),
    {
        match (self, other) {
            (PlanetFeature::Station { .. }, PlanetFeature::Station { .. }) => true,
            (PlanetFeature::Ore, PlanetFeature::Ore) => true,
            _ => false,
        }
    }
}

/// Whether a body's feature passes a filter: a filter that names a feature
/// passes every feature of that kind, the empty filter passes featureless
/// bodies only.
pub open spec fn passes(feat: Option<PlanetFeature>, filter: Option<PlanetFeature>) -> bool {
    match (filter, feat) {
        (Some(wanted), Some(found)) => wanted.same_kind(found),
        (None, None) => true,
        _ => false,
    }
}

/// Decides `passes`.
pub fn feature_passes(feat: &Option<PlanetFeature>, filter: &Option<PlanetFeature>) -> (r: bool)
    ensures
        r == passes(*feat, *filter),
{
    match (filter, feat) {
        (Some(wanted), Some(found)) => wanted.is_same_kind(found),
        (None, None) => true,
        _ => false,
    }
}

} // verus!
