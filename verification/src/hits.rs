//! What a ray finds where it meets a surface, and the one question that
//! every surface answers.
use crate::interval::{Interval, IntervalModel};
use crate::material::{MaterialKind, MaterialModel};
use crate::ray::{Ray, RayModel};
use crate::scalar::Scalar;
use crate::vec3::{Vec3, V3};
use std::cmp::Ordering;
use vstd::prelude::*;
use vstd::std_specs::cmp::{PartialEqSpecImpl, PartialOrdSpecImpl};

verus! {

/// The model of a hit record.
pub struct HitModel {
    pub hit: V3,
    pub distance: int,
    pub normal: V3,
    pub material: MaterialModel,
}

/// One meeting of a ray with a surface: the point, the ray's distance to it,
/// the surface normal there, and the material of the surface.
#[derive(Clone, Copy, Debug)]
pub struct HitRecord {
    pub hit: Vec3,
    pub distance: Scalar,
    pub normal: Vec3,
    pub material: MaterialKind,
}

impl View for HitRecord {
    type V = HitModel;

    open spec fn view(&self) -> HitModel {
        HitModel {
            hit: self.hit@,
            distance: self.distance@,
            normal: self.normal@,
            material: self.material@,
        }
    }
}

/// Two records are equal where their distances are: equality serves the
/// choice of the nearest hit and is no identity.
impl PartialEq for HitRecord {
    fn eq(&self, other: &Self) -> (r: bool) {
        self.distance.raw() == other.distance.raw()
    }
}

impl PartialEqSpecImpl for HitRecord {
    open spec fn obeys_eq_spec() -> bool {
        true
    }

    open spec fn eq_spec(&self, other: &Self) -> bool {
        self.distance@ == other.distance@
    }
}

/// Records are ordered by their distances.
impl PartialOrd for HitRecord {
    fn partial_cmp(&self, other: &Self) -> (r: Option<Ordering>) {
        if self.distance.lt(other.distance) {
            Some(Ordering::Less)
        } else if self.distance.gt(other.distance) {
            Some(Ordering::Greater)
        } else {
            Some(Ordering::Equal)
        }
    }
}

impl PartialOrdSpecImpl for HitRecord {
    open spec fn obeys_partial_cmp_spec() -> bool {
        true
    }

    open spec fn partial_cmp_spec(&self, other: &Self) -> Option<Ordering> {
        if self.distance@ < other.distance@ {
            Some(Ordering::Less)
        } else if self.distance@ > other.distance@ {
            Some(Ordering::Greater)
        } else {
            Some(Ordering::Equal)
        }
    }
}

/// The model of the answer to a hit query.
pub open spec fn hit_view(r: Option<HitRecord>) -> Option<HitModel> {
    match r {
        Some(record) => Some(record@),
        None => None,
    }
}

/// Anything that a ray can hit.
pub trait Hittable {
    /// Where `ray` meets this surface at a distance within `bounds`, if it
    /// does.
    spec fn hit_spec(&self, ray: RayModel, bounds: IntervalModel) -> Option<HitModel>;

    fn hit(&self, ray: Ray, render_bounds: &Interval) -> (r: Option<HitRecord>)
        ensures
            hit_view(r) == self.hit_spec(ray@, render_bounds@),
    ;
}

} // verus!
