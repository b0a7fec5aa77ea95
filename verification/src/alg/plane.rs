//! Planes that bound the space in which bodies move.

use super::scalar::Scalar;
use super::vec3::Vec3;
use vstd::prelude::*;

verus! {

/// An infinite plane. The points `p` with `dot(normal, p) + offset > 0` form
/// its free side; `normal` is meant to have length one.
#[derive(Clone, Copy, Debug, PartialEq, Eq, Structural)]
pub struct Plane {
    pub normal: Vec3,
    pub offset: Scalar,
}

impl Plane {
    /// The plane with the given normal and offset.
    pub open spec fn spec_new(normal: Vec3, offset: Scalar) -> Plane {
        Plane { normal, offset }
    }

    /// The plane with the given normal and offset.
    #[verifier::when_used_as_spec(spec_new)]
    pub fn new(normal: Vec3, offset: Scalar) -> (r: Plane)
        ensures
            r == Plane::spec_new(normal, offset),
    {
        Plane { normal, offset }
    }

    /// The signed distance of `p` from the plane, positive on the free side.
    pub open spec fn spec_distance(self, p: Vec3) -> Scalar {
        self.normal.dot(p).add(self.offset)
    }

    /// The signed distance of `p` from the plane, positive on the free side.
    #[verifier::when_used_as_spec(spec_distance)]
    pub fn distance(self, p: Vec3) -> (r: Scalar)
        ensures
            r == self.spec_distance(p),
    {
        self.normal.dot(p).add(self.offset)
    }

    /// Where the plane puts `p`: a point on or behind the plane is mirrored to
    /// the free side, moving twice its distance along the normal; a point on
    /// the free side stays.
    pub open spec fn spec_reflect(self, p: Vec3) -> Vec3 {
        let distance = self.distance(p);
        if distance.is_positive() {
            p
        } else {
            p.sub(self.normal.scale(Scalar::from_int(2)).scale(distance))
        }
    }

    /// Where the plane puts `p`: a point on or behind the plane is mirrored to
    /// the free side, moving twice its distance along the normal; a point on
    /// the free side stays.
    #[verifier::when_used_as_spec(spec_reflect)]
    pub fn reflect(self, p: Vec3) -> (r: Vec3)
        ensures
            r == self.spec_reflect(p),
    {
        let distance = self.distance(p);
        if distance.is_positive() {
            p
        } else {
            p.sub(self.normal.scale(Scalar::from_int(2)).scale(distance))
        }
    }
}

} // verus!
