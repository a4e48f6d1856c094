//! Objects of a scene: a shape with a place in the world and a material.

use vstd::prelude::*;
use crate::cone::Cone;
use crate::cube::Cube;
use crate::cylinder::Cylinder;
use crate::intersection::{Intersection, IntersectionView, views};
use crate::material::Material;
use crate::matrix::{
    apply_view, identity_view, lemma_identity_applies, near_view, row_of, transpose_view, Matrix4,
};
use crate::plane::Plane;
use crate::ray::{Ray, RayView};
use crate::scalar::{lemma_near_is_symmetric, near_raw, Scalar, SCALE};
use crate::shape::Shape;
use crate::sphere::Sphere;
use crate::transform::lemma_inverse_of_identity;
use crate::tuple::{lemma_direction_is_unit, Tuple, TupleView};

verus! {

/// A shape in the world.
#[derive(Clone, Copy, Debug)]
pub enum Object {
    Sphere(Sphere),
    Plane(Plane),
    Cube(Cube),
    Cylinder(Cylinder),
    Cone(Cone),
}

impl Object {
    /// Whether the stored inverse is the inverse of the transform.
    pub open spec fn wf(&self) -> bool {
        match self {
            Object::Sphere(sphere) => sphere.wf(),
            Object::Plane(plane) => plane.wf(),
            Object::Cube(cube) => cube.wf(),
            Object::Cylinder(cylinder) => cylinder.wf(),
            Object::Cone(cone) => cone.wf(),
        }
    }

    /// The transform from the shape's space into the world.
    pub open spec fn transform_spec(&self) -> Matrix4 {
        match self {
            Object::Sphere(sphere) => sphere.transform,
            Object::Plane(plane) => plane.transform,
            Object::Cube(cube) => cube.transform,
            Object::Cylinder(cylinder) => cylinder.transform,
            Object::Cone(cone) => cone.transform,
        }
    }

    /// The transform from the world into the shape's space, as stored.
    pub open spec fn inverse_transform_spec(&self) -> Matrix4 {
        match self {
            Object::Sphere(sphere) => sphere.inverse_transform,
            Object::Plane(plane) => plane.inverse_transform,
            Object::Cube(cube) => cube.inverse_transform,
            Object::Cylinder(cylinder) => cylinder.inverse_transform,
            Object::Cone(cone) => cone.inverse_transform,
        }
    }

    /// The material of the shape.
    pub open spec fn material_spec(&self) -> Material {
        match self {
            Object::Sphere(sphere) => sphere.material,
            Object::Plane(plane) => plane.material,
            Object::Cube(cube) => cube.material,
            Object::Cylinder(cylinder) => cylinder.material,
            Object::Cone(cone) => cone.material,
        }
    }

    /// The hits of the shape with a ray given in the shape's own space.
    pub open spec fn local_hits(&self, local_ray: RayView) -> Seq<int> {
        match self {
            Object::Sphere(sphere) => sphere.hits(local_ray),
            Object::Plane(plane) => plane.hits(local_ray),
            Object::Cube(cube) => cube.hits(local_ray),
            Object::Cylinder(cylinder) => cylinder.hits(local_ray),
            Object::Cone(cone) => cone.hits(local_ray),
        }
    }

    /// The normal of the shape at a point given in the shape's own space.
    pub open spec fn local_normal(&self, local_point: TupleView) -> TupleView {
        match self {
            Object::Sphere(sphere) => sphere.normal(local_point),
            Object::Plane(plane) => plane.normal(local_point),
            Object::Cube(cube) => cube.normal(local_point),
            Object::Cylinder(cylinder) => cylinder.normal(local_point),
            Object::Cone(cone) => cone.normal(local_point),
        }
    }

    /// The hits of a world ray: those of the shape with the ray taken into
    /// the shape's space, each together with this object.
    pub open spec fn intersections(&self, world_ray: RayView) -> Seq<IntersectionView> {
        self.local_hits(world_ray.transformed(self.inverse_transform_spec()@)).map_values(
            |t: int| IntersectionView { t: t, object: *self },
        )
    }

    /// The normal at a world point before it is brought to length one: the
    /// normal of the shape at the point taken into the shape's space, mapped
    /// back by the transpose of the inverse transform, with `w` cleared.
    pub open spec fn world_normal(&self, world_point: TupleView) -> TupleView {
        let inverse = self.inverse_transform_spec()@;
        let local_normal = self.local_normal(apply_view(inverse, world_point));
        let world_normal = apply_view(transpose_view(inverse), local_normal);
        TupleView { x: world_normal.x, y: world_normal.y, z: world_normal.z, w: 0 }
    }

    /// The unit normal at a world point: the direction of the world normal.
    pub open spec fn normal_spec(&self, world_point: TupleView) -> TupleView {
        self.world_normal(world_point).direction()
    }

    /// Two objects count as the same where their transforms are equal up to
    /// the tolerance, whatever their shapes and materials are.
    pub open spec fn same_as(&self, other: &Object) -> bool {
        near_view(self.transform_spec()@, other.transform_spec()@)
    }

    /// The intersections of a world ray with the object.
    pub fn intersect<'scene>(&'scene self, world_ray: &Ray) -> (xs: Vec<Intersection<'scene>>)
        ensures
            views(xs@) == self.intersections(world_ray@),
    {
        let local_ray = world_ray.transform(self.get_inverse_transform());
        let ts = match self {
            Object::Sphere(sphere) => sphere.intersect(&local_ray),
            Object::Plane(plane) => plane.intersect(&local_ray),
            Object::Cube(cube) => cube.intersect(&local_ray),
            Object::Cylinder(cylinder) => cylinder.intersect(&local_ray),
            Object::Cone(cone) => cone.intersect(&local_ray),
        };
        let mut xs: Vec<Intersection<'scene>> = Vec::new();
        let mut i: usize = 0;
        while i < ts.len()
            invariant
                i <= ts.len(),
                xs.len() == i,
                forall|k: int| 0 <= k < i ==> (#[trigger] xs[k])@ == (IntersectionView {
                    t: ts[k]@,
                    object: *self,
                }),
            decreases ts.len() - i,
        {
            xs.push(Intersection::new(ts[i], self));
            i += 1;
        }
        assert(views(xs@) =~= self.intersections(world_ray@));
        xs
    }

    /// The normal at a world point on the surface of the object: a vector, of
    /// length one unless the normal of the shape there has no length at all.
    pub fn normal_at(&self, world_point: Tuple) -> (n: Tuple)
        ensures
            n@ == self.normal_spec(world_point@),
            n@.w == 0,
            self.world_normal(world_point@) != (TupleView { x: 0, y: 0, z: 0, w: 0 }) ==> near_raw(
                n@.magnitude(),
                SCALE as int,
            ),
    {
        let local_point = self.get_inverse_transform().multiply_tuple(world_point);
        let local_normal = match self {
            Object::Sphere(sphere) => sphere.normal_at(local_point),
            Object::Plane(plane) => plane.normal_at(local_point),
            Object::Cube(cube) => cube.normal_at(local_point),
            Object::Cylinder(cylinder) => cylinder.normal_at(local_point),
            Object::Cone(cone) => cone.normal_at(local_point),
        };
        let mut world_normal = self.get_inverse_transform().transpose().multiply_tuple(
            local_normal,
        );
        world_normal.w = Scalar::zero();
        world_normal.direction()
    }

    /// The transform from the world into the shape's space.
    pub fn get_inverse_transform(&self) -> (m: Matrix4)
        ensures
            m == self.inverse_transform_spec(),
    {
        match self {
            Object::Sphere(sphere) => sphere.inverse_transform,
            Object::Plane(plane) => plane.inverse_transform,
            Object::Cube(cube) => cube.inverse_transform,
            Object::Cylinder(cylinder) => cylinder.inverse_transform,
            Object::Cone(cone) => cone.inverse_transform,
        }
    }

    /// The material of the shape.
    pub fn get_material(&self) -> (m: &Material)
        ensures
            *m == self.material_spec(),
    {
        match self {
            Object::Sphere(sphere) => &sphere.material,
            Object::Plane(plane) => &plane.material,
            Object::Cube(cube) => &cube.material,
            Object::Cylinder(cylinder) => &cylinder.material,
            Object::Cone(cone) => &cone.material,
        }
    }

    /// The transform from the shape's space into the world.
    pub fn get_transform(&self) -> (m: Matrix4)
        ensures
            m == self.transform_spec(),
    {
        match self {
            Object::Sphere(sphere) => sphere.transform,
            Object::Plane(plane) => plane.transform,
            Object::Cube(cube) => cube.transform,
            Object::Cylinder(cylinder) => cylinder.transform,
            Object::Cone(cone) => cone.transform,
        }
    }

    /// Whether the two objects count as the same.
    pub fn is_equal(&self, other: &Object) -> (r: bool)
        ensures
            r == self.same_as(other),
    {
        self.get_transform().is_equal(other.get_transform())
    }
}

/// The normal of an object is a vector, and has the length one, up to the
/// tolerance, unless the normal of the shape has no length at all.
pub proof fn lemma_normal_is_unit(object: Object, world_point: TupleView)
    ensures
        object.normal_spec(world_point).w == 0,
        object.world_normal(world_point) != (TupleView { x: 0, y: 0, z: 0, w: 0 }) ==> near_raw(
            object.normal_spec(world_point).magnitude(),
            SCALE as int,
        ),
{
    lemma_direction_is_unit(object.world_normal(world_point));
}

/// Every object counts as the same as itself, and whether two objects count
/// as the same does not depend on their order. Shape and material take no
/// part: only the transforms are compared.
pub proof fn lemma_same_as_is_symmetric(a: Object, b: Object)
    ensures
        a.same_as(&a),
        a.same_as(&b) == b.same_as(&a),
        a.same_as(&b) == near_view(a.transform_spec()@, b.transform_spec()@),
{
    let ta = a.transform_spec()@;
    let tb = b.transform_spec()@;
    assert forall|r: int| 0 <= r < 4 implies (#[trigger] row_of(ta, r)).near(row_of(ta, r)) && (
    row_of(ta, r).near(row_of(tb, r)) == (#[trigger] row_of(tb, r)).near(row_of(ta, r))) by {
        lemma_near_is_symmetric(row_of(ta, r).x, row_of(tb, r).x);
        lemma_near_is_symmetric(row_of(ta, r).y, row_of(tb, r).y);
        lemma_near_is_symmetric(row_of(ta, r).z, row_of(tb, r).z);
        lemma_near_is_symmetric(row_of(ta, r).w, row_of(tb, r).w);
    }
}

/// An object that stands where its shape stands, with the identity for its
/// transform, is met by a world ray where its shape is met by the same ray.
pub proof fn lemma_untransformed_object(object: Object, ray: RayView)
    requires
        object.wf(),
        object.transform_spec()@ == identity_view(),
        ray.origin.within_limit(),
        ray.direction.within_limit(),
    ensures
        object.inverse_transform_spec()@ == identity_view(),
        ray.transformed(object.inverse_transform_spec()@) == ray,
        object.intersections(ray) == object.local_hits(ray).map_values(
            |t: int| IntersectionView { t: t, object: object },
        ),
{
    lemma_inverse_of_identity();
    lemma_identity_applies(ray.origin);
    lemma_identity_applies(ray.direction);
}

} // verus!
