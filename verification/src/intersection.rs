//! Intersections of a ray with objects, the nearest hit in front of the
//! ray's origin, and what shading needs to know about a hit.

use vstd::prelude::*;
use crate::object::Object;
use crate::ray::{Ray, RayView};
use crate::scalar::{Scalar, EPSILON_RAW, SCALE};
use crate::tuple::{Tuple, TupleView};

verus! {

/// A place where a ray meets an object: the parameter of the ray there, and
/// the object.
#[derive(Clone, Copy, Debug)]
pub struct Intersection<'scene> {
    pub t: Scalar,
    pub object: &'scene Object,
}

/// An intersection as a raw ray parameter and the object that was met.
pub struct IntersectionView {
    pub t: int,
    pub object: Object,
}

impl<'scene> View for Intersection<'scene> {
    type V = IntersectionView;

    open spec fn view(&self) -> IntersectionView {
        IntersectionView { t: self.t@, object: *self.object }
    }
}

/// The views of a sequence of intersections.
pub open spec fn views(s: Seq<Intersection>) -> Seq<IntersectionView> {
    s.map_values(|x: Intersection| x@)
}

/// Where an intersection with parameter `t` goes into an ascending sequence:
/// behind every intersection whose parameter is not above `t`.
pub open spec fn insertion_point(s: Seq<IntersectionView>, t: int) -> int
    decreases s.len(),
{
    if s.len() == 0 {
        0
    } else if s.last().t <= t {
        s.len() as int
    } else {
        insertion_point(s.drop_last(), t)
    }
}

/// The sequence in ascending order of the parameter. Intersections with equal
/// parameters keep the order in which they stand in `s`.
pub open spec fn sorted(s: Seq<IntersectionView>) -> Seq<IntersectionView>
    decreases s.len(),
{
    if s.len() == 0 {
        s
    } else {
        let front = sorted(s.drop_last());
        front.insert(insertion_point(front, s.last().t), s.last())
    }
}

/// Whether the parameters never fall from one intersection to the next.
pub open spec fn ascending(s: Seq<IntersectionView>) -> bool {
    forall|i: int, j: int| 0 <= i < j < s.len() ==> s[i].t <= s[j].t
}

/// The intersections with parameter `t`, in the order in which they stand in
/// `s`.
pub open spec fn with_parameter(s: Seq<IntersectionView>, t: int) -> Seq<IntersectionView>
    decreases s.len(),
{
    if s.len() == 0 {
        s
    } else if s.last().t == t {
        with_parameter(s.drop_last(), t).push(s.last())
    } else {
        with_parameter(s.drop_last(), t)
    }
}

/// The first intersection whose parameter is not negative.
pub open spec fn first_forward(s: Seq<IntersectionView>) -> Option<IntersectionView>
    decreases s.len(),
{
    if s.len() == 0 {
        None
    } else if s[0].t >= 0 {
        Some(s[0])
    } else {
        first_forward(s.drop_first())
    }
}

/// The hit among intersections in any order: the first one in ascending
/// order whose parameter is not negative.
pub open spec fn hit_spec(s: Seq<IntersectionView>) -> Option<IntersectionView> {
    first_forward(sorted(s))
}

/// The index of the first container that holds an object that counts as the
/// same as `object`, or the number of containers if there is none.
pub open spec fn position_of(containers: Seq<IntersectionView>, object: Object) -> int
    decreases containers.len(),
{
    if containers.len() == 0 {
        0
    } else if containers[0].object.same_as(&object) {
        0
    } else {
        1 + position_of(containers.drop_first(), object)
    }
}

/// The objects that a ray is inside of after it has passed intersection `x`:
/// the ray leaves the object of `x` if it was inside, else it enters.
pub open spec fn crossed(containers: Seq<IntersectionView>, x: IntersectionView) -> Seq<
    IntersectionView,
> {
    let p = position_of(containers, x.object);
    if p < containers.len() {
        containers.remove(p)
    } else {
        containers.push(x)
    }
}

/// The refractive index of the object entered last, or that of empty space,
/// one, where the ray is inside no object.
pub open spec fn innermost_index(containers: Seq<IntersectionView>) -> int {
    if containers.len() == 0 {
        SCALE as int
    } else {
        containers.last().object.material_spec().refractive@
    }
}

/// Whether an intersection is the hit `hit`: it has the parameter of the hit,
/// and its object counts as the same as that of the hit.
pub open spec fn is_hit(x: IntersectionView, hit: IntersectionView) -> bool {
    x.t == hit.t && x.object.same_as(&hit.object)
}

/// The refractive indices on the two sides of `hit`, the first intersection
/// in `rest` that is the hit, for a ray that is inside `containers` where
/// `rest` begins; one and one if the hit is not in `rest`.
pub open spec fn refraction_walk(
    rest: Seq<IntersectionView>,
    hit: IntersectionView,
    containers: Seq<IntersectionView>,
) -> (int, int)
    decreases rest.len(),
{
    if rest.len() == 0 {
        (SCALE as int, SCALE as int)
    } else if is_hit(rest[0], hit) {
        (innermost_index(containers), innermost_index(crossed(containers, rest[0])))
    } else {
        refraction_walk(rest.drop_first(), hit, crossed(containers, rest[0]))
    }
}

/// The objects that a ray is inside of after the first `k` intersections of
/// `all`.
pub open spec fn inside_after(all: Seq<IntersectionView>, k: int) -> Seq<IntersectionView>
    decreases k,
{
    if k <= 0 {
        Seq::empty()
    } else {
        crossed(inside_after(all, k - 1), all[k - 1])
    }
}

/// What shading needs to know about a hit.
pub struct Computations<'scene> {
    pub t: Scalar,
    pub point: Tuple,
    pub eye: Tuple,
    pub normal: Tuple,
    pub reflected: Tuple,
    pub is_inside: bool,
    pub object: &'scene Object,
    pub over_point: Tuple,
    pub under_point: Tuple,
    pub n1: Scalar,
    pub n2: Scalar,
}

/// The state of a hit in raw values.
pub struct ComputationsView {
    pub t: int,
    pub point: TupleView,
    pub eye: TupleView,
    pub normal: TupleView,
    pub reflected: TupleView,
    pub is_inside: bool,
    pub object: Object,
    pub over_point: TupleView,
    pub under_point: TupleView,
    pub n1: int,
    pub n2: int,
}

impl<'scene> View for Computations<'scene> {
    type V = ComputationsView;

    open spec fn view(&self) -> ComputationsView {
        ComputationsView {
            t: self.t@,
            point: self.point@,
            eye: self.eye@,
            normal: self.normal@,
            reflected: self.reflected@,
            is_inside: self.is_inside,
            object: *self.object,
            over_point: self.over_point@,
            under_point: self.under_point@,
            n1: self.n1@,
            n2: self.n2@,
        }
    }
}

impl IntersectionView {
    /// The refractive indices of the media that the ray leaves and enters at
    /// this intersection, found by walking `all` from its start.
    pub open spec fn refractive_indices(self, all: Seq<IntersectionView>) -> (int, int) {
        refraction_walk(all, self, Seq::empty())
    }

    /// The state of a hit of `ray`. The normal is that of the object at the
    /// point, turned to face the eye: it is flipped, and the hit counts as
    /// inside, where it points away from the eye. The over point lies a
    /// tolerance above the surface, the under point as far below it.
    pub open spec fn prepared(self, ray: RayView, all: Seq<IntersectionView>) -> ComputationsView {
        let point = ray.position_at(self.t);
        let eye = ray.direction.negated();
        let outward = self.object.normal_spec(point);
        let is_inside = outward.dot(eye) < 0;
        let normal = if is_inside {
            outward.negated()
        } else {
            outward
        };
        ComputationsView {
            t: self.t,
            point: point,
            eye: eye,
            normal: normal,
            reflected: ray.direction.reflected(normal),
            is_inside: is_inside,
            object: self.object,
            over_point: point.plus(normal.scaled(EPSILON_RAW as int)),
            under_point: point.minus(normal.scaled(EPSILON_RAW as int)),
            n1: self.refractive_indices(all).0,
            n2: self.refractive_indices(all).1,
        }
    }
}

impl<'scene> Intersection<'scene> {
    /// The intersection with `object` at parameter `t`.
    pub fn new(t: Scalar, object: &'scene Object) -> (r: Intersection<'scene>)
        ensures
            r@ == (IntersectionView { t: t@, object: *object }),
            r.t == t,
            r.object == object,
    {
        Intersection { t, object }
    }

    /// The state of this hit of `ray`, with the refractive indices found by
    /// walking all intersections of the ray in ascending order.
    pub fn prepare_computations(&self, ray: &Ray, all_intersections: Vec<Intersection>) -> (c:
        Computations<'scene>)
        ensures
            c@ == self@.prepared(ray@, views(all_intersections@)),
            c.object == self.object,
    {
        let point = ray.position_at(self.t);
        let eye = ray.direction.negate();
        let mut normal = self.object.normal_at(point);

        let is_inside: bool;
        if normal.dot(eye).lt(Scalar::zero()) {
            is_inside = true;
            normal = normal.negate();
        } else {
            is_inside = false;
        }

        let over_point = point.add(normal.multiply(Scalar::epsilon()));
        let under_point = point.subtract(normal.multiply(Scalar::epsilon()));
        let reflected = ray.direction.reflect(normal);

        let (n1, n2) = self.refractive_indices_for(all_intersections);

        Computations {
            t: self.t,
            point,
            eye,
            normal,
            reflected,
            is_inside,
            object: self.object,
            over_point,
            under_point,
            n1,
            n2,
        }
    }

    /// The refractive indices of the media that a ray leaves and enters at
    /// this intersection. The intersections of the ray are walked in the
    /// order given, up to the first one that is this one: that has its
    /// parameter and an object that counts as the same as its object.
    pub fn refractive_indices_for(&self, all_intersections: Vec<Intersection>) -> (n: (
        Scalar,
        Scalar,
    ))
        ensures
            (n.0@, n.1@) == self@.refractive_indices(views(all_intersections@)),
    {
        let mut n1 = Scalar::one();
        let mut n2 = Scalar::one();
        let mut containers: Vec<Intersection> = Vec::new();
        let ghost all = views(all_intersections@);
        let mut i: usize = 0;
        let mut found = false;
        assert(all.skip(0) =~= all);
        assert(views(containers@) =~= Seq::<IntersectionView>::empty());
        while i < all_intersections.len() && !found
            invariant
                i <= all_intersections.len(),
                all == views(all_intersections@),
                !found ==> refraction_walk(all, self@, Seq::empty()) == refraction_walk(
                    all.skip(i as int),
                    self@,
                    views(containers@),
                ),
                !found ==> n1@ == SCALE && n2@ == SCALE,
                found ==> (n1@, n2@) == refraction_walk(all, self@, Seq::empty()),
            decreases all_intersections.len() - i,
        {
            let intersection = all_intersections[i];
            let is_hit = intersection.t.equals(self.t) && intersection.object.is_equal(
                self.object,
            );
            proof {
                assert(all.skip(i as int)[0] == intersection@);
                assert(all.skip(i as int).drop_first() =~= all.skip(i + 1));
            }
            if is_hit {
                n1 = innermost(&containers);
            }
            toggle(&mut containers, intersection);
            if is_hit {
                n2 = innermost(&containers);
                found = true;
            }
            i += 1;
        }
        (n1, n2)
    }
}

/// The refractive index of the object entered last.
fn innermost(containers: &Vec<Intersection>) -> (n: Scalar)
    ensures
        n@ == innermost_index(views(containers@)),
{
    if containers.len() == 0 {
        Scalar::one()
    } else {
        containers[containers.len() - 1].object.get_material().refractive
    }
}

/// Takes the object of `x` out of the containers if it is among them, and
/// adds `x` at the end if it is not.
fn toggle<'a>(containers: &mut Vec<Intersection<'a>>, x: Intersection<'a>)
    ensures
        views(final(containers)@) == crossed(views(old(containers)@), x@),
{
    let mut p: usize = 0;
    assert(views(containers@).skip(0) =~= views(containers@));
    while p < containers.len() && !containers[p].object.is_equal(x.object)
        invariant
            p <= containers.len(),
            position_of(views(containers@), x@.object) == p + position_of(
                views(containers@).skip(p as int),
                x@.object,
            ),
        decreases containers.len() - p,
    {
        proof {
            let rest = views(containers@).skip(p as int);
            assert(rest[0] == containers[p as int]@);
            assert(rest.drop_first() =~= views(containers@).skip(p + 1));
        }
        p += 1;
    }
    proof {
        let rest = views(containers@).skip(p as int);
        if p < containers.len() {
            assert(rest[0] == containers[p as int]@);
        }
    }
    if p < containers.len() {
        let ghost before = views(containers@);
        containers.remove(p);
        assert(views(containers@) =~= before.remove(p as int));
    } else {
        let ghost before = views(containers@);
        containers.push(x);
        assert(views(containers@) =~= before.push(x@));
    }
}

/// Sorts the intersections by their parameter, ascending. Intersections with
/// equal parameters keep their order.
pub fn sort_by_t(intersections: &mut Vec<Intersection>)
    ensures
        views(final(intersections)@) == sorted(views(old(intersections)@)),
{
    let mut out: Vec<Intersection> = Vec::new();
    let mut i: usize = 0;
    while i < intersections.len()
        invariant
            i <= intersections.len(),
            views(out@) == sorted(views(intersections@).take(i as int)),
        decreases intersections.len() - i,
    {
        let x = intersections[i];
        let mut p: usize = out.len();
        assert(views(out@).take(p as int) =~= views(out@));
        while p > 0 && out[p - 1].t.gt(x.t)
            invariant
                p <= out.len(),
                insertion_point(views(out@), x.t@) == insertion_point(
                    views(out@).take(p as int),
                    x.t@,
                ),
            decreases p,
        {
            proof {
                let head = views(out@).take(p as int);
                assert(head.last() == out[p - 1]@);
                assert(head.drop_last() =~= views(out@).take(p - 1));
            }
            p -= 1;
        }
        proof {
            let head = views(out@).take(p as int);
            if p > 0 {
                assert(head.last() == out[p - 1]@);
            }
            let upto = views(intersections@).take(i + 1);
            assert(upto.last() == x@);
            assert(upto.drop_last() =~= views(intersections@).take(i as int));
        }
        let ghost before = views(out@);
        out.insert(p, x);
        assert(views(out@) =~= before.insert(p as int, x@));
        i += 1;
    }
    assert(views(intersections@).take(i as int) =~= views(intersections@));
    *intersections = out;
}

/// The nearest intersection in front of the ray's origin: sorts the
/// intersections and returns the first whose parameter is not negative.
pub fn hit<'a>(intersections: &'a mut Vec<Intersection>) -> (r: Option<&'a Intersection<'a>>)
    ensures
        views(final(intersections)@) == sorted(views(old(intersections)@)),
        match r {
            Some(h) => hit_spec(views(old(intersections)@)) == Some(h@),
            None => hit_spec(views(old(intersections)@)) is None,
        },
{
    sort_by_t(intersections);
    let ghost all = views(intersections@);
    let mut i: usize = 0;
    assert(all.skip(0) =~= all);
    while i < intersections.len() && intersections[i].t.lt(Scalar::zero())
        invariant
            i <= intersections.len(),
            all == views(intersections@),
            first_forward(all) == first_forward(all.skip(i as int)),
        decreases intersections.len() - i,
    {
        proof {
            assert(all.skip(i as int)[0] == intersections[i as int]@);
            assert(all.skip(i as int).drop_first() =~= all.skip(i + 1));
        }
        i += 1;
    }
    if i < intersections.len() {
        proof {
            assert(all.skip(i as int)[0] == intersections[i as int]@);
        }
        Some(&intersections[i])
    } else {
        None
    }
}

/// Where an intersection goes into an ascending sequence, every intersection
/// before that place has a parameter that is not above its own, and every
/// one from that place on has a greater parameter.
pub proof fn lemma_insertion_point_splits(s: Seq<IntersectionView>, t: int)
    requires
        ascending(s),
    ensures
        0 <= insertion_point(s, t) <= s.len(),
        forall|i: int| 0 <= i < insertion_point(s, t) ==> (#[trigger] s[i]).t <= t,
        forall|i: int| insertion_point(s, t) <= i < s.len() ==> (#[trigger] s[i]).t > t,
    decreases s.len(),
{
    if s.len() > 0 && s.last().t > t {
        let front = s.drop_last();
        assert(ascending(front));
        lemma_insertion_point_splits(front, t);
        assert forall|i: int| insertion_point(s, t) <= i < s.len() implies (#[trigger] s[i]).t
            > t by {
            if i < front.len() {
                assert(front[i].t > t);
            }
        }
        assert forall|i: int| 0 <= i < insertion_point(s, t) implies (#[trigger] s[i]).t <= t by {
            assert(front[i].t <= t);
        }
    }
}

/// Sorting keeps the number of intersections and brings their parameters
/// into ascending order.
pub proof fn lemma_sorted_is_ascending(s: Seq<IntersectionView>)
    ensures
        sorted(s).len() == s.len(),
        ascending(sorted(s)),
    decreases s.len(),
{
    if s.len() > 0 {
        let front = sorted(s.drop_last());
        let x = s.last();
        lemma_sorted_is_ascending(s.drop_last());
        lemma_insertion_point_splits(front, x.t);
        let k = insertion_point(front, x.t);
        let all = front.insert(k, x);
        assert forall|i: int, j: int| 0 <= i < j < all.len() implies all[i].t <= all[j].t by {
            if j < k {
                assert(all[i] == front[i] && all[j] == front[j]);
            } else if j == k {
                assert(all[i] == front[i]);
            } else if i < k {
                assert(all[i] == front[i] && all[j] == front[j - 1]);
            } else if i == k {
                assert(all[j] == front[j - 1]);
            } else {
                assert(all[i] == front[i - 1] && all[j] == front[j - 1]);
            }
        }
    }
}

/// Sorting neither adds nor drops an intersection: every intersection occurs
/// as often after it as before.
pub proof fn lemma_sorted_is_permutation(s: Seq<IntersectionView>)
    ensures
        sorted(s).to_multiset() == s.to_multiset(),
    decreases s.len(),
{
    if s.len() > 0 {
        let front = sorted(s.drop_last());
        let x = s.last();
        lemma_sorted_is_permutation(s.drop_last());
        lemma_sorted_is_ascending(s.drop_last());
        lemma_insertion_point_splits(front, x.t);
        vstd::seq_lib::to_multiset_insert(front, insertion_point(front, x.t), x);
        vstd::seq_lib::to_multiset_build(s.drop_last(), x);
        assert(s.drop_last().push(x) =~= s);
    }
}

/// An intersection that goes into a sequence at its insertion point comes
/// behind all intersections with its parameter, and leaves those with any
/// other parameter as they are.
proof fn lemma_insertion_keeps_order(p: Seq<IntersectionView>, x: IntersectionView, t: int)
    ensures
        with_parameter(p.insert(insertion_point(p, x.t), x), t) == if x.t == t {
            with_parameter(p, t).push(x)
        } else {
            with_parameter(p, t)
        },
    decreases p.len(),
{
    let k = insertion_point(p, x.t);
    let all = p.insert(k, x);
    if p.len() == 0 || p.last().t <= x.t {
        assert(all =~= p.push(x));
        assert(all.drop_last() =~= p);
    } else {
        let front = p.drop_last();
        lemma_insertion_keeps_order(front, x, t);
        lemma_insertion_point_in_range(front, x.t);
        assert(all.last() == p.last());
        assert(all.drop_last() =~= front.insert(k, x));
    }
}

/// An insertion point lies within the sequence or at its end.
proof fn lemma_insertion_point_in_range(s: Seq<IntersectionView>, t: int)
    ensures
        0 <= insertion_point(s, t) <= s.len(),
    decreases s.len(),
{
    if s.len() > 0 && s.last().t > t {
        lemma_insertion_point_in_range(s.drop_last(), t);
    }
}

/// Sorting is stable: for every parameter, the intersections with it stand
/// in the sorted sequence in the order that they have in `s`.
pub proof fn lemma_sorted_is_stable(s: Seq<IntersectionView>, t: int)
    ensures
        with_parameter(sorted(s), t) == with_parameter(s, t),
    decreases s.len(),
{
    if s.len() > 0 {
        lemma_sorted_is_stable(s.drop_last(), t);
        lemma_insertion_keeps_order(sorted(s.drop_last()), s.last(), t);
    }
}

/// An ascending sequence is its own sorted form.
pub proof fn lemma_sorted_of_ascending(s: Seq<IntersectionView>)
    requires
        ascending(s),
    ensures
        sorted(s) == s,
    decreases s.len(),
{
    if s.len() > 0 {
        let front = s.drop_last();
        assert(ascending(front));
        lemma_sorted_of_ascending(front);
        assert(insertion_point(front, s.last().t) == front.len()) by {
            if front.len() > 0 {
                assert(front.last() == s[front.len() - 1]);
            }
        }
        assert(front.insert(front.len() as int, s.last()) =~= s);
    }
}

/// The first intersection with a parameter that is not negative has only
/// intersections with negative parameters before it.
pub proof fn lemma_first_forward(s: Seq<IntersectionView>)
    ensures
        match first_forward(s) {
            Some(h) => exists|k: int|
                0 <= k < s.len() && s[k] == h && h.t >= 0 && forall|j: int|
                    0 <= j < k ==> (#[trigger] s[j]).t < 0,
            None => forall|j: int| 0 <= j < s.len() ==> (#[trigger] s[j]).t < 0,
        },
    decreases s.len(),
{
    if s.len() > 0 {
        if s[0].t >= 0 {
            assert(s[0] == first_forward(s)->0);
        } else {
            let rest = s.drop_first();
            lemma_first_forward(rest);
            match first_forward(rest) {
                Some(h) => {
                    let k = choose|k: int|
                        0 <= k < rest.len() && rest[k] == h && h.t >= 0 && forall|j: int|
                            0 <= j < k ==> (#[trigger] rest[j]).t < 0;
                    assert(s[k + 1] == h);
                    assert forall|j: int| 0 <= j < k + 1 implies (#[trigger] s[j]).t < 0 by {
                        if j > 0 {
                            assert(rest[j - 1].t < 0);
                        }
                    }
                },
                None => {
                    assert forall|j: int| 0 <= j < s.len() implies (#[trigger] s[j]).t < 0 by {
                        if j > 0 {
                            assert(rest[j - 1].t < 0);
                        }
                    }
                },
            }
        }
    }
}

/// The hit is the nearest intersection in front of the origin of the ray: it
/// is one of the intersections, its parameter is not negative, and no
/// intersection has a smaller parameter that is not negative. There is no
/// hit exactly where every parameter is negative.
pub proof fn lemma_hit_is_nearest(s: Seq<IntersectionView>)
    ensures
        match hit_spec(s) {
            Some(h) => s.contains(h) && h.t >= 0 && forall|i: int|
                0 <= i < s.len() && (#[trigger] s[i]).t >= 0 ==> h.t <= s[i].t,
            None => forall|i: int| 0 <= i < s.len() ==> (#[trigger] s[i]).t < 0,
        },
{
    broadcast use vstd::seq_lib::group_to_multiset_ensures;

    let all = sorted(s);
    lemma_sorted_is_ascending(s);
    lemma_sorted_is_permutation(s);
    lemma_first_forward(all);
    assert forall|x: IntersectionView| all.contains(x) <==> s.contains(x) by {
        assert(all.to_multiset().count(x) == s.to_multiset().count(x));
    }
    match hit_spec(s) {
        Some(h) => {
            let k = choose|k: int|
                0 <= k < all.len() && all[k] == h && h.t >= 0 && forall|j: int|
                    0 <= j < k ==> (#[trigger] all[j]).t < 0;
            assert(all.contains(h));
            assert forall|i: int| 0 <= i < s.len() && (#[trigger] s[i]).t >= 0 implies h.t
                <= s[i].t by {
                assert(s.contains(s[i]));
                assert(all.contains(s[i]));
                let j = choose|j: int| 0 <= j < all.len() && all[j] == s[i];
                if j < k {
                    assert(all[j].t < 0);
                }
            }
        },
        None => {
            assert forall|i: int| 0 <= i < s.len() implies (#[trigger] s[i]).t < 0 by {
                assert(s.contains(s[i]));
                assert(all.contains(s[i]));
                let j = choose|j: int| 0 <= j < all.len() && all[j] == s[i];
                assert(all[j].t < 0);
            }
        },
    }
}

/// An intersection with a parameter that is not negative, before which all
/// parameters are negative, is the first one in front of the origin.
proof fn lemma_first_forward_at(s: Seq<IntersectionView>, k: int)
    requires
        0 <= k <= s.len(),
        forall|j: int| 0 <= j < k ==> (#[trigger] s[j]).t < 0,
        k < s.len() ==> s[k].t >= 0,
    ensures
        first_forward(s) == if k < s.len() {
            Some(s[k])
        } else {
            None
        },
    decreases s.len(),
{
    if s.len() > 0 && k > 0 {
        assert(s[0].t < 0);
        let rest = s.drop_first();
        assert forall|j: int| 0 <= j < k - 1 implies (#[trigger] rest[j]).t < 0 by {
            assert(s[j + 1].t < 0);
        }
        lemma_first_forward_at(rest, k - 1);
    }
}

/// How the hit changes with one more intersection at the end: the new
/// intersection becomes the hit if its parameter is not negative and lies
/// below that of the hit so far, or if there was no hit so far.
proof fn lemma_hit_step(s: Seq<IntersectionView>)
    requires
        s.len() > 0,
    ensures
        hit_spec(s) == if s.last().t >= 0 && (hit_spec(s.drop_last()) matches Some(h) ==> s.last().t
            < h.t) {
            Some(s.last())
        } else {
            hit_spec(s.drop_last())
        },
{
    let p = sorted(s.drop_last());
    let x = s.last();
    let k = insertion_point(p, x.t);
    let all = p.insert(k, x);
    lemma_sorted_is_ascending(s.drop_last());
    lemma_insertion_point_splits(p, x.t);
    lemma_first_forward(p);
    match first_forward(p) {
        Some(h) => {
            let m = choose|m: int|
                0 <= m < p.len() && p[m] == h && h.t >= 0 && forall|j: int|
                    0 <= j < m ==> (#[trigger] p[j]).t < 0;
            if x.t >= 0 && x.t < h.t {
                assert(k <= m) by {
                    if m < k {
                        assert(p[m].t <= x.t);
                    }
                }
                assert forall|j: int| 0 <= j < k implies (#[trigger] all[j]).t < 0 by {
                    assert(all[j] == p[j]);
                    assert(p[j].t < 0);
                }
                assert(all[k] == x);
                lemma_first_forward_at(all, k);
            } else if x.t >= 0 {
                assert(m < k) by {
                    if k <= m {
                        assert(p[m].t > x.t);
                    }
                }
                assert forall|j: int| 0 <= j < m implies (#[trigger] all[j]).t < 0 by {
                    assert(all[j] == p[j]);
                    assert(p[j].t < 0);
                }
                assert(all[m] == p[m]);
                lemma_first_forward_at(all, m);
            } else {
                assert(k <= m) by {
                    if m < k {
                        assert(p[m].t <= x.t);
                    }
                }
                assert(all[m + 1] == p[m]);
                assert forall|j: int| 0 <= j < m + 1 implies (#[trigger] all[j]).t < 0 by {
                    if j < k {
                        assert(all[j] == p[j]);
                        assert(p[j].t < 0);
                    } else if j == k {
                        assert(all[j] == x);
                    } else {
                        assert(all[j] == p[j - 1]);
                        assert(p[j - 1].t < 0);
                    }
                }
                lemma_first_forward_at(all, m + 1);
            }
        },
        None => {
            if x.t >= 0 {
                assert(k == p.len()) by {
                    if k < p.len() {
                        assert(p[k].t > x.t);
                        assert(p[k].t < 0);
                    }
                }
                assert forall|j: int| 0 <= j < k implies (#[trigger] all[j]).t < 0 by {
                    assert(all[j] == p[j]);
                    assert(p[j].t < 0);
                }
                assert(all[k] == x);
                lemma_first_forward_at(all, k);
            } else {
                assert forall|j: int| 0 <= j < all.len() implies (#[trigger] all[j]).t < 0 by {
                    if j < k {
                        assert(all[j] == p[j]);
                        assert(p[j].t < 0);
                    } else if j == k {
                        assert(all[j] == x);
                    } else {
                        assert(all[j] == p[j - 1]);
                        assert(p[j - 1].t < 0);
                    }
                }
                lemma_first_forward_at(all, all.len() as int);
            }
        },
    }
}

/// Of several intersections that share the nearest parameter, the hit is the
/// one that stands first: no intersection before the hit has its parameter.
pub proof fn lemma_hit_is_first_of_equals(s: Seq<IntersectionView>)
    ensures
        hit_spec(s) matches Some(h) ==> exists|k: int|
            0 <= k < s.len() && s[k] == h && forall|j: int|
                0 <= j < k ==> (#[trigger] s[j]).t != h.t,
    decreases s.len(),
{
    if s.len() > 0 {
        let front = s.drop_last();
        lemma_hit_step(s);
        lemma_hit_is_first_of_equals(front);
        lemma_hit_is_nearest(front);
        if let Some(h) = hit_spec(s) {
            if hit_spec(front) == Some(h) {
                let k = choose|k: int|
                    0 <= k < front.len() && front[k] == h && forall|j: int|
                        0 <= j < k ==> (#[trigger] front[j]).t != h.t;
                assert(s[k] == h);
                assert forall|j: int| 0 <= j < k implies (#[trigger] s[j]).t != h.t by {
                    assert(front[j].t != h.t);
                }
            } else {
                let k = s.len() - 1;
                assert(s[k] == h);
                assert forall|j: int| 0 <= j < k implies (#[trigger] s[j]).t != h.t by {
                    assert(front[j] == s[j]);
                    if front[j].t == h.t {
                        assert(front[j].t >= 0);
                    }
                }
            }
        }
    } else {
        assert(hit_spec(s) is None);
    }
}

/// A ray that has met nothing before comes out of empty space: at the first
/// of all intersections the index on the near side is one, and the index on
/// the far side is that of the object met.
pub proof fn lemma_first_intersection_leaves_empty_space(all: Seq<IntersectionView>)
    requires
        all.len() > 0,
    ensures
        all[0].refractive_indices(all) == (
            SCALE as int,
            all[0].object.material_spec().refractive@,
        ),
{
    let none = Seq::<IntersectionView>::empty();
    crate::object::lemma_same_as_is_symmetric(all[0].object, all[0].object);
    assert(position_of(none, all[0].object) == 0);
    assert(crossed(none, all[0]) == none.push(all[0]));
    assert(none.push(all[0]).last() == all[0]);
}

/// The walk from intersection `i` on, for a ray that is inside what the
/// first `i` intersections leave it in, finds the hit at index `k` if no
/// intersection before `k` is the hit.
proof fn lemma_walk_reaches(all: Seq<IntersectionView>, i: int, k: int)
    requires
        0 <= i <= k < all.len(),
        forall|j: int| 0 <= j < k ==> !is_hit(#[trigger] all[j], all[k]),
    ensures
        refraction_walk(all.skip(i), all[k], inside_after(all, i)) == (
            innermost_index(inside_after(all, k)),
            innermost_index(inside_after(all, k + 1)),
        ),
    decreases k - i,
{
    let rest = all.skip(i);
    assert(rest[0] == all[i]);
    if i == k {
        crate::object::lemma_same_as_is_symmetric(all[k].object, all[k].object);
    } else {
        assert(!is_hit(all[i], all[k]));
        assert(rest.drop_first() =~= all.skip(i + 1));
        lemma_walk_reaches(all, i + 1, k);
    }
}

/// The refractive indices at an intersection that no earlier intersection
/// can be taken for: on the near side the index of the innermost object that
/// the ray is inside of before the intersection, on the far side that of the
/// innermost object after it, and one where the ray is inside no object.
pub proof fn lemma_refractive_indices_at(all: Seq<IntersectionView>, k: int)
    requires
        0 <= k < all.len(),
        forall|j: int| 0 <= j < k ==> !is_hit(#[trigger] all[j], all[k]),
    ensures
        all[k].refractive_indices(all) == (
            innermost_index(inside_after(all, k)),
            innermost_index(inside_after(all, k + 1)),
        ),
{
    assert(all.skip(0) =~= all);
    lemma_walk_reaches(all, 0, k);
}

/// The medium that a ray enters at one intersection is the medium that it
/// leaves at the next, where neither intersection can be taken for an
/// earlier one.
pub proof fn lemma_refractive_indices_chain(all: Seq<IntersectionView>, k: int)
    requires
        0 <= k,
        k + 1 < all.len(),
        forall|j: int| 0 <= j < k ==> !is_hit(#[trigger] all[j], all[k]),
        forall|j: int| 0 <= j < k + 1 ==> !is_hit(#[trigger] all[j], all[k + 1]),
    ensures
        all[k].refractive_indices(all).1 == all[k + 1].refractive_indices(all).0,
{
    lemma_refractive_indices_at(all, k);
    lemma_refractive_indices_at(all, k + 1);
}

/// How often the first `k` intersections of `all` cross the surface of
/// `object`.
pub open spec fn crossings(all: Seq<IntersectionView>, k: int, object: Object) -> nat
    decreases k,
{
    if k <= 0 {
        0
    } else if all[k - 1].object == object {
        crossings(all, k - 1, object) + 1
    } else {
        crossings(all, k - 1, object)
    }
}

/// Whether the objects of the intersections can be told apart: two of them
/// count as the same only if they are one object.
pub open spec fn objects_are_distinct(all: Seq<IntersectionView>) -> bool {
    forall|i: int, j: int|
        0 <= i < all.len() && 0 <= j < all.len() && (#[trigger] all[i]).object.same_as(
            &(#[trigger] all[j]).object,
        ) ==> all[i].object == all[j].object
}

/// Whether `object` is among the objects of the containers.
pub open spec fn holds(containers: Seq<IntersectionView>, object: Object) -> bool {
    exists|i: int| 0 <= i < containers.len() && (#[trigger] containers[i]).object == object
}

/// What the containers are after the first `k` intersections, where the
/// objects can be told apart: each container is one of those intersections,
/// no object is held twice, and an object is held exactly if its surface was
/// crossed an odd number of times.
spec fn containers_are_sound(all: Seq<IntersectionView>, k: int) -> bool {
    let c = inside_after(all, k);
    &&& forall|i: int|
        0 <= i < c.len() ==> exists|j: int| 0 <= j < k && all[j] == #[trigger] c[i]
    &&& forall|i: int, j: int|
        0 <= i < j < c.len() ==> (#[trigger] c[i]).object != (#[trigger] c[j]).object
    &&& forall|object: Object|
        #![trigger crossings(all, k, object)]
        holds(c, object) <==> crossings(all, k, object) % 2 == 1
}

/// The place of an object among the containers: before it no container
/// counts as the same, and at it, if it lies within, one does.
proof fn lemma_position_of(containers: Seq<IntersectionView>, object: Object)
    ensures
        0 <= position_of(containers, object) <= containers.len(),
        forall|i: int|
            0 <= i < position_of(containers, object) ==> !(#[trigger] containers[i]).object.same_as(
                &object,
            ),
        position_of(containers, object) < containers.len() ==> containers[position_of(
            containers,
            object,
        )].object.same_as(&object),
    decreases containers.len(),
{
    if containers.len() > 0 && !containers[0].object.same_as(&object) {
        let rest = containers.drop_first();
        lemma_position_of(rest, object);
        assert forall|i: int| 0 <= i < position_of(containers, object) implies !(
        #[trigger] containers[i]).object.same_as(&object) by {
            if i > 0 {
                assert(containers[i] == rest[i - 1]);
            }
        }
        if position_of(containers, object) < containers.len() {
            assert(containers[position_of(containers, object)] == rest[position_of(rest, object)]);
        }
    }
}

/// The containers stay sound from one intersection to the next.
proof fn lemma_containers_are_sound(all: Seq<IntersectionView>, k: int)
    requires
        objects_are_distinct(all),
        0 <= k <= all.len(),
    ensures
        containers_are_sound(all, k),
    decreases k,
{
    if k > 0 {
        lemma_containers_are_sound(all, k - 1);
        let c = inside_after(all, k - 1);
        let x = all[k - 1];
        let after = inside_after(all, k);
        let p = position_of(c, x.object);
        lemma_position_of(c, x.object);
        crate::object::lemma_same_as_is_symmetric(x.object, x.object);
        // among the containers, counting as the same is being the same
        assert forall|i: int| 0 <= i < c.len() implies ((#[trigger] c[i]).object.same_as(&x.object)
            <==> c[i].object == x.object) by {
            let j = choose|j: int| 0 <= j < k - 1 && all[j] == c[i];
            assert(all[j].object == c[i].object);
            if all[j].object.same_as(&all[k - 1].object) {
            }
        }
        if p < c.len() {
            assert(after == c.remove(p));
            assert(c[p].object == x.object);
            assert forall|i: int| 0 <= i < after.len() implies exists|j: int|
                0 <= j < k && all[j] == #[trigger] after[i] by {
                let from = if i < p {
                    i
                } else {
                    i + 1
                };
                assert(after[i] == c[from]);
                let j = choose|j: int| 0 <= j < k - 1 && all[j] == c[from];
                assert(all[j] == after[i]);
            }
            assert forall|i: int, j: int| 0 <= i < j < after.len() implies (
            #[trigger] after[i]).object != (#[trigger] after[j]).object by {
                let fi = if i < p {
                    i
                } else {
                    i + 1
                };
                let fj = if j < p {
                    j
                } else {
                    j + 1
                };
                assert(after[i] == c[fi] && after[j] == c[fj]);
            }
            assert forall|object: Object|
                #![trigger crossings(all, k, object)]
                holds(after, object) <==> crossings(all, k, object) % 2 == 1 by {
                assert(holds(c, object) <==> crossings(all, k - 1, object) % 2 == 1);
                if object == x.object {
                    assert(holds(c, object)) by {
                        assert(c[p].object == object);
                    }
                    if holds(after, object) {
                        let i = choose|i: int|
                            0 <= i < after.len() && (#[trigger] after[i]).object == object;
                        let from = if i < p {
                            i
                        } else {
                            i + 1
                        };
                        assert(after[i] == c[from]);
                        if from < p {
                            assert(c[from].object != c[p].object);
                        } else {
                            assert(c[p].object != c[from].object);
                        }
                    }
                } else {
                    if holds(c, object) {
                        let i = choose|i: int|
                            0 <= i < c.len() && (#[trigger] c[i]).object == object;
                        let to = if i < p {
                            i
                        } else {
                            i - 1
                        };
                        assert(after[to] == c[i]);
                        assert(holds(after, object));
                    }
                    if holds(after, object) {
                        let i = choose|i: int|
                            0 <= i < after.len() && (#[trigger] after[i]).object == object;
                        let from = if i < p {
                            i
                        } else {
                            i + 1
                        };
                        assert(after[i] == c[from]);
                        assert(holds(c, object));
                    }
                }
            }
        } else {
            assert(after == c.push(x));
            assert forall|i: int| 0 <= i < after.len() implies exists|j: int|
                0 <= j < k && all[j] == #[trigger] after[i] by {
                if i < c.len() {
                    assert(after[i] == c[i]);
                    let j = choose|j: int| 0 <= j < k - 1 && all[j] == c[i];
                    assert(all[j] == after[i]);
                } else {
                    assert(all[k - 1] == after[i]);
                }
            }
            assert forall|i: int, j: int| 0 <= i < j < after.len() implies (
            #[trigger] after[i]).object != (#[trigger] after[j]).object by {
                assert(after[i] == c[i]);
                if j < c.len() {
                    assert(after[j] == c[j]);
                } else {
                    assert(!c[i].object.same_as(&x.object));
                }
            }
            assert forall|object: Object|
                #![trigger crossings(all, k, object)]
                holds(after, object) <==> crossings(all, k, object) % 2 == 1 by {
                assert(holds(c, object) <==> crossings(all, k - 1, object) % 2 == 1);
                if object == x.object {
                    assert(after[c.len() as int].object == object);
                    assert(holds(after, object));
                    if holds(c, object) {
                        let i = choose|i: int|
                            0 <= i < c.len() && (#[trigger] c[i]).object == object;
                        assert(!c[i].object.same_as(&x.object));
                    }
                } else {
                    if holds(c, object) {
                        let i = choose|i: int|
                            0 <= i < c.len() && (#[trigger] c[i]).object == object;
                        assert(after[i] == c[i]);
                        assert(holds(after, object));
                    }
                    if holds(after, object) {
                        let i = choose|i: int|
                            0 <= i < after.len() && (#[trigger] after[i]).object == object;
                        if i < c.len() {
                            assert(after[i] == c[i]);
                            assert(holds(c, object));
                        }
                    }
                }
            }
        }
    } else {
        assert forall|object: Object|
            #![trigger crossings(all, k, object)]
            holds(inside_after(all, k), object) <==> crossings(all, k, object) % 2 == 1 by {
        }
    }
}

/// A ray that has crossed the surface of every object an even number of
/// times is inside no object: behind the last of all intersections lies
/// empty space, with the index one. The objects have to be such that they
/// can be told apart, and the last intersection such that no earlier one can
/// be taken for it.
pub proof fn lemma_last_intersection_enters_empty_space(all: Seq<IntersectionView>)
    requires
        all.len() > 0,
        objects_are_distinct(all),
        forall|object: Object| #[trigger] crossings(all, all.len() as int, object) % 2 == 0,
        forall|j: int| 0 <= j < all.len() - 1 ==> !is_hit(#[trigger] all[j], all[all.len() - 1]),
    ensures
        all[all.len() - 1].refractive_indices(all).1 == SCALE,
{
    let n = all.len() as int;
    lemma_refractive_indices_at(all, n - 1);
    lemma_containers_are_sound(all, n);
    let c = inside_after(all, n);
    if c.len() > 0 {
        assert(holds(c, c[0].object));
        assert(crossings(all, n, c[0].object) % 2 == 1);
    }
}

} // verus!
