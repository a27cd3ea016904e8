use vstd::prelude::*;
use crate::arithmetic::{single_valued, Arithmetic, Point2};
use crate::scalar::Scalar;

verus! {

/// A line segment from `a` to `b`.
#[derive(Clone, Copy, Debug, PartialEq, Eq, Structural)]
pub struct Segment {
    pub a: Point2,
    pub b: Point2,
}

/// A half-line from `origin` along `direction`. The distance of a hit is its
/// length along the ray only where `direction` has length 1.
#[derive(Clone, Copy, Debug, PartialEq, Eq, Structural)]
pub struct Ray {
    pub origin: Point2,
    pub direction: Point2,
}

/// Where a ray meets a segment: the point, and the ray parameter there.
#[derive(Clone, Copy, Debug, PartialEq, Eq, Structural)]
pub struct RayIntersection {
    pub point: Point2,
    pub distance: Scalar,
}

impl Segment {
    /// `direction` is a result of normalizing the vector from `a` to `b`.
    pub open spec fn points_along<K: Arithmetic>(self, direction: Point2) -> bool {
        exists|v: Point2| #[trigger]
            call_ensures(K::vector, (self.b, self.a), v) && call_ensures(
                K::normalized,
                (v,),
                direction,
            )
    }

    /// `length` is a result of measuring the vector from `a` to `b`.
    pub open spec fn measures<K: Arithmetic>(self, length: Scalar) -> bool {
        exists|v: Point2| #[trigger]
            call_ensures(K::vector, (self.b, self.a), v) && call_ensures(K::length, (v,), length)
    }

    /// `image` is a result of applying `t` to both endpoints.
    pub open spec fn maps_to<K: Arithmetic>(self, t: K::Transform, image: Segment) -> bool {
        &&& call_ensures(K::applied, (t, self.a), image.a)
        &&& call_ensures(K::applied, (t, self.b), image.b)
    }

    /// `ray` starts at `a` and runs along a direction of the segment.
    pub open spec fn aims<K: Arithmetic>(self, ray: Ray) -> bool {
        ray.origin == self.a && self.points_along::<K>(ray.direction)
    }

    /// The segment has no length: its two ends are equal.
    pub open spec fn degenerate(self) -> bool {
        self.a.equals(self.b)
    }

    /// Whether the segment has no length.
    pub fn is_degenerate(&self) -> (r: bool)
        ensures
            r == self.degenerate(),
    {
        self.a.is_equal(&self.b)
    }

    /// The segment from `a` to `b`.
    pub fn new(a: Point2, b: Point2) -> (segment: Self)
        ensures
            segment == (Segment { a, b }),
    {
        Segment { a, b }
    }

    /// The image of the segment under `t`.
    pub fn transform<K: Arithmetic>(&self, t: K::Transform) -> (image: Self)
        ensures
            self.maps_to::<K>(t, image),
    {
        Segment { a: K::applied(t, self.a), b: K::applied(t, self.b) }
    }

    /// The unit vector from `a` towards `b`.
    pub fn direction<K: Arithmetic>(&self) -> (direction: Point2)
        ensures
            self.points_along::<K>(direction),
    {
        K::normalized(K::vector(self.b, self.a))
    }

    /// The distance from `a` to `b`.
    pub fn length<K: Arithmetic>(&self) -> (length: Scalar)
        ensures
            self.measures::<K>(length),
    {
        K::length(K::vector(self.b, self.a))
    }

    /// The ray from `a` towards `b`.
    pub fn to_ray<K: Arithmetic>(&self) -> (ray: Ray)
        ensures
            self.aims::<K>(ray),
    {
        Ray { origin: self.a, direction: self.direction::<K>() }
    }
}

/// The numbers behind one test of a ray against a segment. With the ray as
/// `origin + t * direction` and the segment as `a + u * (b - a)`, the two
/// parameters of the common point are quotients of determinants.
pub struct Crossing {
    /// `origin - a`.
    pub offset: Point2,
    /// `a - b`.
    pub edge: Point2,
    /// `-direction`.
    pub back: Point2,
    /// The determinant of `offset` and `edge`.
    pub t_numerator: Scalar,
    /// The determinant of `back` and `edge`, which both parameters are
    /// divided by.
    pub denominator: Scalar,
    /// The parameter along the ray.
    pub t: Scalar,
    /// The determinant of `direction` and `offset`.
    pub u_numerator: Scalar,
    /// The parameter along the segment.
    pub u: Scalar,
    /// `t * direction`.
    pub step: Point2,
    /// `origin + step`.
    pub point: Point2,
}

impl Crossing {
    /// The ray is parallel to the segment: the denominator is zero.
    pub open spec fn parallel(self) -> bool {
        self.denominator.zero()
    }

    /// The ray meets the segment: it is not parallel to it, the common point
    /// lies between the segment's ends (`0 <= u <= 1`) and not behind the
    /// ray's origin (`t >= 0`).
    pub open spec fn hits(self) -> bool {
        !self.parallel() && self.u.unit() && self.t.non_negative()
    }

    /// What the test reports: the point at distance `t` where the ray meets
    /// the segment, nothing where it does not.
    pub open spec fn outcome(self) -> Option<RayIntersection> {
        if self.hits() {
            Some(RayIntersection { point: self.point, distance: self.t })
        } else {
            None
        }
    }

    /// The numbers are results of the arithmetic `K` for `ray` and
    /// `segment`, as far as the test goes: the parameters are only computed
    /// for a ray that is not parallel, the point only for a hit.
    pub open spec fn of<K: Arithmetic>(self, ray: Ray, segment: Segment) -> bool {
        &&& call_ensures(K::vector, (ray.origin, segment.a), self.offset)
        &&& call_ensures(K::vector, (segment.a, segment.b), self.edge)
        &&& call_ensures(K::reversed, (ray.direction,), self.back)
        &&& call_ensures(K::determinant, (self.offset, self.edge), self.t_numerator)
        &&& call_ensures(K::determinant, (self.back, self.edge), self.denominator)
        &&& !self.parallel() ==> {
            &&& call_ensures(K::quotient, (self.t_numerator, self.denominator), self.t)
            &&& call_ensures(K::determinant, (ray.direction, self.offset), self.u_numerator)
            &&& call_ensures(K::quotient, (self.u_numerator, self.denominator), self.u)
        }
        &&& self.hits() ==> {
            &&& call_ensures(K::scaled, (ray.direction, self.t), self.step)
            &&& call_ensures(K::moved, (ray.origin, self.step), self.point)
        }
    }
}

/// The nearest of a run of outcomes, taken one after the other: a hit
/// replaces the nearest so far unless that one is at most as far. So of the
/// hits with the least distance the first one stays. Where two distances do
/// not compare, because one is a NaN, the later hit replaces the earlier.
pub open spec fn closest(outcomes: Seq<Option<RayIntersection>>) -> Option<RayIntersection>
    decreases outcomes.len(),
{
    if outcomes.len() == 0 {
        None
    } else {
        match (closest(outcomes.drop_last()), outcomes.last()) {
            (Some(best), Some(hit)) => if best.distance.at_most(hit.distance) {
                Some(best)
            } else {
                Some(hit)
            },
            (Some(best), None) => Some(best),
            (None, last) => last,
        }
    }
}

impl Ray {
    /// `ray` starts at `origin` and runs along a result of normalizing
    /// `direction`.
    pub open spec fn along<K: Arithmetic>(origin: Point2, direction: Point2, ray: Ray) -> bool {
        ray.origin == origin && call_ensures(K::normalized, (direction,), ray.direction)
    }

    /// The ray has a direction to go by, and the segment a length: only then
    /// is there anything to compute.
    pub open spec fn can_meet(self, segment: Segment) -> bool {
        self.direction.finite() && !segment.degenerate()
    }

    /// `hit` is an outcome of testing the ray against `segment`: nothing
    /// where the ray's direction is not finite or the segment has no length,
    /// and else what the numbers of a crossing give.
    pub open spec fn meets<K: Arithmetic>(
        self,
        segment: Segment,
        hit: Option<RayIntersection>,
    ) -> bool {
        if self.can_meet(segment) {
            exists|c: Crossing| #[trigger] c.of::<K>(self, segment) && hit == c.outcome()
        } else {
            hit is None
        }
    }

    /// `outcomes` holds, segment by segment, an outcome of testing the ray
    /// against that segment.
    pub open spec fn meets_each<K: Arithmetic>(
        self,
        segments: Seq<Segment>,
        outcomes: Seq<Option<RayIntersection>>,
    ) -> bool {
        &&& outcomes.len() == segments.len()
        &&& forall|i: int|
            0 <= i < segments.len() ==> self.meets::<K>(segments[i], #[trigger] outcomes[i])
    }

    /// `first` is the nearest outcome of testing the ray against each of
    /// `segments`.
    pub open spec fn meets_first<K: Arithmetic>(
        self,
        segments: Seq<Segment>,
        first: Option<RayIntersection>,
    ) -> bool {
        exists|outcomes: Seq<Option<RayIntersection>>| #[trigger]
            self.meets_each::<K>(segments, outcomes) && first == closest(outcomes)
    }

    /// The ray from `origin` along `direction`, which is normalized.
    pub fn new<K: Arithmetic>(origin: Point2, direction: Point2) -> (ray: Self)
        ensures
            Ray::along::<K>(origin, direction, ray),
    {
        Ray { origin, direction: K::normalized(direction) }
    }

    /// The ray from `a` towards `b`.
    pub fn from_points<K: Arithmetic>(a: Point2, b: Point2) -> (ray: Self)
        ensures
            (Segment { a, b }).aims::<K>(ray),
    {
        Ray { origin: a, direction: K::normalized(K::vector(b, a)) }
    }

    /// Whether the direction has length 1, so that distances along the ray
    /// are lengths.
    pub fn is_valid<K: Arithmetic>(&self) -> (valid: bool)
        ensures
            call_ensures(K::is_normalized, (self.direction,), valid),
    {
        K::is_normalized(self.direction)
    }

    /// Where the ray meets `segment`, if it does. A ray parallel to the
    /// segment does not meet it; nor does one whose line crosses the
    /// segment's line outside the segment or behind the ray's origin. A ray
    /// without a finite direction meets nothing, and nothing meets a segment
    /// without length.
    pub fn intersect<K: Arithmetic>(&self, segment: &Segment) -> (hit: Option<RayIntersection>)
        ensures
            self.meets::<K>(*segment, hit),
            hit matches Some(h) ==> h.distance.non_negative(),
            !self.direction.finite() || segment.degenerate() ==> hit is None,
    {
        if !self.direction.is_finite() || segment.is_degenerate() {
            return None;
        }
        let offset = K::vector(self.origin, segment.a);
        let edge = K::vector(segment.a, segment.b);
        let back = K::reversed(self.direction);
        let t_numerator = K::determinant(offset, edge);
        let denominator = K::determinant(back, edge);
        if denominator.is_zero() {
            proof {
                let c = Crossing {
                    offset,
                    edge,
                    back,
                    t_numerator,
                    denominator,
                    t: denominator,
                    u_numerator: denominator,
                    u: denominator,
                    step: offset,
                    point: offset,
                };
                assert(c.of::<K>(*self, *segment));
            }
            return None;
        }
        let t = K::quotient(t_numerator, denominator);
        let u_numerator = K::determinant(self.direction, offset);
        let u = K::quotient(u_numerator, denominator);
        if u.is_unit() && t.is_non_negative() {
            let step = K::scaled(self.direction, t);
            let point = K::moved(self.origin, step);
            proof {
                let c = Crossing {
                    offset,
                    edge,
                    back,
                    t_numerator,
                    denominator,
                    t,
                    u_numerator,
                    u,
                    step,
                    point,
                };
                assert(c.of::<K>(*self, *segment));
            }
            Some(RayIntersection { point, distance: t })
        } else {
            proof {
                let c = Crossing {
                    offset,
                    edge,
                    back,
                    t_numerator,
                    denominator,
                    t,
                    u_numerator,
                    u,
                    step: offset,
                    point: offset,
                };
                assert(c.of::<K>(*self, *segment));
            }
            None
        }
    }

    /// The nearest point where the ray meets one of `segments`, if it meets
    /// any; of several equally near, the one on the earliest segment.
    pub fn intersect_first<K: Arithmetic>(&self, segments: &[Segment]) -> (first: Option<
        RayIntersection,
    >)
        ensures
            self.meets_first::<K>(segments@, first),
    {
        let mut best: Option<RayIntersection> = None;
        let ghost mut outcomes: Seq<Option<RayIntersection>> = Seq::empty();
        let mut i: usize = 0;
        while i < segments.len()
            invariant
                i <= segments@.len(),
                self.meets_each::<K>(segments@.take(i as int), outcomes),
                best == closest(outcomes),
            decreases segments@.len() - i,
        {
            let outcome = self.intersect::<K>(&segments[i]);
            proof {
                let before = outcomes;
                outcomes = outcomes.push(outcome);
                assert(outcomes.drop_last() == before);
            }
            match outcome {
                Some(hit) => {
                    match best {
                        Some(b) => {
                            if !b.distance.le(&hit.distance) {
                                best = Some(hit);
                            }
                        },
                        None => {
                            best = Some(hit);
                        },
                    }
                },
                None => {},
            }
            i += 1;
        }
        proof {
            assert(segments@.take(i as int) == segments@);
        }
        best
    }
}

/// Position `k` of `outcomes` holds a hit, no hit of `outcomes` is nearer,
/// and every hit before it is farther.
pub open spec fn first_nearest(outcomes: Seq<Option<RayIntersection>>, k: int) -> bool {
    &&& 0 <= k < outcomes.len()
    &&& outcomes[k] is Some
    &&& forall|j: int|
        0 <= j < outcomes.len() && (#[trigger] outcomes[j]) is Some ==> {
            &&& outcomes[k]->0.distance.at_most(outcomes[j]->0.distance)
            &&& j < k ==> !outcomes[j]->0.distance.at_most(outcomes[k]->0.distance)
        }
}

/// There is a nearest outcome exactly when there is a hit.
pub proof fn law_closest_is_none_without_hits(outcomes: Seq<Option<RayIntersection>>)
    ensures
        closest(outcomes) is None <==> forall|i: int|
            0 <= i < outcomes.len() ==> (#[trigger] outcomes[i]) is None,
    decreases outcomes.len(),
{
    if outcomes.len() > 0 {
        law_closest_is_none_without_hits(outcomes.drop_last());
        if closest(outcomes) is None {
            assert forall|i: int| 0 <= i < outcomes.len() implies (#[trigger] outcomes[i]) is None by {
                if i < outcomes.len() - 1 {
                    assert(outcomes.drop_last()[i] == outcomes[i]);
                }
            }
        } else if closest(outcomes.drop_last()) is Some {
            let i = choose|i: int|
                0 <= i < outcomes.drop_last().len() && !((#[trigger] outcomes.drop_last()[i]) is None);
            assert(outcomes[i] == outcomes.drop_last()[i]);
        }
    }
}

/// Among hits whose distances are numbers at least zero, the nearest outcome
/// is the first of the hits with the least distance.
pub proof fn law_closest_is_first_nearest(outcomes: Seq<Option<RayIntersection>>)
    requires
        forall|i: int|
            0 <= i < outcomes.len() && (#[trigger] outcomes[i]) is Some
                ==> outcomes[i]->0.distance.non_negative(),
        closest(outcomes) is Some,
    ensures
        exists|k: int| #[trigger] first_nearest(outcomes, k) && closest(outcomes) == outcomes[k],
    decreases outcomes.len(),
{
    let before = outcomes.drop_last();
    let last = outcomes.len() - 1;
    assert forall|i: int| 0 <= i < before.len() && (#[trigger] before[i]) is Some implies before[i]->0.distance.non_negative() by {
        assert(before[i] == outcomes[i]);
    }
    if closest(before) is Some {
        law_closest_is_first_nearest(before);
        let k = choose|k: int| #[trigger] first_nearest(before, k) && closest(before) == before[k];
        assert(before[k] == outcomes[k]);
        let best = before[k]->0;
        if outcomes[last] is Some && !best.distance.at_most(outcomes[last]->0.distance) {
            let hit = outcomes[last]->0;
            assert forall|j: int| 0 <= j < outcomes.len() && (#[trigger] outcomes[j]) is Some implies {
                &&& hit.distance.at_most(outcomes[j]->0.distance)
                &&& j < last ==> !outcomes[j]->0.distance.at_most(hit.distance)
            } by {
                if j < last {
                    assert(before[j] == outcomes[j]);
                }
            }
            assert(first_nearest(outcomes, last));
        } else {
            assert forall|j: int| 0 <= j < outcomes.len() && (#[trigger] outcomes[j]) is Some implies {
                &&& best.distance.at_most(outcomes[j]->0.distance)
                &&& j < k ==> !outcomes[j]->0.distance.at_most(best.distance)
            } by {
                if j < last {
                    assert(before[j] == outcomes[j]);
                }
            }
            assert(first_nearest(outcomes, k));
        }
    } else {
        law_closest_is_none_without_hits(before);
        assert forall|j: int| 0 <= j < outcomes.len() && (#[trigger] outcomes[j]) is Some implies j
            == last by {
            if j < last {
                assert(before[j] == outcomes[j]);
            }
        }
        assert(first_nearest(outcomes, last));
    }
}

/// A hit lies ahead of the ray's origin: its distance is a number at least
/// zero.
pub proof fn law_hit_is_ahead<K: Arithmetic>(ray: Ray, segment: Segment, hit: RayIntersection)
    requires
        ray.meets::<K>(segment, Some(hit)),
    ensures
        hit.distance.non_negative(),
{
}

/// The first hit of a ray on some segments is a hit of the ray on one of
/// them, no hit on any of them is nearer, and every hit on an earlier segment
/// is farther.
pub proof fn law_first_hit_is_nearest<K: Arithmetic>(
    ray: Ray,
    segments: Seq<Segment>,
    first: RayIntersection,
)
    requires
        ray.meets_first::<K>(segments, Some(first)),
    ensures
        exists|outcomes: Seq<Option<RayIntersection>>, k: int|
            {
                &&& #[trigger] ray.meets_each::<K>(segments, outcomes)
                &&& #[trigger] first_nearest(outcomes, k)
                &&& outcomes[k] == Some(first)
            },
{
    let outcomes = choose|outcomes: Seq<Option<RayIntersection>>| #[trigger]
        ray.meets_each::<K>(segments, outcomes) && Some(first) == closest(outcomes);
    assert forall|i: int| 0 <= i < outcomes.len() && (#[trigger] outcomes[i]) is Some implies outcomes[i]->0.distance.non_negative() by {
        law_hit_is_ahead::<K>(ray, segments[i], outcomes[i]->0);
    }
    law_closest_is_first_nearest(outcomes);
    let k = choose|k: int| #[trigger] first_nearest(outcomes, k) && closest(outcomes) == outcomes[k];
    assert(ray.meets_each::<K>(segments, outcomes) && first_nearest(outcomes, k) && outcomes[k]
        == Some(first));
}

/// A ray without a first hit on some segments hits none of them.
pub proof fn law_no_first_hit_is_no_hit<K: Arithmetic>(ray: Ray, segments: Seq<Segment>)
    requires
        ray.meets_first::<K>(segments, None),
    ensures
        exists|outcomes: Seq<Option<RayIntersection>>|
            {
                &&& #[trigger] ray.meets_each::<K>(segments, outcomes)
                &&& forall|i: int| 0 <= i < outcomes.len() ==> (#[trigger] outcomes[i]) is None
            },
{
    let outcomes = choose|outcomes: Seq<Option<RayIntersection>>| #[trigger]
        ray.meets_each::<K>(segments, outcomes) && None::<RayIntersection> == closest(outcomes);
    law_closest_is_none_without_hits(outcomes);
    assert(ray.meets_each::<K>(segments, outcomes));
}

/// With an arithmetic that gives one result for one list of arguments, a
/// segment has one ray.
pub proof fn law_one_ray<K: Arithmetic>(segment: Segment, r1: Ray, r2: Ray)
    requires
        single_valued::<K>(),
        segment.aims::<K>(r1),
        segment.aims::<K>(r2),
    ensures
        r1 == r2,
{
    let v1 = choose|v: Point2| #[trigger]
        call_ensures(K::vector, (segment.b, segment.a), v) && call_ensures(
            K::normalized,
            (v,),
            r1.direction,
        );
    let v2 = choose|v: Point2| #[trigger]
        call_ensures(K::vector, (segment.b, segment.a), v) && call_ensures(
            K::normalized,
            (v,),
            r2.direction,
        );
    assert(v1 == v2);
    assert(r1.direction == r2.direction);
}

/// With such an arithmetic, the test of a ray against a segment has one
/// outcome.
pub proof fn law_one_outcome<K: Arithmetic>(
    ray: Ray,
    segment: Segment,
    h1: Option<RayIntersection>,
    h2: Option<RayIntersection>,
)
    requires
        single_valued::<K>(),
        ray.meets::<K>(segment, h1),
        ray.meets::<K>(segment, h2),
    ensures
        h1 == h2,
{
    if ray.can_meet(segment) {
        let c1 = choose|c: Crossing| #[trigger] c.of::<K>(ray, segment) && h1 == c.outcome();
        let c2 = choose|c: Crossing| #[trigger] c.of::<K>(ray, segment) && h2 == c.outcome();
        assert(c1.offset == c2.offset);
        assert(c1.edge == c2.edge);
        assert(c1.back == c2.back);
        assert(c1.t_numerator == c2.t_numerator);
        assert(c1.denominator == c2.denominator);
        if !c1.parallel() {
            assert(c1.t == c2.t);
            assert(c1.u_numerator == c2.u_numerator);
            assert(c1.u == c2.u);
            if c1.hits() {
                assert(c1.step == c2.step);
                assert(c1.point == c2.point);
            }
        }
    }
}

/// With such an arithmetic, a ray has one first hit on a run of segments.
pub proof fn law_one_first_hit<K: Arithmetic>(
    ray: Ray,
    segments: Seq<Segment>,
    f1: Option<RayIntersection>,
    f2: Option<RayIntersection>,
)
    requires
        single_valued::<K>(),
        ray.meets_first::<K>(segments, f1),
        ray.meets_first::<K>(segments, f2),
    ensures
        f1 == f2,
{
    let o1 = choose|outcomes: Seq<Option<RayIntersection>>| #[trigger]
        ray.meets_each::<K>(segments, outcomes) && f1 == closest(outcomes);
    let o2 = choose|outcomes: Seq<Option<RayIntersection>>| #[trigger]
        ray.meets_each::<K>(segments, outcomes) && f2 == closest(outcomes);
    assert forall|i: int| 0 <= i < o1.len() implies o1[i] == o2[i] by {
        law_one_outcome::<K>(ray, segments[i], o1[i], o2[i]);
    }
    assert(o1 =~= o2);
}

} // verus!
