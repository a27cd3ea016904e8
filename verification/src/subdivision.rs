use vstd::prelude::*;
use crate::arithmetic::{single_valued, Arithmetic, Point2};
use crate::raycast::{
    closest, law_one_first_hit, law_one_ray, Ray, RayIntersection, Segment,
};
use crate::scalar::{Scalar, ONE};
use crate::tree::Tree;

verus! {

/// The bit pattern of a full turn, in radians.
pub const TAU: u32 = 0x40c9_0fdb;

/// The bit pattern of half a turn, in radians.
pub const PI: u32 = 0x4049_0fdb;

/// The bit pattern of 0.99: a child is made this much smaller than the
/// contraction ratio asks, so that its lines do not touch its parent's.
pub const SLACK: u32 = 0x3f7d_70a4;

/// The bit pattern of -1.
pub const MINUS_ONE: u32 = 0xbf80_0000;

/// The contraction ratio of a split into `n` children: `1/2` for 2,
/// `1/(1 + 2/sqrt(3))` for 3, `1/(1 + sqrt(2))` for 4 and
/// `1/(1 + sqrt(2(1 + 1/sqrt(5))))` for 5, each as single-precision
/// arithmetic rounds it, and zero for any other count.
pub open spec fn ratio(n: nat) -> Scalar {
    if n == 2 {
        Scalar { bits: 0x3f00_0000 }
    } else if n == 3 {
        Scalar { bits: 0x3eed_9eba }
    } else if n == 4 {
        Scalar { bits: 0x3ed4_13cc }
    } else if n == 5 {
        Scalar { bits: 0x3ebd_89cb }
    } else {
        Scalar { bits: 0 }
    }
}

/// The factor by which each of `n` children is smaller than its parent, so
/// that `n` copies set round the parent's centre touch without overlap. Only
/// 2 to 5 children have such a tiling; for any other count the ratio is zero
/// and the children collapse to a point.
pub fn contraction_ratio(n: usize) -> (scaling: Scalar)
    ensures
        scaling == ratio(n as nat),
        !(2 <= n <= 5) ==> scaling.bits == 0,
{
    match n {
        2 => Scalar { bits: 0x3f00_0000 },
        3 => Scalar { bits: 0x3eed_9eba },
        4 => Scalar { bits: 0x3ed4_13cc },
        5 => Scalar { bits: 0x3ebd_89cb },
        _ => Scalar { bits: 0 },
    }
}

/// The corner of the square of side 2 about the origin that comes `i`-th
/// when one goes round from `(-1, -1)` by `(-1, 1)`, `(1, 1)` and `(1, -1)`.
pub open spec fn corner(i: int) -> Point2 {
    Point2 {
        x: Scalar { bits: if i == 0 || i == 1 { MINUS_ONE } else { ONE } },
        y: Scalar { bits: if i == 0 || i == 3 { MINUS_ONE } else { ONE } },
    }
}

/// The side of that square that starts at corner `i`: it runs back to the
/// corner before it.
pub open spec fn side(i: int) -> Segment {
    Segment { a: corner(i), b: corner((i + 3) % 4) }
}

/// The boundary to start from: the four sides of the square of side 2 about
/// the origin.
pub fn default_bounds() -> (bounds: Vec<Segment>)
    ensures
        bounds@.len() == 4,
        forall|i: int| 0 <= i < 4 ==> bounds@[i] == side(i),
{
    let minus = Scalar { bits: MINUS_ONE };
    let plus = Scalar { bits: ONE };
    let corners = [
        Point2 { x: minus, y: minus },
        Point2 { x: minus, y: plus },
        Point2 { x: plus, y: plus },
        Point2 { x: plus, y: minus },
    ];
    let mut bounds: Vec<Segment> = Vec::new();
    let mut i: usize = 0;
    while i < 4
        invariant
            i <= 4,
            bounds@.len() == i,
            forall|j: int| 0 <= j < 4 ==> corners@[j] == corner(j),
            forall|j: int| 0 <= j < i ==> bounds@[j] == side(j),
        decreases 4 - i,
    {
        bounds.push(Segment::new(corners[i], corners[(i + 3) % 4]));
        i += 1;
    }
    bounds
}

/// What is computed for one child of a node: the numbers and maps on the way
/// to the child's division line and to the child's transform.
pub struct Branch<T> {
    /// The child's index, as a scalar.
    pub index: Scalar,
    /// The number of children, as a scalar.
    pub count: Scalar,
    /// The angle between two neighbours: a full turn divided by `count`.
    pub sector: Scalar,
    /// `index * sector`.
    pub turn: Scalar,
    /// The node's share of the phase: `phase * value`.
    pub sway: Scalar,
    /// The child's angle: `turn + sway`.
    pub angle: Scalar,
    /// How far the division line reaches: 1 less the contraction ratio.
    pub reach: Scalar,
    /// The vector `(1, 0) * reach`.
    pub arm: Point2,
    /// The rotation by `angle`.
    pub spin: T,
    /// `spin` followed by the node's transform: the map from the child's
    /// direction to the world.
    pub outward: T,
    /// The image under `outward` of the segment from the origin to `arm`:
    /// the child's division line before it is clipped.
    pub candidate: Segment,
    /// Half a turn divided by `count`: half a sector.
    pub half_sector: Scalar,
    /// The rotation by `half_sector`.
    pub align: T,
    /// `align` followed by `outward`.
    pub aligned: T,
    /// The translation by `arm`.
    pub shift: T,
    /// `shift` followed by `aligned`.
    pub shifted: T,
    /// The contraction ratio with its slack: `ratio * 0.99`.
    pub shrunk: Scalar,
    /// The scaling by `shrunk` along both axes.
    pub shrink: T,
    /// `shrink` followed by `shifted`: the child's transform.
    pub child: T,
}

impl<T> Branch<T> {
    /// The record holds results of the arithmetic `K` for child `index` of
    /// `count`, on a node with this transform and value.
    pub open spec fn of<K: Arithmetic<Transform = T>>(
        self,
        transform: T,
        scaling: Scalar,
        index: usize,
        count: usize,
        phase: Scalar,
        value: Scalar,
    ) -> bool {
        &&& call_ensures(K::from_count, (index,), self.index)
        &&& call_ensures(K::from_count, (count,), self.count)
        &&& call_ensures(K::quotient, (Scalar { bits: TAU }, self.count), self.sector)
        &&& call_ensures(K::product, (self.index, self.sector), self.turn)
        &&& call_ensures(K::product, (phase, value), self.sway)
        &&& call_ensures(K::sum, (self.turn, self.sway), self.angle)
        &&& call_ensures(K::difference, (Scalar { bits: ONE }, scaling), self.reach)
        &&& call_ensures(
            K::scaled,
            (Point2 { x: Scalar { bits: ONE }, y: Scalar { bits: 0 } }, self.reach),
            self.arm,
        )
        &&& call_ensures(K::rotation, (self.angle,), self.spin)
        &&& call_ensures(K::composed, (transform, self.spin), self.outward)
        &&& (Segment {
            a: Point2 { x: Scalar { bits: 0 }, y: Scalar { bits: 0 } },
            b: self.arm,
        }).maps_to::<K>(self.outward, self.candidate)
        &&& call_ensures(K::quotient, (Scalar { bits: PI }, self.count), self.half_sector)
        &&& call_ensures(K::rotation, (self.half_sector,), self.align)
        &&& call_ensures(K::composed, (self.outward, self.align), self.aligned)
        &&& call_ensures(K::translation, (self.arm,), self.shift)
        &&& call_ensures(K::composed, (self.aligned, self.shift), self.shifted)
        &&& call_ensures(K::product, (scaling, Scalar { bits: SLACK }), self.shrunk)
        &&& call_ensures(K::scaling, (Point2 { x: self.shrunk, y: self.shrunk },), self.shrink)
        &&& call_ensures(K::composed, (self.shifted, self.shrink), self.child)
    }
}

/// The division line of child `index` of `count` before it is clipped, and
/// the child's transform.
///
/// The line runs from the image of the origin to the image of the point at
/// `1 - scaling` on the first axis, under the rotation by
/// `index * (tau / count) + phase * value` followed by the node's transform.
/// The child's transform shrinks by `scaling * 0.99`, moves as far along the
/// first axis as the line reaches, turns by half a sector, and then goes the
/// way of the line: so the child lies between its line and the next.
pub fn branch<K: Arithmetic>(
    transform: K::Transform,
    scaling: Scalar,
    index: usize,
    count: usize,
    phase: Scalar,
    value: Scalar,
) -> (made: (Segment, K::Transform))
    ensures
        exists|b: Branch<K::Transform>| #[trigger]
            b.of::<K>(transform, scaling, index, count, phase, value) && made == (
                b.candidate,
                b.child,
            ),
{
    let index_scalar = K::from_count(index);
    let count_scalar = K::from_count(count);
    let sector = K::quotient(Scalar { bits: TAU }, count_scalar);
    let turn = K::product(index_scalar, sector);
    let sway = K::product(phase, value);
    let angle = K::sum(turn, sway);
    let reach = K::difference(Scalar { bits: ONE }, scaling);
    let arm = K::scaled(Point2 { x: Scalar { bits: ONE }, y: Scalar { bits: 0 } }, reach);
    let spin = K::rotation(angle);
    let outward = K::composed(transform, spin);
    let origin = Point2 { x: Scalar { bits: 0 }, y: Scalar { bits: 0 } };
    let candidate = Segment::new(origin, arm).transform::<K>(outward);
    let half_sector = K::quotient(Scalar { bits: PI }, count_scalar);
    let align = K::rotation(half_sector);
    let aligned = K::composed(outward, align);
    let shift = K::translation(arm);
    let shifted = K::composed(aligned, shift);
    let shrunk = K::product(scaling, Scalar { bits: SLACK });
    let shrink = K::scaling(Point2 { x: shrunk, y: shrunk });
    let child = K::composed(shifted, shrink);
    proof {
        let b = Branch {
            index: index_scalar,
            count: count_scalar,
            sector,
            turn,
            sway,
            angle,
            reach,
            arm,
            spin,
            outward,
            candidate,
            half_sector,
            align,
            aligned,
            shift,
            shifted,
            shrunk,
            shrink,
            child,
        };
        assert(b.of::<K>(transform, scaling, index, count, phase, value));
    }
    (candidate, child)
}

/// The record of one call of the engine on one node: what it was given, what
/// was computed for each child, and the records of the calls on the children.
pub struct Division<T> {
    /// The transform handed to this call.
    pub transform: T,
    /// The boundary handed to this call.
    pub boundary: Seq<Segment>,
    /// What was computed for each child.
    pub branches: Seq<Branch<T>>,
    /// The ray along each child's candidate.
    pub rays: Seq<Ray>,
    /// For each child, the nearest hit of its ray on the boundary.
    pub hits: Seq<Option<RayIntersection>>,
    /// The record of the call on each child.
    pub children: Seq<Division<T>>,
}

/// The candidates of the first `n` branches, each cut at its hit, in order. A
/// candidate with a hit runs from its own start to the hit's point; a
/// candidate without one leaves no line.
pub open spec fn clipped<T>(
    branches: Seq<Branch<T>>,
    hits: Seq<Option<RayIntersection>>,
    n: int,
) -> Seq<Segment>
    decreases n,
{
    if n <= 0 {
        Seq::empty()
    } else {
        let before = clipped(branches, hits, n - 1);
        match hits[n - 1] {
            Some(hit) => before.push(Segment { a: branches[n - 1].candidate.a, b: hit.point }),
            None => before,
        }
    }
}

impl<T> Division<T> {
    /// The division lines that this call drew itself.
    pub open spec fn own(self) -> Seq<Segment> {
        clipped(self.branches, self.hits, self.branches.len() as int)
    }

    /// The boundary that this call hands to each child: its own lines, then
    /// the boundary it was given.
    pub open spec fn inner_boundary(self) -> Seq<Segment> {
        self.own() + self.boundary
    }

    /// All the lines of this call: its own, then those of each child's call,
    /// in the order of the children.
    pub open spec fn lines(self) -> Seq<Segment>
        decreases self,
    {
        self.own() + Self::joined(self.children, self.children.len() as int)
    }

    /// The lines of the first `n` of `calls`, one call after the other.
    pub open spec fn joined(calls: Seq<Division<T>>, n: int) -> Seq<Segment>
        decreases calls, n,
    {
        if n <= 0 || n > calls.len() {
            Seq::empty()
        } else {
            Self::joined(calls, n - 1) + calls[n - 1].lines()
        }
    }

    /// `path` leads from this call to a call in the record: it is empty, or
    /// its first entry is the index of a child and the rest leads on from the
    /// call on that child.
    pub open spec fn has(self, path: Seq<int>) -> bool
        decreases path.len(),
    {
        path.len() == 0 || {
            &&& 0 <= path[0] < self.children.len()
            &&& self.children[path[0]].has(path.drop_first())
        }
    }

    /// The record of the call that `path` leads to.
    pub open spec fn at(self, path: Seq<int>) -> Division<T>
        decreases path.len(),
    {
        if path.len() == 0 {
            self
        } else {
            self.children[path[0]].at(path.drop_first())
        }
    }

    /// The record is one that the engine leaves on `tree` with the arithmetic
    /// `K`. For each child it holds a branch computed from this call's
    /// transform, the tree's value and `phase`, a ray along the branch's
    /// candidate, and the nearest hit of that ray on this call's boundary;
    /// and the call on the child was given the child's transform and this
    /// call's inner boundary, and left such a record on the child's subtree.
    pub open spec fn follows<K: Arithmetic<Transform = T>>(
        self,
        tree: Tree<Scalar>,
        phase: Scalar,
    ) -> bool
        decreases self,
    {
        let n = tree.children@.len();
        &&& self.branches.len() == n
        &&& self.rays.len() == n
        &&& self.hits.len() == n
        &&& self.children.len() == n
        &&& forall|i: int|
            0 <= i < n ==> {
                &&& self.branches[i].of::<K>(
                    self.transform,
                    ratio(n),
                    i as usize,
                    n as usize,
                    phase,
                    tree.value,
                )
                &&& self.branches[i].candidate.aims::<K>(self.rays[i])
                &&& self.rays[i].meets_first::<K>(self.boundary, self.hits[i])
                &&& (#[trigger] self.children[i]).transform == self.branches[i].child
                &&& self.children[i].boundary == self.inner_boundary()
                &&& self.children[i].follows::<K>(tree.children@[i], phase)
            }
    }
}

/// `lines` is a result of the engine on `tree`: there is a record of a call
/// with this transform and this boundary that follows the tree, and `lines`
/// are its lines.
pub open spec fn divides<K: Arithmetic>(
    tree: Tree<Scalar>,
    transform: K::Transform,
    phase: Scalar,
    bounds: Seq<Segment>,
    lines: Seq<Segment>,
) -> bool {
    exists|call: Division<K::Transform>|
        {
            &&& call.transform == transform
            &&& call.boundary == bounds
            &&& #[trigger] call.follows::<K>(tree, phase)
            &&& call.lines() == lines
        }
}

/// `clipped` reads only the first `n` branches and hits.
proof fn lemma_clipped_reads_prefix<T>(
    b1: Seq<Branch<T>>,
    h1: Seq<Option<RayIntersection>>,
    b2: Seq<Branch<T>>,
    h2: Seq<Option<RayIntersection>>,
    n: int,
)
    requires
        n <= b1.len(),
        n <= b2.len(),
        n <= h1.len(),
        n <= h2.len(),
        forall|j: int| 0 <= j < n ==> (#[trigger] b1[j]).candidate == b2[j].candidate,
        forall|j: int| 0 <= j < n ==> #[trigger] h1[j] == h2[j],
    ensures
        clipped(b1, h1, n) == clipped(b2, h2, n),
    decreases n,
{
    if n > 0 {
        lemma_clipped_reads_prefix(b1, h1, b2, h2, n - 1);
    }
}

/// `joined` reads only the lines of the first `n` calls.
proof fn lemma_joined_reads_prefix<T>(a: Seq<Division<T>>, b: Seq<Division<T>>, n: int)
    requires
        0 <= n <= a.len(),
        n <= b.len(),
        forall|j: int| 0 <= j < n ==> a[j].lines() == b[j].lines(),
    ensures
        Division::joined(a, n) == Division::joined(b, n),
    decreases n,
{
    if n > 0 {
        lemma_joined_reads_prefix(a, b, n - 1);
    }
}

/// The boundary for the children of a node: the node's own lines, then the
/// boundary that the node was given.
pub fn inner_boundary(own: &[Segment], inherited: &[Segment]) -> (inner: Vec<Segment>)
    ensures
        inner@ == own@ + inherited@,
{
    let mut inner: Vec<Segment> = Vec::new();
    let mut i: usize = 0;
    while i < own.len()
        invariant
            i <= own@.len(),
            inner@ == own@.take(i as int),
        decreases own@.len() - i,
    {
        inner.push(own[i]);
        i += 1;
    }
    let mut j: usize = 0;
    while j < inherited.len()
        invariant
            j <= inherited@.len(),
            inner@ == own@ + inherited@.take(j as int),
        decreases inherited@.len() - j,
    {
        inner.push(inherited[j]);
        j += 1;
    }
    inner
}

/// The division lines of `tree`: those of the node itself, then those of
/// each child's subtree, in the order of the children.
///
/// For each child the engine computes the child's branch, casts a ray along
/// the branch's candidate against `bounds`, and keeps the candidate cut at
/// the nearest hit; a candidate that hits nothing is dropped. Each child's
/// subtree is then divided under the child's transform, with the same phase,
/// inside the node's own lines together with `bounds`. A leaf has no lines.
pub fn division_lines<K: Arithmetic>(
    tree: &Tree<Scalar>,
    transform: K::Transform,
    phase: Scalar,
    bounds: &[Segment],
) -> (lines: Vec<Segment>)
    ensures
        divides::<K>(*tree, transform, phase, bounds@, lines@),
        tree.children@.len() == 0 ==> lines@.len() == 0,
    decreases tree,
{
    let n = tree.children.len();
    let scaling = contraction_ratio(n);
    let mut segments: Vec<Segment> = Vec::new();
    let mut transforms: Vec<K::Transform> = Vec::new();
    let ghost mut branches: Seq<Branch<K::Transform>> = Seq::empty();
    let ghost mut rays: Seq<Ray> = Seq::empty();
    let ghost mut hits: Seq<Option<RayIntersection>> = Seq::empty();
    let mut i: usize = 0;
    while i < n
        invariant
            n == tree.children@.len(),
            scaling == ratio(n as nat),
            i <= n,
            transforms@.len() == i,
            branches.len() == i,
            rays.len() == i,
            hits.len() == i,
            segments@ == clipped(branches, hits, i as int),
            forall|j: int|
                0 <= j < i ==> (#[trigger] branches[j]).of::<K>(
                    transform,
                    ratio(n as nat),
                    j as usize,
                    n,
                    phase,
                    tree.value,
                ),
            forall|j: int| 0 <= j < i ==> branches[j].candidate.aims::<K>(#[trigger] rays[j]),
            forall|j: int| 0 <= j < i ==> rays[j].meets_first::<K>(bounds@, #[trigger] hits[j]),
            forall|j: int| 0 <= j < i ==> #[trigger] transforms@[j] == branches[j].child,
        decreases n - i,
    {
        let (candidate, child_transform) = branch::<K>(
            transform,
            scaling,
            i,
            n,
            phase,
            tree.value,
        );
        let ray = candidate.to_ray::<K>();
        let first = ray.intersect_first::<K>(bounds);
        proof {
            let b = choose|b: Branch<K::Transform>| #[trigger]
                b.of::<K>(transform, scaling, i, n, phase, tree.value) && (
                    candidate,
                    child_transform,
                ) == (b.candidate, b.child);
            lemma_clipped_reads_prefix(branches, hits, branches.push(b), hits.push(first), i as int);
            branches = branches.push(b);
            rays = rays.push(ray);
            hits = hits.push(first);
        }
        match first {
            Some(hit) => {
                segments.push(Segment::new(candidate.a, hit.point));
            },
            None => {},
        }
        transforms.push(child_transform);
        i += 1;
    }
    let new_bounds = inner_boundary(segments.as_slice(), bounds);
    let ghost own = segments@;
    let ghost mut calls: Seq<Division<K::Transform>> = Seq::empty();
    let mut k: usize = 0;
    while k < n
        invariant
            n == tree.children@.len(),
            k <= n,
            transforms@.len() == n,
            calls.len() == k,
            new_bounds@ == own + bounds@,
            segments@ == own + Division::joined(calls, k as int),
            forall|j: int|
                0 <= j < k ==> {
                    &&& (#[trigger] calls[j]).transform == transforms@[j]
                    &&& calls[j].boundary == new_bounds@
                    &&& calls[j].follows::<K>(tree.children@[j], phase)
                },
        decreases n - k,
    {
        let mut below = division_lines::<K>(
            &tree.children[k],
            transforms[k],
            phase,
            new_bounds.as_slice(),
        );
        proof {
            let call = choose|call: Division<K::Transform>|
                {
                    &&& call.transform == transforms@[k as int]
                    &&& call.boundary == new_bounds@
                    &&& #[trigger] call.follows::<K>(tree.children@[k as int], phase)
                    &&& call.lines() == below@
                };
            lemma_joined_reads_prefix(calls, calls.push(call), k as int);
            calls = calls.push(call);
        }
        segments.append(&mut below);
        k += 1;
    }
    proof {
        let call = Division {
            transform,
            boundary: bounds@,
            branches,
            rays,
            hits,
            children: calls,
        };
        assert(call.own() == own);
        assert forall|i: int| 0 <= i < n implies {
            &&& call.branches[i].of::<K>(
                call.transform,
                ratio(n as nat),
                i as usize,
                n,
                phase,
                tree.value,
            )
            &&& call.branches[i].candidate.aims::<K>(call.rays[i])
            &&& call.rays[i].meets_first::<K>(call.boundary, call.hits[i])
            &&& (#[trigger] call.children[i]).transform == call.branches[i].child
            &&& call.children[i].boundary == call.inner_boundary()
            &&& call.children[i].follows::<K>(tree.children@[i], phase)
        } by {
            assert(branches[i].of::<K>(transform, ratio(n as nat), i as usize, n, phase, tree.value));
            assert(branches[i].candidate.aims::<K>(rays[i]));
            assert(rays[i].meets_first::<K>(bounds@, hits[i]));
            assert(transforms@[i] == branches[i].child);
            assert(calls[i].transform == transforms@[i]);
        }
        assert(call.follows::<K>(*tree, phase));
        assert(call.lines() == segments@);
    }
    segments
}

/// On a node with fewer than 2 or more than 5 children the contraction ratio
/// is zero, and nothing fails: each child is scaled by what the arithmetic
/// gives for `0 * 0.99`, and so collapses to a point.
pub proof fn law_other_counts_collapse<K: Arithmetic>(
    call: Division<K::Transform>,
    tree: Tree<Scalar>,
    phase: Scalar,
    child: int,
)
    requires
        call.follows::<K>(tree, phase),
        0 <= child < call.children.len(),
        !(2 <= tree.children@.len() <= 5),
    ensures
        call_ensures(
            K::product,
            (Scalar { bits: 0 }, Scalar { bits: SLACK }),
            call.branches[child].shrunk,
        ),
        call_ensures(
            K::scaling,
            (Point2 { x: call.branches[child].shrunk, y: call.branches[child].shrunk },),
            call.branches[child].shrink,
        ),
        call_ensures(
            K::composed,
            (call.branches[child].shifted, call.branches[child].shrink),
            call.children[child].transform,
        ),
{
    assert(call.children[child].boundary == call.inner_boundary());
}

/// Every call in the record of a call that follows a tree follows its own
/// subtree: what is stated of a call and its children holds at every depth.
pub proof fn law_every_call_follows<K: Arithmetic>(
    call: Division<K::Transform>,
    tree: Tree<Scalar>,
    phase: Scalar,
    path: Seq<int>,
)
    requires
        call.follows::<K>(tree, phase),
        call.has(path),
    ensures
        tree.has(path),
        call.at(path).follows::<K>(tree.at(path), phase),
    decreases path.len(),
{
    if path.len() > 0 {
        law_every_call_follows::<K>(
            call.children[path[0]],
            tree.children@[path[0]],
            phase,
            path.drop_first(),
        );
    }
}

/// The boundary handed to a child holds the boundary handed to its parent:
/// it is the parent's own lines followed by the parent's boundary.
pub proof fn law_boundary_grows<K: Arithmetic>(
    call: Division<K::Transform>,
    tree: Tree<Scalar>,
    phase: Scalar,
    child: int,
)
    requires
        call.follows::<K>(tree, phase),
        0 <= child < call.children.len(),
    ensures
        call.children[child].boundary == call.own() + call.boundary,
        forall|s: Segment|
            call.boundary.contains(s) ==> #[trigger] call.children[child].boundary.contains(s),
{
    let inner = call.children[child].boundary;
    assert forall|s: Segment| call.boundary.contains(s) implies #[trigger] inner.contains(s) by {
        let j = choose|j: int| 0 <= j < call.boundary.len() && call.boundary[j] == s;
        assert(inner[call.own().len() + j] == s);
    }
}

/// The boundary handed to a call at any depth holds the boundary handed to
/// the call at the root.
pub proof fn law_boundary_never_shrinks<K: Arithmetic>(
    call: Division<K::Transform>,
    tree: Tree<Scalar>,
    phase: Scalar,
    path: Seq<int>,
)
    requires
        call.follows::<K>(tree, phase),
        call.has(path),
    ensures
        forall|s: Segment|
            call.boundary.contains(s) ==> #[trigger] call.at(path).boundary.contains(s),
    decreases path.len(),
{
    if path.len() > 0 {
        let below = call.children[path[0]];
        law_boundary_grows::<K>(call, tree, phase, path[0]);
        law_boundary_never_shrinks::<K>(below, tree.children@[path[0]], phase, path.drop_first());
        assert(call.at(path) == below.at(path.drop_first()));
        assert forall|s: Segment| call.boundary.contains(s) implies #[trigger] call.at(
            path,
        ).boundary.contains(s) by {
            assert(below.boundary.contains(s));
            assert(below.at(path.drop_first()).boundary.contains(s));
        }
    }
}

/// Each clipped line comes from one of the first `n` branches and its hit.
proof fn lemma_clipped_line_has_a_branch<T>(
    branches: Seq<Branch<T>>,
    hits: Seq<Option<RayIntersection>>,
    n: int,
    k: int,
)
    requires
        0 <= k < clipped(branches, hits, n).len(),
    ensures
        exists|i: int|
            {
                &&& 0 <= i < n
                &&& (#[trigger] hits[i]) is Some
                &&& clipped(branches, hits, n)[k] == Segment {
                    a: branches[i].candidate.a,
                    b: hits[i]->0.point,
                }
            },
    decreases n,
{
    if n > 0 {
        let before = clipped(branches, hits, n - 1);
        if k < before.len() {
            lemma_clipped_line_has_a_branch(branches, hits, n - 1, k);
            let i = choose|i: int|
                {
                    &&& 0 <= i < n - 1
                    &&& (#[trigger] hits[i]) is Some
                    &&& before[k] == Segment { a: branches[i].candidate.a, b: hits[i]->0.point }
                };
            assert(hits[i] is Some);
        } else {
            assert(hits[n - 1] is Some);
        }
    }
}

/// Each outcome that is the nearest of a run is an outcome of the run.
proof fn lemma_closest_is_an_outcome(outcomes: Seq<Option<RayIntersection>>)
    requires
        closest(outcomes) is Some,
    ensures
        exists|j: int| 0 <= j < outcomes.len() && #[trigger] outcomes[j] == closest(outcomes),
    decreases outcomes.len(),
{
    let before = outcomes.drop_last();
    let last = outcomes.len() - 1;
    if closest(outcomes) == outcomes[last] {
    } else {
        lemma_closest_is_an_outcome(before);
        let j = choose|j: int| 0 <= j < before.len() && #[trigger] before[j] == closest(before);
        assert(outcomes[j] == before[j]);
    }
}

/// `line` starts where the ray of child `i` starts and ends at the point
/// where that ray hits segment `j` of the call's boundary.
pub open spec fn ends_on<K: Arithmetic>(
    call: Division<K::Transform>,
    line: Segment,
    i: int,
    j: int,
) -> bool {
    &&& 0 <= i < call.rays.len()
    &&& 0 <= j < call.boundary.len()
    &&& line.a == call.rays[i].origin
    &&& exists|hit: RayIntersection|
        line.b == hit.point && #[trigger] call.rays[i].meets::<K>(call.boundary[j], Some(hit))
}

/// Each line that a call draws itself ends on the boundary that the call was
/// given: at the point where the ray along one of its candidates hits one of
/// the boundary's segments.
pub proof fn law_lines_end_on_boundary<K: Arithmetic>(
    call: Division<K::Transform>,
    tree: Tree<Scalar>,
    phase: Scalar,
    k: int,
)
    requires
        call.follows::<K>(tree, phase),
        0 <= k < call.own().len(),
    ensures
        exists|i: int, j: int| #[trigger] ends_on::<K>(call, call.own()[k], i, j),
{
    let n = call.branches.len() as int;
    lemma_clipped_line_has_a_branch(call.branches, call.hits, n, k);
    let i = choose|i: int|
        {
            &&& 0 <= i < n
            &&& (#[trigger] call.hits[i]) is Some
            &&& call.own()[k] == Segment {
                a: call.branches[i].candidate.a,
                b: call.hits[i]->0.point,
            }
        };
    let hit = call.hits[i]->0;
    let ray = call.rays[i];
    assert(call.children[i].boundary == call.inner_boundary());
    assert(ray.meets_first::<K>(call.boundary, Some(hit)));
    let outcomes = choose|outcomes: Seq<Option<RayIntersection>>| #[trigger]
        ray.meets_each::<K>(call.boundary, outcomes) && Some(hit) == closest(outcomes);
    lemma_closest_is_an_outcome(outcomes);
    let j = choose|j: int| 0 <= j < outcomes.len() && #[trigger] outcomes[j] == closest(outcomes);
    assert(ray.meets::<K>(call.boundary[j], Some(hit)));
    assert(ends_on::<K>(call, call.own()[k], i, j));
}

/// Each line of a call is one that some call in its record drew itself.
pub proof fn law_every_line_is_drawn<T>(call: Division<T>, k: int)
    requires
        0 <= k < call.lines().len(),
    ensures
        exists|path: Seq<int>, m: int|
            #![trigger call.at(path).own()[m]]
            call.has(path) && 0 <= m < call.at(path).own().len() && call.at(path).own()[m]
                == call.lines()[k],
    decreases call, 1int,
{
    if k < call.own().len() {
        let path = Seq::<int>::empty();
        assert(call.has(path) && call.at(path).own()[k] == call.lines()[k]);
    } else {
        lemma_every_joined_line_is_drawn(
            call.children,
            call.children.len() as int,
            k - call.own().len(),
        );
        let (c, path, m) = choose|c: int, path: Seq<int>, m: int|
            #![trigger call.children[c].at(path).own()[m]]
            0 <= c < call.children.len() && call.children[c].has(path) && 0 <= m
                < call.children[c].at(path).own().len() && call.children[c].at(path).own()[m]
                == Division::joined(call.children, call.children.len() as int)[k
                - call.own().len()];
        let whole = seq![c] + path;
        assert(whole.drop_first() == path);
        assert(call.has(whole) && call.at(whole).own()[m] == call.lines()[k]);
    }
}

proof fn lemma_every_joined_line_is_drawn<T>(calls: Seq<Division<T>>, n: int, k: int)
    requires
        0 <= n <= calls.len(),
        0 <= k < Division::joined(calls, n).len(),
    ensures
        exists|c: int, path: Seq<int>, m: int|
            #![trigger calls[c].at(path).own()[m]]
            0 <= c < n && calls[c].has(path) && 0 <= m < calls[c].at(path).own().len()
                && calls[c].at(path).own()[m] == Division::joined(calls, n)[k],
    decreases calls, n,
{
    let before = Division::joined(calls, n - 1);
    if k < before.len() {
        lemma_every_joined_line_is_drawn(calls, n - 1, k);
        let (c, path, m) = choose|c: int, path: Seq<int>, m: int|
            #![trigger calls[c].at(path).own()[m]]
            0 <= c < n - 1 && calls[c].has(path) && 0 <= m < calls[c].at(path).own().len()
                && calls[c].at(path).own()[m] == before[k];
        assert(0 <= c < n && calls[c].at(path).own()[m] == Division::joined(calls, n)[k]);
    } else {
        law_every_line_is_drawn(calls[n - 1], k - before.len());
        let (path, m) = choose|path: Seq<int>, m: int|
            #![trigger calls[n - 1].at(path).own()[m]]
            calls[n - 1].has(path) && 0 <= m < calls[n - 1].at(path).own().len() && calls[n
                - 1].at(path).own()[m] == calls[n - 1].lines()[k - before.len()];
        assert(calls[n - 1].at(path).own()[m] == Division::joined(calls, n)[k]);
    }
}

/// With an arithmetic that gives one result for one list of arguments, one
/// child has one candidate and one transform.
pub proof fn law_one_branch<K: Arithmetic>(
    b1: Branch<K::Transform>,
    b2: Branch<K::Transform>,
    transform: K::Transform,
    scaling: Scalar,
    index: usize,
    count: usize,
    phase: Scalar,
    value: Scalar,
)
    requires
        single_valued::<K>(),
        b1.of::<K>(transform, scaling, index, count, phase, value),
        b2.of::<K>(transform, scaling, index, count, phase, value),
    ensures
        b1 == b2,
{
    assert(b1.index == b2.index);
    assert(b1.count == b2.count);
    assert(b1.sector == b2.sector);
    assert(b1.turn == b2.turn);
    assert(b1.sway == b2.sway);
    assert(b1.angle == b2.angle);
    assert(b1.reach == b2.reach);
    assert(b1.arm == b2.arm);
    assert(b1.spin == b2.spin);
    assert(b1.outward == b2.outward);
    assert(b1.candidate.a == b2.candidate.a);
    assert(b1.candidate.b == b2.candidate.b);
    assert(b1.half_sector == b2.half_sector);
    assert(b1.align == b2.align);
    assert(b1.aligned == b2.aligned);
    assert(b1.shift == b2.shift);
    assert(b1.shifted == b2.shifted);
    assert(b1.shrunk == b2.shrunk);
    assert(b1.shrink == b2.shrink);
    assert(b1.child == b2.child);
}

/// With such an arithmetic, two calls on one tree with one transform, one
/// phase and one boundary draw the same lines.
pub proof fn law_one_record<K: Arithmetic>(
    c1: Division<K::Transform>,
    c2: Division<K::Transform>,
    tree: Tree<Scalar>,
    phase: Scalar,
)
    requires
        single_valued::<K>(),
        c1.follows::<K>(tree, phase),
        c2.follows::<K>(tree, phase),
        c1.transform == c2.transform,
        c1.boundary == c2.boundary,
    ensures
        c1.own() == c2.own(),
        c1.lines() == c2.lines(),
    decreases c1,
{
    let n = tree.children@.len() as int;
    assert forall|i: int| 0 <= i < n implies (#[trigger] c1.branches[i]) == c2.branches[i]
        && c1.hits[i] == c2.hits[i] by {
        assert(c1.children[i].boundary == c1.inner_boundary());
        assert(c2.children[i].boundary == c2.inner_boundary());
        law_one_branch::<K>(
            c1.branches[i],
            c2.branches[i],
            c1.transform,
            ratio(n as nat),
            i as usize,
            n as usize,
            phase,
            tree.value,
        );
        law_one_ray::<K>(c1.branches[i].candidate, c1.rays[i], c2.rays[i]);
        law_one_first_hit::<K>(c1.rays[i], c1.boundary, c1.hits[i], c2.hits[i]);
    }
    assert forall|i: int| 0 <= i < n implies (#[trigger] c1.hits[i]) == c2.hits[i] by {
        assert(c1.branches[i] == c2.branches[i]);
    }
    lemma_clipped_reads_prefix(c1.branches, c1.hits, c2.branches, c2.hits, n);
    assert forall|i: int| 0 <= i < n implies (#[trigger] c1.children[i]).lines()
        == c2.children[i].lines() by {
        assert(c2.children[i].boundary == c2.inner_boundary());
        assert(c1.branches[i] == c2.branches[i]);
        law_one_record::<K>(c1.children[i], c2.children[i], tree.children@[i], phase);
    }
    lemma_joined_reads_prefix(c1.children, c2.children, n);
}

/// Two results of the engine on one tree with one transform, one phase and
/// one boundary are equal, line by line, where the arithmetic gives one
/// result for one list of arguments.
pub proof fn law_division_is_determined<K: Arithmetic>(
    tree: Tree<Scalar>,
    transform: K::Transform,
    phase: Scalar,
    bounds: Seq<Segment>,
    lines1: Seq<Segment>,
    lines2: Seq<Segment>,
)
    requires
        single_valued::<K>(),
        divides::<K>(tree, transform, phase, bounds, lines1),
        divides::<K>(tree, transform, phase, bounds, lines2),
    ensures
        lines1 == lines2,
{
    let c1 = choose|call: Division<K::Transform>|
        {
            &&& call.transform == transform
            &&& call.boundary == bounds
            &&& #[trigger] call.follows::<K>(tree, phase)
            &&& call.lines() == lines1
        };
    let c2 = choose|call: Division<K::Transform>|
        {
            &&& call.transform == transform
            &&& call.boundary == bounds
            &&& #[trigger] call.follows::<K>(tree, phase)
            &&& call.lines() == lines2
        };
    law_one_record::<K>(c1, c2, tree, phase);
}

/// Each line of a result ends on the boundary of the call that drew it: some
/// call in the record drew the line itself, and the line ends at the point
/// where the ray along one of that call's candidates hits a segment of the
/// boundary that the call was given.
pub proof fn law_every_line_ends_on_a_boundary<K: Arithmetic>(
    call: Division<K::Transform>,
    tree: Tree<Scalar>,
    phase: Scalar,
    k: int,
)
    requires
        call.follows::<K>(tree, phase),
        0 <= k < call.lines().len(),
    ensures
        exists|path: Seq<int>, i: int, j: int|
            call.has(path) && #[trigger] ends_on::<K>(call.at(path), call.lines()[k], i, j),
{
    law_every_line_is_drawn(call, k);
    let (path, m) = choose|path: Seq<int>, m: int|
        #![trigger call.at(path).own()[m]]
        call.has(path) && 0 <= m < call.at(path).own().len() && call.at(path).own()[m]
            == call.lines()[k];
    law_every_call_follows::<K>(call, tree, phase, path);
    law_lines_end_on_boundary::<K>(call.at(path), tree.at(path), phase, m);
    let (i, j) = choose|i: int, j: int| #[trigger]
        ends_on::<K>(call.at(path), call.at(path).own()[m], i, j);
    assert(call.has(path) && ends_on::<K>(call.at(path), call.lines()[k], i, j));
}

} // verus!
