//! Axis-aligned bounding boxes: union, containment and the slab test.

use crate::scalar::{Scalar, INFINITY_MAGNITUDE};
use crate::vec3::Vec3;
use vstd::prelude::*;

verus! {

/// A box given by its two corners.
#[derive(Clone, Copy, Debug)]
pub struct Aabb {
    minimum: Vec3,
    maximum: Vec3,
}

/// The smaller of two values. A not-a-number side yields the other side;
/// of two equal numbers the second is returned.
pub open spec fn min_spec(a: Scalar, b: Scalar) -> Scalar {
    if a.is_nan_spec() {
        b
    } else if b.is_nan_spec() {
        a
    } else if a.lt_spec(b) {
        a
    } else {
        b
    }
}

/// The larger of two values, with the same rules as `min_spec`.
pub open spec fn max_spec(a: Scalar, b: Scalar) -> Scalar {
    if a.is_nan_spec() {
        b
    } else if b.is_nan_spec() {
        a
    } else if b.lt_spec(a) {
        a
    } else {
        b
    }
}

fn min(a: Scalar, b: Scalar) -> (r: Scalar)
    ensures
        r == min_spec(a, b),
{
    if a.is_nan() {
        return b;
    } else if b.is_nan() {
        return a;
    }
    if a.lt(b) {
        a
    } else {
        b
    }
}

fn max(a: Scalar, b: Scalar) -> (r: Scalar)
    ensures
        r == max_spec(a, b),
{
    if a.is_nan() {
        return b;
    } else if b.is_nan() {
        return a;
    }
    if b.lt(a) {
        a
    } else {
        b
    }
}

/// The per-axis quantities of the slab test, as the caller computed them for
/// one ray and one box: the reciprocal of the direction component and the
/// ray parameters at which the ray crosses the box's two planes on that axis.
#[derive(Clone, Copy, Debug)]
pub struct Slab {
    pub inv_d: Scalar,
    pub t0: Scalar,
    pub t1: Scalar,
}

impl Slab {
    /// Parameter at which the ray enters the slab: the crossings are swapped
    /// when the ray runs against the axis.
    pub open spec fn entry(self) -> Scalar {
        if self.inv_d.lt_spec(Scalar { code: 0 }) {
            self.t1
        } else {
            self.t0
        }
    }

    /// Parameter at which the ray leaves the slab.
    pub open spec fn exit(self) -> Scalar {
        if self.inv_d.lt_spec(Scalar { code: 0 }) {
            self.t0
        } else {
            self.t1
        }
    }

    /// The parameter window `(t_min, t_max)` cut down to this slab. A bound
    /// moves only when the slab's own bound is a number strictly inside.
    pub open spec fn narrow(self, t_min: Scalar, t_max: Scalar) -> (Scalar, Scalar) {
        (
            if t_min.lt_spec(self.entry()) {
                self.entry()
            } else {
                t_min
            },
            if self.exit().lt_spec(t_max) {
                self.exit()
            } else {
                t_max
            },
        )
    }
}

/// Whether the window survives every slab in turn: after each cut the upper
/// bound must still lie strictly above the lower one.
pub open spec fn slabs_overlap(slabs: Seq<Slab>, t_min: Scalar, t_max: Scalar) -> bool
    decreases slabs.len(),
{
    if slabs.len() == 0 {
        true
    } else {
        let w = slabs[0].narrow(t_min, t_max);
        !w.1.le_spec(w.0) && slabs_overlap(slabs.drop_first(), w.0, w.1)
    }
}

impl Aabb {
    /// The corner with the smallest coordinates.
    pub closed spec fn lo(self) -> Vec3 {
        self.minimum
    }

    /// The corner with the largest coordinates.
    pub closed spec fn hi(self) -> Vec3 {
        self.maximum
    }

    /// On axis `c` both bounds are numbers and the lower does not exceed the
    /// upper.
    pub open spec fn ordered_on(self, c: int) -> bool {
        self.lo().coords()[c].le_spec(self.hi().coords()[c])
    }

    /// The box is ordered on each of the three axes.
    pub open spec fn is_ordered(self) -> bool {
        self.ordered_on(0) && self.ordered_on(1) && self.ordered_on(2)
    }

    /// On axis `c`, `other` lies inside `self`.
    pub open spec fn contains_on(self, other: Aabb, c: int) -> bool {
        self.lo().coords()[c].le_spec(other.lo().coords()[c]) && other.hi().coords()[c].le_spec(
            self.hi().coords()[c],
        )
    }

    /// `other` lies inside `self` on every axis.
    pub open spec fn contains(self, other: Aabb) -> bool {
        self.contains_on(other, 0) && self.contains_on(other, 1) && self.contains_on(other, 2)
    }

    /// The degenerate box at the origin.
    pub fn new() -> (r: Aabb)
        ensures
            r.lo().coords() == seq![Scalar { code: 0 }, Scalar { code: 0 }, Scalar { code: 0 }],
            r.hi().coords() == seq![Scalar { code: 0 }, Scalar { code: 0 }, Scalar { code: 0 }],
    {
        Aabb { minimum: Vec3::new(), maximum: Vec3::new() }
    }

    /// The box with corners `a` and `b`, taken as given.
    pub fn from(a: &Vec3, b: &Vec3) -> (r: Aabb)
        ensures
            r.lo() == *a,
            r.hi() == *b,
    {
        Aabb { minimum: *a, maximum: *b }
    }

    pub fn min(&self) -> (r: Vec3)
        ensures
            r == self.lo(),
    {
        self.minimum
    }

    pub fn max(&self) -> (r: Vec3)
        ensures
            r == self.hi(),
    {
        self.maximum
    }

    /// The corner that takes its coordinate from the upper bound on exactly
    /// the axes whose flag is set.
    pub fn corner(&self, upper_x: bool, upper_y: bool, upper_z: bool) -> (r: Vec3)
        ensures
            r.coords() == seq![
                if upper_x {
                    self.hi().coords()[0]
                } else {
                    self.lo().coords()[0]
                },
                if upper_y {
                    self.hi().coords()[1]
                } else {
                    self.lo().coords()[1]
                },
                if upper_z {
                    self.hi().coords()[2]
                } else {
                    self.lo().coords()[2]
                },
            ],
    {
        Vec3::from(
            if upper_x {
                self.maximum.x()
            } else {
                self.minimum.x()
            },
            if upper_y {
                self.maximum.y()
            } else {
                self.minimum.y()
            },
            if upper_z {
                self.maximum.z()
            } else {
                self.minimum.z()
            },
        )
    }

    /// The smallest box that holds all `points`: on each axis the bounds
    /// start at plus and minus infinity and are lowered and raised by each
    /// point in turn.
    pub fn enclosing(points: &Vec<Vec3>) -> (r: Aabb)
        ensures
            forall|c: int|
                0 <= c < 3 ==> (#[trigger] r.lo().coords()[c]) == lowest(points@, c)
                    && r.hi().coords()[c] == highest(points@, c),
    {
        let mut lo = [
            Scalar { code: INFINITY_MAGNITUDE },
            Scalar { code: INFINITY_MAGNITUDE },
            Scalar { code: INFINITY_MAGNITUDE },
        ];
        let mut hi = [
            Scalar { code: -1 - INFINITY_MAGNITUDE },
            Scalar { code: -1 - INFINITY_MAGNITUDE },
            Scalar { code: -1 - INFINITY_MAGNITUDE },
        ];
        for n in 0..points.len()
            invariant
                forall|c: int|
                    0 <= c < 3 ==> (#[trigger] lo@[c]) == lowest(points@.take(n as int), c)
                        && hi@[c] == highest(points@.take(n as int), c),
        {
            let tester = points[n];
            let ghost before_lo = lo@;
            let ghost before_hi = hi@;
            for c in 0..3usize
                invariant
                    n < points@.len(),
                    before_lo.len() == 3,
                    before_hi.len() == 3,
                    tester == points@[n as int],
                    forall|a: int|
                        0 <= a < c ==> (#[trigger] lo@[a]) == min_spec(
                            before_lo[a],
                            tester.coords()[a],
                        ) && hi@[a] == max_spec(before_hi[a], tester.coords()[a]),
                    forall|a: int|
                        c <= a < 3 ==> (#[trigger] lo@[a]) == before_lo[a] && hi@[a]
                            == before_hi[a],
            {
                let ghost mid_lo = lo@;
                let ghost mid_hi = hi@;
                assert(mid_lo[c as int] == before_lo[c as int]);
                assert(mid_hi[c as int] == before_hi[c as int]);
                lo[c] = min(lo[c], tester.get_at(c));
                hi[c] = max(hi[c], tester.get_at(c));
                assert forall|a: int| 0 <= a < 3 && a != c implies lo@[a] == mid_lo[a] && hi@[a]
                    == mid_hi[a] by {}
            }
            proof {
                assert(points@.take(n + 1).drop_last() == points@.take(n as int));
                assert(points@.take(n + 1).last() == points@[n as int]);
                assert forall|c: int| 0 <= c < 3 implies (#[trigger] lo@[c]) == lowest(
                    points@.take(n + 1),
                    c,
                ) && hi@[c] == highest(points@.take(n + 1), c) by {
                    assert(before_lo[c] == lowest(points@.take(n as int), c));
                    assert(before_hi[c] == highest(points@.take(n as int), c));
                }
            }
        }
        proof {
            assert(points@.take(points@.len() as int) == points@);
        }
        Aabb { minimum: Vec3 { e: lo }, maximum: Vec3 { e: hi } }
    }

    /// The slab test on the three axes' quantities: whether the part of the
    /// ray between `t_min` and `t_max` passes through the box.
    pub fn hit(slabs: &[Slab; 3], t_min: Scalar, t_max: Scalar) -> (r: bool)
        ensures
            r == slabs_overlap(slabs@, t_min, t_max),
    {
        let mut lo = t_min;
        let mut hi = t_max;
        assert(slabs@.skip(0) == slabs@);
        for i in 0..3
            invariant
                slabs_overlap(slabs@, t_min, t_max) == slabs_overlap(slabs@.skip(i as int), lo, hi),
        {
            let inv_d = slabs[i].inv_d;
            let mut t0 = slabs[i].t0;
            let mut t1 = slabs[i].t1;
            if inv_d.lt(Scalar::zero()) {
                let prev_t0 = t0;
                t0 = t1;
                t1 = prev_t0;
            }
            proof {
                assert(slabs@.skip(i as int)[0] == slabs@[i as int]);
                assert(slabs@.skip(i as int).drop_first() == slabs@.skip(i + 1));
                assert(slabs@[i as int].narrow(lo, hi) == (
                    if lo.lt_spec(t0) {
                        t0
                    } else {
                        lo
                    },
                    if t1.lt_spec(hi) {
                        t1
                    } else {
                        hi
                    },
                ));
            }
            lo = if lo.lt(t0) { t0 } else { lo };
            hi = if t1.lt(hi) { t1 } else { hi };
            if hi.le(lo) {
                return false;
            }
        }
        assert(slabs@.skip(3) == Seq::<Slab>::empty());
        true
    }
}

/// The lower bound on axis `c` of the box around `points`.
pub open spec fn lowest(points: Seq<Vec3>, c: int) -> Scalar
    decreases points.len(),
{
    if points.len() == 0 {
        Scalar { code: INFINITY_MAGNITUDE }
    } else {
        min_spec(lowest(points.drop_last(), c), points.last().coords()[c])
    }
}

/// The upper bound on axis `c` of the box around `points`.
pub open spec fn highest(points: Seq<Vec3>, c: int) -> Scalar
    decreases points.len(),
{
    if points.len() == 0 {
        Scalar { code: (-1 - INFINITY_MAGNITUDE) as i32 }
    } else {
        max_spec(highest(points.drop_last(), c), points.last().coords()[c])
    }
}

/// On axis `c`, the lower bound of `r` is the smaller of the two lower
/// bounds and its upper bound the larger of the two upper bounds.
pub open spec fn surrounds_on(r: Aabb, box0: Aabb, box1: Aabb, c: int) -> bool {
    &&& r.lo().coords()[c] == min_spec(box0.lo().coords()[c], box1.lo().coords()[c])
    &&& r.hi().coords()[c] == max_spec(box0.hi().coords()[c], box1.hi().coords()[c])
}

/// `r` is the smallest box around `box0` and `box1`.
pub open spec fn is_surrounding_box(r: Aabb, box0: Aabb, box1: Aabb) -> bool {
    surrounds_on(r, box0, box1, 0) && surrounds_on(r, box0, box1, 1) && surrounds_on(
        r,
        box0,
        box1,
        2,
    )
}

/// The smallest box around two boxes.
pub fn surrounding_box(box0: &Aabb, box1: &Aabb) -> (r: Aabb)
    ensures
        is_surrounding_box(r, *box0, *box1),
{
    let small = Vec3::from(
        min(box0.min().x(), box1.min().x()),
        min(box0.min().y(), box1.min().y()),
        min(box0.min().z(), box1.min().z()),
    );
    let big = Vec3::from(
        max(box0.max().x(), box1.max().x()),
        max(box0.max().y(), box1.max().y()),
        max(box0.max().z(), box1.max().z()),
    );
    Aabb::from(&small, &big)
}

/// The union of two ordered boxes is ordered and contains both, and it is
/// the least such box: any box that contains both contains the union.
pub proof fn lemma_surrounding_box_is_least(box0: Aabb, box1: Aabb, r: Aabb, outer: Aabb)
    requires
        box0.is_ordered(),
        box1.is_ordered(),
        is_surrounding_box(r, box0, box1),
    ensures
        r.is_ordered(),
        r.contains(box0),
        r.contains(box1),
        outer.contains(box0) && outer.contains(box1) ==> outer.contains(r),
{
}

/// Containment is transitive.
pub proof fn lemma_contains_is_transitive(a: Aabb, b: Aabb, c: Aabb)
    requires
        a.contains(b),
        b.contains(c),
    ensures
        a.contains(c),
{
}

/// An ordered box contains itself.
pub proof fn lemma_ordered_box_contains_itself(a: Aabb)
    requires
        a.is_ordered(),
    ensures
        a.contains(a),
{
}

/// The slab test as an intersection of intervals.
///
/// The lower bounds are `t_min` and the three entries, the upper bounds
/// `t_max` and the three exits. A bound that is not a number bounds nothing:
/// it arises where the ray runs along a face of the box, and the slab then
/// leaves the window as it is. For a window of numbers the box is hit
/// exactly when every lower bound that is a number lies strictly below every
/// upper bound that is one, that is, when the parameter interval common to
/// the window and the three slabs is not empty.
pub proof fn lemma_slab_test_is_interval_intersection(
    a: Slab,
    b: Slab,
    c: Slab,
    t_min: Scalar,
    t_max: Scalar,
)
    requires
        !t_min.is_nan_spec(),
        !t_max.is_nan_spec(),
    ensures
        slabs_overlap(seq![a, b, c], t_min, t_max) <==> (forall|lower: Scalar, upper: Scalar|
            (lower == t_min || lower == a.entry() || lower == b.entry() || lower == c.entry()) && (
            upper == t_max || upper == a.exit() || upper == b.exit() || upper == c.exit())
                && !lower.is_nan_spec() && !upper.is_nan_spec() ==> lower.rank() < upper.rank()),
{
    let s = seq![a, b, c];
    let w1 = a.narrow(t_min, t_max);
    let w2 = b.narrow(w1.0, w1.1);
    let w3 = c.narrow(w2.0, w2.1);
    assert(s.drop_first() == seq![b, c]);
    assert(s.drop_first().drop_first() == seq![c]);
    assert(s.drop_first().drop_first().drop_first() == Seq::<Slab>::empty());
    reveal_with_fuel(slabs_overlap, 4);
    assert(slabs_overlap(s, t_min, t_max) == (!w1.1.le_spec(w1.0) && !w2.1.le_spec(w2.0)
        && !w3.1.le_spec(w3.0)));
}

} // verus!
