//! The bounding-volume hierarchy: a binary tree of boxes over the objects of
//! a scene, built by sorting along an axis and splitting at the middle, and
//! searched for the closest hit.

use crate::aabb::{
    is_surrounding_box, lemma_contains_is_transitive, lemma_ordered_box_contains_itself,
    lemma_surrounding_box_is_least, surrounding_box, Aabb,
};
use crate::closest::{
    crossings_are_numbers, kept_hit, lemma_scan_concat, lemma_scan_of_unreachable,
    lemma_scan_parameter_ignores_order, reaches, scan_value, window_after,
};
use crate::hittable_list::{latest_hit, lemma_exact_scan_finds_value, HittableList};
use crate::scalar::Scalar;
use crate::utils::random_int;
use vstd::prelude::*;

verus! {

/// An object together with its bounding box.
pub struct Bounded<T> {
    pub object: T,
    pub bounds: Aabb,
}

impl<T: Copy> Clone for Bounded<T> {
    fn clone(&self) -> (r: Self)
        ensures
            r == *self,
    {
        *self
    }
}

impl<T: Copy> Copy for Bounded<T> {

}

/// A child of a node: an object of the scene, or a further node.
pub enum BvhChild<T> {
    Object(Bounded<T>),
    Node(Box<BvhNode<T>>),
}

/// A node of the hierarchy: two children and the box around both.
pub struct BvhNode<T> {
    pub left: BvhChild<T>,
    pub right: BvhChild<T>,
    pub boxx: Aabb,
}

/// Every key on `axis` before `mid` is at most every key from `mid` on.
pub open spec fn partitioned_on<T>(
    s: Seq<Bounded<T>>,
    start: int,
    mid: int,
    end: int,
    axis: int,
) -> bool {
    forall|i: int, j: int|
        start <= i < mid <= j < end ==> axis_key(#[trigger] s[i].bounds, axis) <= axis_key(
            #[trigger] s[j].bounds,
            axis,
        )
}

/// The lower bound of `right` on `axis` is not a number below that of `left`.
pub open spec fn in_order_on(left: Aabb, right: Aabb, axis: int) -> bool {
    !right.lo().coords()[axis].lt_spec(left.lo().coords()[axis])
}

impl<T> BvhChild<T> {
    /// The box of the child: the object's own, or the node's.
    pub open spec fn bounds(self) -> Aabb {
        match self {
            BvhChild::Object(item) => item.bounds,
            BvhChild::Node(node) => node.boxx,
        }
    }

    /// The objects below the child, from left to right.
    pub open spec fn leaves(self) -> Seq<Bounded<T>>
        decreases self,
    {
        match self {
            BvhChild::Object(item) => seq![item],
            BvhChild::Node(node) => node.leaves(),
        }
    }

    /// Every node below has the union of its children's boxes as its box.
    pub open spec fn wf(self) -> bool
        decreases self,
    {
        match self {
            BvhChild::Object(item) => true,
            BvhChild::Node(node) => node.wf(),
        }
    }
}

impl<T> BvhNode<T> {
    /// The objects below the node, from left to right. A node over a single
    /// object lists it twice, once for each child.
    pub open spec fn leaves(self) -> Seq<Bounded<T>>
        decreases self,
    {
        self.left.leaves() + self.right.leaves()
    }

    /// The node's box is the union of its children's boxes, and so on below.
    pub open spec fn wf(self) -> bool
        decreases self,
    {
        &&& self.left.wf()
        &&& self.right.wf()
        &&& is_surrounding_box(self.boxx, self.left.bounds(), self.right.bounds())
    }

    /// The node is the hierarchy over the objects of `s` from `start` up to
    /// `end`, in the order in which they stand there: one object is both
    /// children; two objects are the left and the right child, in order on
    /// some axis; more are split at the middle into two subtrees, with the
    /// span partitioned on some axis.
    pub open spec fn built_from(self, s: Seq<Bounded<T>>, start: int, end: int) -> bool
        decreases self,
    {
        if end - start == 1 {
            &&& self.left == BvhChild::Object(s[start])
            &&& self.right == BvhChild::Object(s[start])
        } else if end - start == 2 {
            &&& self.left == BvhChild::Object(s[start])
            &&& self.right == BvhChild::Object(s[start + 1])
            &&& exists|axis: int|
                0 <= axis < 3 && #[trigger] in_order_on(s[start].bounds, s[start + 1].bounds, axis)
        } else {
            let mid = start + (end - start) / 2;
            &&& end - start > 2
            &&& self.left matches BvhChild::Node(l)
            &&& l.built_from(s, start, mid)
            &&& self.right matches BvhChild::Node(r)
            &&& r.built_from(s, mid, end)
            &&& exists|axis: int| 0 <= axis < 3 && #[trigger] partitioned_on(s, start, mid, end, axis)
        }
    }
}

impl<T> BvhChild<T> {
    /// `rec` is a possible outcome of searching the child on the window from
    /// `t_min` to `t_max`.
    pub open spec fn is_hit<
        R,
        H,
        FB: Fn(&Aabb, &R, Scalar, Scalar) -> bool,
        F: Fn(&T, &R, Scalar, Scalar) -> Option<(Scalar, H)>,
    >(
        self,
        r: &R,
        t_min: Scalar,
        t_max: Scalar,
        box_test: &FB,
        probe: &F,
        rec: Option<(Scalar, H)>,
    ) -> bool
        decreases self,
    {
        match self {
            BvhChild::Object(item) => probe.ensures((&item.object, r, t_min, t_max), rec),
            BvhChild::Node(node) => node.is_hit(r, t_min, t_max, box_test, probe, rec),
        }
    }
}

impl<T> BvhNode<T> {
    /// `rec` is a possible outcome of searching the node on the window from
    /// `t_min` to `t_max`: no hit where the box test fails; else the hit kept
    /// after the left child was searched on the whole window and the right
    /// child on the window up to the left child's hit.
    pub open spec fn is_hit<
        R,
        H,
        FB: Fn(&Aabb, &R, Scalar, Scalar) -> bool,
        F: Fn(&T, &R, Scalar, Scalar) -> Option<(Scalar, H)>,
    >(
        self,
        r: &R,
        t_min: Scalar,
        t_max: Scalar,
        box_test: &FB,
        probe: &F,
        rec: Option<(Scalar, H)>,
    ) -> bool
        decreases self,
    {
        ||| box_test.ensures((&self.boxx, r, t_min, t_max), false) && rec is None
        ||| box_test.ensures((&self.boxx, r, t_min, t_max), true) && exists|
            hit_left: Option<(Scalar, H)>,
            hit_right: Option<(Scalar, H)>,
        |
            {
                &&& self.left.is_hit(r, t_min, t_max, box_test, probe, hit_left)
                &&& self.right.is_hit(
                    r,
                    t_min,
                    window_after(hit_left, t_max),
                    box_test,
                    probe,
                    hit_right,
                )
                &&& rec == #[trigger] kept_hit(hit_left, hit_right)
            }
    }

    /// The box test may be called on the box of this node and of every node
    /// below, on any window that starts at `t_min`.
    pub open spec fn can_test<R, FB: Fn(&Aabb, &R, Scalar, Scalar) -> bool>(
        self,
        r: &R,
        t_min: Scalar,
        box_test: &FB,
    ) -> bool
        decreases self,
    {
        &&& forall|upper: Scalar| #[trigger] box_test.requires((&self.boxx, r, t_min, upper))
        &&& self.left.can_test(r, t_min, box_test)
        &&& self.right.can_test(r, t_min, box_test)
    }

    /// Both closures may be called on everything the search can reach: the
    /// box test on the boxes of the nodes, the probe on the objects.
    pub open spec fn can_search<
        R,
        H,
        FB: Fn(&Aabb, &R, Scalar, Scalar) -> bool,
        F: Fn(&T, &R, Scalar, Scalar) -> Option<(Scalar, H)>,
    >(self, r: &R, t_min: Scalar, box_test: &FB, probe: &F) -> bool {
        &&& self.can_test(r, t_min, box_test)
        &&& forall|i: int, upper: Scalar|
            0 <= i < self.leaves().len() ==> #[trigger] probe.requires(
                (&self.leaves()[i].object, r, t_min, upper),
            )
    }
}

impl<T> BvhChild<T> {
    /// The box test may be called on the box of every node below.
    pub open spec fn can_test<R, FB: Fn(&Aabb, &R, Scalar, Scalar) -> bool>(
        self,
        r: &R,
        t_min: Scalar,
        box_test: &FB,
    ) -> bool
        decreases self,
    {
        match self {
            BvhChild::Object(item) => true,
            BvhChild::Node(node) => node.can_test(r, t_min, box_test),
        }
    }
}

/// The objects of a sequence of measured objects, without their boxes.
pub open spec fn objects_of<T>(s: Seq<Bounded<T>>) -> Seq<T> {
    Seq::new(s.len(), |i: int| s[i].object)
}

/// No object of `items` can be reached on a window that ends at `upper`.
pub open spec fn all_unreachable<T, H>(
    items: Seq<Bounded<T>>,
    crossing: spec_fn(T) -> Option<(Scalar, H)>,
    upper: Scalar,
) -> bool {
    forall|i: int|
        0 <= i < items.len() ==> reaches(crossing((#[trigger] items[i]).object), upper) is None
}

impl<T> BvhChild<T> {
    /// What the search finds below the child, for exact probes and an exact
    /// box test `crossed`.
    pub open spec fn value<H>(
        self,
        crossing: spec_fn(T) -> Option<(Scalar, H)>,
        crossed: spec_fn(Aabb, Scalar) -> bool,
        upper: Scalar,
    ) -> Option<(Scalar, H)>
        decreases self,
    {
        match self {
            BvhChild::Object(item) => reaches(crossing(item.object), upper),
            BvhChild::Node(node) => node.value(crossing, crossed, upper),
        }
    }

    /// Every node below is conservative.
    pub open spec fn is_conservative<H>(
        self,
        crossing: spec_fn(T) -> Option<(Scalar, H)>,
        crossed: spec_fn(Aabb, Scalar) -> bool,
    ) -> bool
        decreases self,
    {
        match self {
            BvhChild::Object(item) => true,
            BvhChild::Node(node) => node.is_conservative(crossing, crossed),
        }
    }
}

impl<T> BvhNode<T> {
    /// What the search finds below the node, for exact probes and an exact
    /// box test `crossed`.
    pub open spec fn value<H>(
        self,
        crossing: spec_fn(T) -> Option<(Scalar, H)>,
        crossed: spec_fn(Aabb, Scalar) -> bool,
        upper: Scalar,
    ) -> Option<(Scalar, H)>
        decreases self,
    {
        if !crossed(self.boxx, upper) {
            None
        } else {
            let hit_left = self.left.value(crossing, crossed, upper);
            let hit_right = self.right.value(crossing, crossed, window_after(hit_left, upper));
            kept_hit(hit_left, hit_right)
        }
    }

    /// The box test never fails on a window in which an object below the
    /// node can be reached, here and at every node below.
    pub open spec fn is_conservative<H>(
        self,
        crossing: spec_fn(T) -> Option<(Scalar, H)>,
        crossed: spec_fn(Aabb, Scalar) -> bool,
    ) -> bool
        decreases self,
    {
        &&& self.left.is_conservative(crossing, crossed)
        &&& self.right.is_conservative(crossing, crossed)
        &&& forall|upper: Scalar|
            !#[trigger] crossed(self.boxx, upper) ==> all_unreachable(
                self.leaves(),
                crossing,
                upper,
            )
    }
}

/// The code of a box's lower bound on `axis`: the key by which a span of
/// objects is put in order.
pub open spec fn axis_key(b: Aabb, axis: int) -> int {
    b.lo().coords()[axis].code as int
}

/// The keys on `axis` do not decrease from `start` up to `end`.
pub open spec fn sorted_on<T>(s: Seq<Bounded<T>>, start: int, end: int, axis: int) -> bool {
    forall|i: int, j: int|
        start <= i <= j < end ==> axis_key(#[trigger] s[i].bounds, axis) <= axis_key(
            #[trigger] s[j].bounds,
            axis,
        )
}

/// The lower bound of `a` on `axis` is a number below that of `b`.
pub open spec fn box_lt(a: Aabb, b: Aabb, axis: int) -> bool {
    a.lo().coords()[axis].lt_spec(b.lo().coords()[axis])
}

/// Whether the lower bound of `a` on `axis` is a number below that of `b`.
fn box_compare(a: &Aabb, b: &Aabb, axis: usize) -> (r: bool)
    requires
        axis < 3,
    ensures
        r == box_lt(*a, *b, axis as int),
{
    a.min().get_at(axis).lt(b.min().get_at(axis))
}

fn key_of<T>(item: &Bounded<T>, axis: usize) -> (k: i32)
    requires
        axis < 3,
    ensures
        k == axis_key(item.bounds, axis as int),
{
    item.bounds.min().get_at(axis).code
}

/// Exchanging two entries of a span keeps what the span holds.
proof fn lemma_swap_keeps_span<A>(s: Seq<A>, start: int, end: int, a: int, b: int)
    requires
        0 <= start <= a < end <= s.len(),
        start <= b < end,
    ensures
        s.update(a, s[b]).update(b, s[a]).subrange(start, end).to_multiset() == s.subrange(
            start,
            end,
        ).to_multiset(),
{
    broadcast use vstd::multiset::group_multiset_axioms;

    let span = s.subrange(start, end);
    assert(span.len() == end - start);
    let x = span[a - start];
    let y = span[b - start];
    let once = span.update(a - start, y);
    assert(once.len() == span.len());
    let twice = once.update(b - start, x);
    assert(s.update(a, s[b]).update(b, s[a]).subrange(start, end) == twice);
    if a == b {
        assert(twice == span);
    } else {
        vstd::seq_lib::to_multiset_update(span, a - start, y);
        vstd::seq_lib::to_multiset_update(once, b - start, x);
        vstd::seq_lib::to_multiset_contains(span, x);
        vstd::seq_lib::to_multiset_contains(once, y);
        assert(span.contains(x));
        assert(once[b - start] == y);
        assert(once.contains(y));
        assert forall|v: A| twice.to_multiset().count(v) == span.to_multiset().count(v) by {
            assert(once.to_multiset().count(v) == span.to_multiset().insert(y).remove(x).count(v));
            assert(twice.to_multiset().count(v) == once.to_multiset().insert(x).remove(y).count(v));
        }
        assert(twice.to_multiset() =~= span.to_multiset());
    }
}

/// Puts the objects from `start` up to `end` in order of their keys on
/// `axis`, leaving the rest of the vector alone.
pub fn sort_span<T: Copy>(src: &mut Vec<Bounded<T>>, start: usize, end: usize, axis: usize)
    requires
        start <= end <= old(src).len(),
        axis < 3,
    ensures
        final(src).len() == old(src).len(),
        final(src)@.subrange(start as int, end as int).to_multiset() == old(src)@.subrange(
            start as int,
            end as int,
        ).to_multiset(),
        forall|i: int|
            0 <= i < start || end <= i < old(src).len() ==> final(src)@[i] == old(src)@[i],
        sorted_on(final(src)@, start as int, end as int, axis as int),
{
    if end - start < 2 {
        return ;
    }
    let mut i: usize = start + 1;
    while i < end
        invariant
            start < i <= end <= src.len(),
            axis < 3,
            src.len() == old(src).len(),
            src@.subrange(start as int, end as int).to_multiset() == old(src)@.subrange(
                start as int,
                end as int,
            ).to_multiset(),
            forall|k: int| 0 <= k < start || end <= k < src.len() ==> src@[k] == old(src)@[k],
            sorted_on(src@, start as int, i as int, axis as int),
        decreases end - i,
    {
        let mut j: usize = i;
        while j > start && key_of(&src[j], axis) < key_of(&src[j - 1], axis)
            invariant
                start <= j <= i < end <= src.len(),
                axis < 3,
                src.len() == old(src).len(),
                src@.subrange(start as int, end as int).to_multiset() == old(src)@.subrange(
                    start as int,
                    end as int,
                ).to_multiset(),
                forall|k: int| 0 <= k < start || end <= k < src.len() ==> src@[k] == old(src)@[k],
                forall|a: int, b: int|
                    start <= a <= b <= i && a != j && b != j ==> axis_key(
                        #[trigger] src@[a].bounds,
                        axis as int,
                    ) <= axis_key(#[trigger] src@[b].bounds, axis as int),
                forall|b: int|
                    j < b <= i ==> axis_key(src@[j as int].bounds, axis as int) <= axis_key(
                        #[trigger] src@[b].bounds,
                        axis as int,
                    ),
            decreases j,
        {
            let ghost before = src@;
            let lower = src[j - 1];
            let upper = src[j];
            src.set(j - 1, upper);
            src.set(j, lower);
            proof {
                lemma_swap_keeps_span(before, start as int, end as int, j - 1, j as int);
                assert(src@ == before.update(j - 1, before[j as int]).update(
                    j as int,
                    before[j - 1],
                ));
            }
            j = j - 1;
        }
        i = i + 1;
    }
}

/// The box that stands in for an object without bounds: both corners at the
/// origin.
pub open spec fn is_origin_box(b: Aabb) -> bool {
    forall|c: int|
        0 <= c < 3 ==> (#[trigger] b.lo().coords()[c]).code == 0 && b.hi().coords()[c].code == 0
}

/// `items` pairs the first `items.len()` objects of the list, in order, each
/// with a box that `bounds` can report for it over the time interval, or
/// with the origin box where `bounds` can report none.
pub open spec fn is_measured<T, F: Fn(&T, Scalar, Scalar) -> Option<Aabb>>(
    objects: Seq<T>,
    time0: Scalar,
    time1: Scalar,
    bounds: F,
    items: Seq<Bounded<T>>,
) -> bool {
    &&& items.len() <= objects.len()
    &&& forall|i: int|
        0 <= i < items.len() ==> (#[trigger] items[i]).object == objects[i] && (bounds.ensures(
            (&objects[i], time0, time1),
            Some(items[i].bounds),
        ) || (bounds.ensures((&objects[i], time0, time1), None) && is_origin_box(
            items[i].bounds,
        )))
}

/// Arranges the span from `start` up to `end` for a split on `axis`: a pair
/// is put in order by `box_compare`, a longer span is sorted by key.
pub fn arrange_span<T: Copy>(src: &mut Vec<Bounded<T>>, start: usize, end: usize, axis: usize)
    requires
        start < end <= old(src).len(),
        axis < 3,
    ensures
        final(src).len() == old(src).len(),
        final(src)@.subrange(start as int, end as int).to_multiset() == old(src)@.subrange(
            start as int,
            end as int,
        ).to_multiset(),
        forall|i: int|
            0 <= i < start || end <= i < old(src).len() ==> final(src)@[i] == old(src)@[i],
        end - start == 1 ==> final(src)@ == old(src)@,
        end - start == 2 ==> in_order_on(
            final(src)@[start as int].bounds,
            final(src)@[start + 1].bounds,
            axis as int,
        ) && (if box_lt(
            old(src)@[start as int].bounds,
            old(src)@[start + 1].bounds,
            axis as int,
        ) {
            final(src)@ == old(src)@
        } else {
            final(src)@[start as int] == old(src)@[start + 1] && final(src)@[start + 1] == old(
                src,
            )@[start as int]
        }),
        end - start > 2 ==> sorted_on(final(src)@, start as int, end as int, axis as int),
{
    let object_span = end - start;
    if object_span == 1 {
    } else if object_span == 2 {
        let first = src[start];
        let second = src[start + 1];
        if !box_compare(&first.bounds, &second.bounds, axis) {
            let ghost before = src@;
            src.set(start, second);
            src.set(start + 1, first);
            proof {
                lemma_swap_keeps_span(before, start as int, end as int, start as int, start + 1);
                assert(src@ == before.update(start as int, before[start + 1]).update(
                    start + 1,
                    before[start as int],
                ));
            }
        }
    } else {
        sort_span(src, start, end, axis);
    }
}

impl<T: Copy> BvhNode<T> {
    /// The box around everything below the node.
    pub fn bounding_box(&self) -> (r: Aabb)
        ensures
            r == self.boxx,
    {
        self.boxx
    }

    /// The closest hit of the ray below the node, on the window from `t_min`
    /// to `t_max`.
    ///
    /// `box_test` says whether the ray crosses a box on a window, `probe`
    /// intersects one object. Nothing below a box that fails the test is
    /// searched.
    pub fn hit<
        R,
        H,
        FB: Fn(&Aabb, &R, Scalar, Scalar) -> bool,
        F: Fn(&T, &R, Scalar, Scalar) -> Option<(Scalar, H)>,
    >(&self, r: &R, t_min: Scalar, t_max: Scalar, box_test: &FB, probe: &F) -> (rec: Option<
        (Scalar, H),
    >)
        requires
            self.can_search(r, t_min, box_test, probe),
        ensures
            self.is_hit(r, t_min, t_max, box_test, probe, rec),
        decreases self,
    {
        if !box_test(&self.boxx, r, t_min, t_max) {
            return None;
        }
        proof {
            lemma_leaves_of_children(*self);
        }
        let hit_left = match &self.left {
            BvhChild::Object(item) => {
                proof {
                    assert(self.left.leaves()[0] == *item);
                    assert(probe.requires((&self.leaves()[0].object, r, t_min, t_max)));
                }
                probe(&item.object, r, t_min, t_max)
            },
            BvhChild::Node(node) => {
                proof {
                    assert forall|i: int, upper: Scalar|
                        0 <= i < node.leaves().len() implies #[trigger] probe.requires(
                        (&node.leaves()[i].object, r, t_min, upper),
                    ) by {
                        assert(self.left.leaves()[i] == self.leaves()[i]);
                        assert(probe.requires((&self.leaves()[i].object, r, t_min, upper)));
                    }
                }
                node.hit(r, t_min, t_max, box_test, probe)
            },
        };
        let upper = match &hit_left {
            Some(found) => found.0,
            None => t_max,
        };
        let ghost offset = self.left.leaves().len() as int;
        let hit_right = match &self.right {
            BvhChild::Object(item) => {
                proof {
                    assert(self.right.leaves()[0] == *item);
                    assert(probe.requires((&self.leaves()[offset].object, r, t_min, upper)));
                }
                probe(&item.object, r, t_min, upper)
            },
            BvhChild::Node(node) => {
                proof {
                    assert forall|i: int, upper: Scalar|
                        0 <= i < node.leaves().len() implies #[trigger] probe.requires(
                        (&node.leaves()[i].object, r, t_min, upper),
                    ) by {
                        assert(self.right.leaves()[i] == self.leaves()[offset + i]);
                        assert(probe.requires((&self.leaves()[offset + i].object, r, t_min, upper)));
                    }
                }
                node.hit(r, t_min, upper, box_test, probe)
            },
        };
        proof {
            assert(self.left.is_hit(r, t_min, t_max, box_test, probe, hit_left));
            assert(upper == window_after(hit_left, t_max));
            assert(self.right.is_hit(
                r,
                t_min,
                window_after(hit_left, t_max),
                box_test,
                probe,
                hit_right,
            ));
            assert(box_test.ensures((&self.boxx, r, t_min, t_max), true));
            assert(self.is_hit(r, t_min, t_max, box_test, probe, kept_hit(hit_left, hit_right)));
        }
        if hit_right.is_some() {
            hit_right
        } else {
            hit_left
        }
    }

    /// Builds the hierarchy over all objects of a list that is not empty.
    ///
    /// Each object is measured once with `bounds` over the time interval; an
    /// object without bounds gets the origin box. The measured objects are
    /// then arranged and built into the tree by `fromvec`.
    pub fn from<F: Fn(&T, Scalar, Scalar) -> Option<Aabb>>(
        list: &HittableList<T>,
        time0: Scalar,
        time1: Scalar,
        bounds: F,
    ) -> (node: Self)
        requires
            list.objects@.len() > 0,
            forall|i: int|
                0 <= i < list.objects@.len() ==> bounds.requires(
                    (&#[trigger] list.objects@[i], time0, time1),
                ),
        ensures
            node.wf(),
            exists|measured: Seq<Bounded<T>>, arranged: Seq<Bounded<T>>|
                #![trigger is_measured(list.objects@, time0, time1, bounds, measured), node.built_from(arranged, 0, arranged.len() as int)]
                {
                    &&& measured.len() == list.objects@.len()
                    &&& is_measured(list.objects@, time0, time1, bounds, measured)
                    &&& arranged.to_multiset() == measured.to_multiset()
                    &&& node.built_from(arranged, 0, arranged.len() as int)
                },
    {
        let mut items: Vec<Bounded<T>> = Vec::new();
        for k in 0..list.objects.len()
            invariant
                items.len() == k,
                is_measured(list.objects@, time0, time1, bounds, items@),
                forall|i: int|
                    0 <= i < list.objects@.len() ==> bounds.requires(
                        (&#[trigger] list.objects@[i], time0, time1),
                    ),
        {
            let object = list.objects[k];
            let measured_box = match bounds(&list.objects[k], time0, time1) {
                Some(b) => b,
                None => Aabb::new(),
            };
            items.push(Bounded { object, bounds: measured_box });
        }
        let ghost measured = items@;
        let len = items.len();
        let node = Self::fromvec(&mut items, 0, len);
        proof {
            assert(items@.subrange(0, len as int) == items@);
            assert(measured.subrange(0, len as int) == measured);
        }
        node
    }

    /// Builds the hierarchy over the objects from `start` up to `end`,
    /// rearranging that span as it goes. Each level draws its axis at random.
    pub fn fromvec(src_objects: &mut Vec<Bounded<T>>, start: usize, end: usize) -> (node: Self)
        requires
            start < end <= old(src_objects).len(),
        ensures
            final(src_objects).len() == old(src_objects).len(),
            final(src_objects)@.subrange(start as int, end as int).to_multiset() == old(
                src_objects,
            )@.subrange(start as int, end as int).to_multiset(),
            forall|i: int|
                0 <= i < start || end <= i < old(src_objects).len() ==> final(src_objects)@[i]
                    == old(src_objects)@[i],
            node.built_from(final(src_objects)@, start as int, end as int),
            node.wf(),
        decreases end - start,
    {
        let axis = random_int(0, 3) as usize;
        arrange_span(src_objects, start, end, axis);
        let object_span = end - start;
        let left: BvhChild<T>;
        let right: BvhChild<T>;
        if object_span == 1 {
            left = BvhChild::Object(src_objects[start]);
            right = BvhChild::Object(src_objects[start]);
        } else if object_span == 2 {
            left = BvhChild::Object(src_objects[start]);
            right = BvhChild::Object(src_objects[start + 1]);
        } else {
            let mid = start + object_span / 2;
            let ghost arranged = src_objects@;
            let left_node = BvhNode::fromvec(src_objects, start, mid);
            let ghost halfway = src_objects@;
            let right_node = BvhNode::fromvec(src_objects, mid, end);
            proof {
                lemma_halves_keep_partition(
                    arranged,
                    halfway,
                    src_objects@,
                    start as int,
                    mid as int,
                    end as int,
                    axis as int,
                );
                lemma_built_from_depends_on_span(
                    left_node,
                    halfway,
                    src_objects@,
                    start as int,
                    mid as int,
                );
            }
            left = BvhChild::Node(Box::new(left_node));
            right = BvhChild::Node(Box::new(right_node));
        }
        let boxx = surrounding_box(
            &match &left {
                BvhChild::Object(item) => item.bounds,
                BvhChild::Node(node) => node.boxx,
            },
            &match &right {
                BvhChild::Object(item) => item.bounds,
                BvhChild::Node(node) => node.boxx,
            },
        );
        BvhNode { left, right, boxx }
    }
}

/// The leaves of a node are those of its left child followed by those of
/// its right child.
pub proof fn lemma_leaves_of_children<T>(node: BvhNode<T>)
    ensures
        node.leaves() == node.left.leaves() + node.right.leaves(),
        forall|i: int|
            0 <= i < node.left.leaves().len() ==> #[trigger] node.left.leaves()[i]
                == node.leaves()[i],
        forall|i: int|
            0 <= i < node.right.leaves().len() ==> #[trigger] node.right.leaves()[i]
                == node.leaves()[node.left.leaves().len() + i],
{
}

/// Every object of the span over which a hierarchy was built is one of its
/// leaves.
pub proof fn lemma_span_is_among_leaves<T>(node: BvhNode<T>, s: Seq<Bounded<T>>, start: int, end: int)
    requires
        0 <= start < end <= s.len(),
        node.built_from(s, start, end),
    ensures
        forall|i: int| start <= i < end ==> node.leaves().contains(#[trigger] s[i]),
    decreases node,
{
    if end - start == 1 {
        assert(node.leaves()[0] == s[start]);
    } else if end - start == 2 {
        assert(node.leaves()[0] == s[start]);
        assert(node.leaves()[1] == s[start + 1]);
    } else {
        let mid = start + (end - start) / 2;
        match (node.left, node.right) {
            (BvhChild::Node(l), BvhChild::Node(r)) => {
                lemma_span_is_among_leaves(*l, s, start, mid);
                lemma_span_is_among_leaves(*r, s, mid, end);
                assert forall|i: int| start <= i < end implies node.leaves().contains(
                    #[trigger] s[i],
                ) by {
                    if i < mid {
                        let k = choose|k: int| 0 <= k < l.leaves().len() && l.leaves()[k] == s[i];
                        assert(node.leaves()[k] == s[i]);
                    } else {
                        let k = choose|k: int| 0 <= k < r.leaves().len() && r.leaves()[k] == s[i];
                        assert(node.leaves()[l.leaves().len() + k] == s[i]);
                    }
                }
            },
            _ => {},
        }
    }
}

/// Bounding-volume search against linear scan, as functions: for exact
/// probes and a conservative box test, the hierarchy built over a span finds
/// exactly what the linear scan of that span finds.
pub proof fn lemma_tree_value_is_scan_value<T, H>(
    node: BvhNode<T>,
    s: Seq<Bounded<T>>,
    start: int,
    end: int,
    crossing: spec_fn(T) -> Option<(Scalar, H)>,
    crossed: spec_fn(Aabb, Scalar) -> bool,
    upper: Scalar,
)
    requires
        0 <= start < end <= s.len(),
        node.built_from(s, start, end),
        node.is_conservative(crossing, crossed),
        crossings_are_numbers(objects_of(s.subrange(start, end)), crossing),
    ensures
        node.value(crossing, crossed, upper) == scan_value(
            objects_of(s.subrange(start, end)),
            crossing,
            upper,
        ),
    decreases node,
{
    let objs = objects_of(s.subrange(start, end));
    if !crossed(node.boxx, upper) {
        lemma_span_is_among_leaves(node, s, start, end);
        assert forall|i: int| 0 <= i < objs.len() implies reaches(
            crossing(#[trigger] objs[i]),
            upper,
        ) is None by {
            let item = s[start + i];
            assert(node.leaves().contains(item));
            let k = choose|k: int| 0 <= k < node.leaves().len() && node.leaves()[k] == item;
            assert(reaches(crossing(node.leaves()[k].object), upper) is None);
        }
        lemma_scan_of_unreachable(objs, crossing, upper);
    } else if end - start == 1 {
        assert(objs.len() == 1);
        assert(objs.last() == s[start].object);
        assert(objs[0] == s[start].object);
        assert(objs.drop_last().len() == 0);
        reveal_with_fuel(scan_value, 2);
    } else if end - start == 2 {
        assert(objs.len() == 2);
        assert(objs.last() == s[start + 1].object);
        assert(objs.drop_last().len() == 1);
        assert(objs.drop_last().last() == s[start].object);
        assert(objs.drop_last().drop_last().len() == 0);
        reveal_with_fuel(scan_value, 3);
    } else {
        let mid = start + (end - start) / 2;
        let objs_left = objects_of(s.subrange(start, mid));
        let objs_right = objects_of(s.subrange(mid, end));
        assert(objs == objs_left + objs_right);
        assert(crossings_are_numbers(objs_left, crossing)) by {
            assert forall|i: int| 0 <= i < objs_left.len() implies (crossing(
                #[trigger] objs_left[i],
            ) matches Some(hit) ==> !hit.0.is_nan_spec()) by {
                assert(objs_left[i] == objs[i]);
            }
        }
        assert(crossings_are_numbers(objs_right, crossing)) by {
            assert forall|i: int| 0 <= i < objs_right.len() implies (crossing(
                #[trigger] objs_right[i],
            ) matches Some(hit) ==> !hit.0.is_nan_spec()) by {
                assert(objs_right[i] == objs[objs_left.len() + i]);
            }
        }
        match (node.left, node.right) {
            (BvhChild::Node(l), BvhChild::Node(r)) => {
                lemma_tree_value_is_scan_value(*l, s, start, mid, crossing, crossed, upper);
                let found = l.value(crossing, crossed, upper);
                lemma_tree_value_is_scan_value(
                    *r,
                    s,
                    mid,
                    end,
                    crossing,
                    crossed,
                    window_after(found, upper),
                );
                lemma_scan_concat(objs_left, objs_right, crossing, upper);
            },
            _ => {},
        }
    }
}

/// A search with exact closures finds the hierarchy's value: where the box
/// test answers as `crossed` does and each probe reports its object's
/// crossing exactly when it lies in the window, every outcome of the search
/// is `value`.
pub proof fn lemma_exact_search_finds_value<
    T,
    R,
    H,
    FB: Fn(&Aabb, &R, Scalar, Scalar) -> bool,
    F: Fn(&T, &R, Scalar, Scalar) -> Option<(Scalar, H)>,
>(
    node: BvhNode<T>,
    r: &R,
    t_min: Scalar,
    t_max: Scalar,
    box_test: &FB,
    probe: &F,
    crossing: spec_fn(T) -> Option<(Scalar, H)>,
    crossed: spec_fn(Aabb, Scalar) -> bool,
    rec: Option<(Scalar, H)>,
)
    requires
        forall|b: Aabb, upper: Scalar, answer: bool| #[trigger]
            box_test.ensures((&b, r, t_min, upper), answer) ==> answer == crossed(b, upper),
        forall|o: T, upper: Scalar, answer: Option<(Scalar, H)>| #[trigger]
            probe.ensures((&o, r, t_min, upper), answer) ==> answer == reaches(crossing(o), upper),
        node.is_hit(r, t_min, t_max, box_test, probe, rec),
    ensures
        rec == node.value(crossing, crossed, t_max),
    decreases node,
{
    if box_test.ensures((&node.boxx, r, t_min, t_max), false) && rec is None {
    } else {
        let (hit_left, hit_right): (Option<(Scalar, H)>, Option<(Scalar, H)>) = choose|
            hit_left: Option<(Scalar, H)>,
            hit_right: Option<(Scalar, H)>,
        |
            {
                &&& node.left.is_hit(r, t_min, t_max, box_test, probe, hit_left)
                &&& node.right.is_hit(
                    r,
                    t_min,
                    window_after(hit_left, t_max),
                    box_test,
                    probe,
                    hit_right,
                )
                &&& rec == #[trigger] kept_hit(hit_left, hit_right)
            };
        match node.left {
            BvhChild::Object(item) => {},
            BvhChild::Node(l) => {
                lemma_exact_search_finds_value(
                    *l,
                    r,
                    t_min,
                    t_max,
                    box_test,
                    probe,
                    crossing,
                    crossed,
                    hit_left,
                );
            },
        }
        match node.right {
            BvhChild::Object(item) => {},
            BvhChild::Node(rn) => {
                lemma_exact_search_finds_value(
                    *rn,
                    r,
                    t_min,
                    window_after(hit_left, t_max),
                    box_test,
                    probe,
                    crossing,
                    crossed,
                    hit_right,
                );
            },
        }
    }
}

/// The hierarchy reports the hit that the linear scan reports.
///
/// Take a hierarchy built over the measured objects `s` and the list of the
/// same objects in the same order. Let the box test and the probes be exact,
/// the box test conservative, and the crossings' parameters numbers. Then on
/// every ray window the search of the hierarchy and the scan of the list end
/// with the same hit, or both with none.
pub proof fn lemma_hierarchy_agrees_with_scan<
    T,
    R,
    H,
    FB: Fn(&Aabb, &R, Scalar, Scalar) -> bool,
    F: Fn(&T, &R, Scalar, Scalar) -> Option<(Scalar, H)>,
>(
    node: BvhNode<T>,
    s: Seq<Bounded<T>>,
    list: HittableList<T>,
    r: &R,
    t_min: Scalar,
    t_max: Scalar,
    box_test: &FB,
    probe: &F,
    crossing: spec_fn(T) -> Option<(Scalar, H)>,
    crossed: spec_fn(Aabb, Scalar) -> bool,
    rec: Option<(Scalar, H)>,
    answers: Seq<Option<(Scalar, H)>>,
)
    requires
        s.len() > 0,
        node.built_from(s, 0, s.len() as int),
        list.objects@ == objects_of(s),
        forall|b: Aabb, upper: Scalar, answer: bool| #[trigger]
            box_test.ensures((&b, r, t_min, upper), answer) ==> answer == crossed(b, upper),
        forall|o: T, upper: Scalar, answer: Option<(Scalar, H)>| #[trigger]
            probe.ensures((&o, r, t_min, upper), answer) ==> answer == reaches(crossing(o), upper),
        node.is_conservative(crossing, crossed),
        crossings_are_numbers(list.objects@, crossing),
        node.is_hit(r, t_min, t_max, box_test, probe, rec),
        list.is_scan(r, t_min, t_max, probe, answers),
    ensures
        rec == latest_hit(answers, answers.len() as int),
{
    assert(s.subrange(0, s.len() as int) == s);
    lemma_exact_search_finds_value(node, r, t_min, t_max, box_test, probe, crossing, crossed, rec);
    lemma_tree_value_is_scan_value(node, s, 0, s.len() as int, crossing, crossed, t_max);
    lemma_exact_scan_finds_value(list, r, t_min, t_max, probe, crossing, answers);
}

/// The hierarchy finds the closest parameter of any list of its objects.
///
/// As `lemma_hierarchy_agrees_with_scan`, but for a list that holds the
/// objects of `s` in any order: the two hits may then be of different
/// objects, where several are equally close, and still their parameters have
/// the same rank, or there is no hit on either side.
pub proof fn lemma_hierarchy_finds_closest_parameter<
    T,
    R,
    H,
    FB: Fn(&Aabb, &R, Scalar, Scalar) -> bool,
    F: Fn(&T, &R, Scalar, Scalar) -> Option<(Scalar, H)>,
>(
    node: BvhNode<T>,
    s: Seq<Bounded<T>>,
    list: HittableList<T>,
    r: &R,
    t_min: Scalar,
    t_max: Scalar,
    box_test: &FB,
    probe: &F,
    crossing: spec_fn(T) -> Option<(Scalar, H)>,
    crossed: spec_fn(Aabb, Scalar) -> bool,
    rec: Option<(Scalar, H)>,
    answers: Seq<Option<(Scalar, H)>>,
)
    requires
        s.len() > 0,
        node.built_from(s, 0, s.len() as int),
        forall|i: int| 0 <= i < s.len() ==> list.objects@.contains((#[trigger] s[i]).object),
        forall|j: int|
            0 <= j < list.objects@.len() ==> objects_of(s).contains(#[trigger] list.objects@[j]),
        forall|b: Aabb, upper: Scalar, answer: bool| #[trigger]
            box_test.ensures((&b, r, t_min, upper), answer) ==> answer == crossed(b, upper),
        forall|o: T, upper: Scalar, answer: Option<(Scalar, H)>| #[trigger]
            probe.ensures((&o, r, t_min, upper), answer) ==> answer == reaches(crossing(o), upper),
        node.is_conservative(crossing, crossed),
        crossings_are_numbers(list.objects@, crossing),
        !t_max.is_nan_spec(),
        node.is_hit(r, t_min, t_max, box_test, probe, rec),
        list.is_scan(r, t_min, t_max, probe, answers),
    ensures
        match (rec, latest_hit(answers, answers.len() as int)) {
            (Some(x), Some(y)) => x.0.rank() == y.0.rank(),
            (None, None) => true,
            _ => false,
        },
{
    let objs = objects_of(s);
    assert(s.subrange(0, s.len() as int) == s);
    assert forall|i: int| 0 <= i < objs.len() implies list.objects@.contains(
        #[trigger] objs[i],
    ) by {
        assert(list.objects@.contains(s[i].object));
    }
    assert(crossings_are_numbers(objs, crossing)) by {
        assert forall|i: int| 0 <= i < objs.len() implies (crossing(
            #[trigger] objs[i],
        ) matches Some(hit) ==> !hit.0.is_nan_spec()) by {
            let j = choose|j: int| 0 <= j < list.objects@.len() && list.objects@[j] == objs[i];
            assert(list.objects@[j] == objs[i]);
        }
    }
    lemma_exact_search_finds_value(node, r, t_min, t_max, box_test, probe, crossing, crossed, rec);
    lemma_tree_value_is_scan_value(node, s, 0, s.len() as int, crossing, crossed, t_max);
    lemma_exact_scan_finds_value(list, r, t_min, t_max, probe, crossing, answers);
    lemma_scan_parameter_ignores_order(objs, list.objects@, crossing, t_max);
}

/// A node's box contains every object below the node: in a well-formed
/// hierarchy whose objects have ordered boxes, the box of each node is
/// ordered and contains the box of each of its leaves.
pub proof fn lemma_box_contains_leaves<T>(node: BvhNode<T>)
    requires
        node.wf(),
        forall|i: int| 0 <= i < node.leaves().len() ==> (#[trigger] node.leaves()[i]).bounds.is_ordered(),
    ensures
        node.boxx.is_ordered(),
        forall|i: int|
            0 <= i < node.leaves().len() ==> node.boxx.contains((#[trigger] node.leaves()[i]).bounds),
    decreases node,
{
    lemma_leaves_of_children(node);
    let offset = node.left.leaves().len() as int;
    match node.left {
        BvhChild::Object(item) => {
            assert(node.leaves()[0] == item);
        },
        BvhChild::Node(l) => {
            assert forall|i: int| 0 <= i < l.leaves().len() implies (#[trigger] l.leaves()[i]).bounds.is_ordered() by {
                assert(l.leaves()[i] == node.leaves()[i]);
            }
            lemma_box_contains_leaves(*l);
        },
    }
    match node.right {
        BvhChild::Object(item) => {
            assert(node.leaves()[offset] == item);
        },
        BvhChild::Node(rn) => {
            assert forall|i: int| 0 <= i < rn.leaves().len() implies (#[trigger] rn.leaves()[i]).bounds.is_ordered() by {
                assert(rn.leaves()[i] == node.leaves()[offset + i]);
            }
            lemma_box_contains_leaves(*rn);
        },
    }
    lemma_surrounding_box_is_least(
        node.left.bounds(),
        node.right.bounds(),
        node.boxx,
        node.boxx,
    );
    assert forall|i: int| 0 <= i < node.leaves().len() implies node.boxx.contains(
        (#[trigger] node.leaves()[i]).bounds,
    ) by {
        let leaf = node.leaves()[i].bounds;
        if i < offset {
            assert(node.left.leaves()[i] == node.leaves()[i]);
            assert(node.left.bounds().contains(leaf)) by {
                match node.left {
                    BvhChild::Object(item) => {
                        assert(node.leaves()[i].bounds.is_ordered());
                        lemma_ordered_box_contains_itself(leaf);
                    },
                    BvhChild::Node(l) => {
                        assert(l.boxx.contains(l.leaves()[i].bounds));
                    },
                }
            }
            lemma_contains_is_transitive(node.boxx, node.left.bounds(), leaf);
        } else {
            assert(node.right.leaves()[i - offset] == node.leaves()[i]);
            assert(node.right.bounds().contains(leaf)) by {
                match node.right {
                    BvhChild::Object(item) => {
                        assert(node.leaves()[i].bounds.is_ordered());
                        lemma_ordered_box_contains_itself(leaf);
                    },
                    BvhChild::Node(rn) => {
                        assert(rn.boxx.contains(rn.leaves()[i - offset].bounds));
                    },
                }
            }
            lemma_contains_is_transitive(node.boxx, node.right.bounds(), leaf);
        }
    }
}

/// A rearrangement of the measured objects of a list holds the objects of
/// the list and no others. This is what `lemma_hierarchy_finds_closest_parameter`
/// asks of the list and the span of a hierarchy that `BvhNode::from` built.
pub proof fn lemma_arranged_holds_the_list<T, F: Fn(&T, Scalar, Scalar) -> Option<Aabb>>(
    objects: Seq<T>,
    time0: Scalar,
    time1: Scalar,
    bounds: F,
    measured: Seq<Bounded<T>>,
    arranged: Seq<Bounded<T>>,
)
    requires
        measured.len() == objects.len(),
        is_measured(objects, time0, time1, bounds, measured),
        arranged.to_multiset() == measured.to_multiset(),
    ensures
        arranged.len() == objects.len(),
        forall|i: int| 0 <= i < arranged.len() ==> objects.contains((#[trigger] arranged[i]).object),
        forall|j: int| 0 <= j < objects.len() ==> objects_of(arranged).contains(#[trigger] objects[j]),
{
    broadcast use vstd::seq_lib::to_multiset_contains;
    broadcast use vstd::seq_lib::to_multiset_len;

    assert(arranged.len() == arranged.to_multiset().len());
    assert(measured.len() == measured.to_multiset().len());
    assert forall|i: int| 0 <= i < arranged.len() implies objects.contains(
        (#[trigger] arranged[i]).object,
    ) by {
        let item = arranged[i];
        assert(arranged.contains(item));
        assert(measured.to_multiset().count(item) > 0);
        assert(measured.contains(item));
        let k = choose|k: int| 0 <= k < measured.len() && measured[k] == item;
        assert(measured[k].object == objects[k]);
    }
    assert forall|j: int| 0 <= j < objects.len() implies objects_of(arranged).contains(
        #[trigger] objects[j],
    ) by {
        let item = measured[j];
        assert(item.object == objects[j]);
        assert(measured.contains(item));
        assert(arranged.to_multiset().count(item) > 0);
        assert(arranged.contains(item));
        let k = choose|k: int| 0 <= k < arranged.len() && arranged[k] == item;
        assert(objects_of(arranged)[k] == objects[j]);
    }
}

/// Whether a hierarchy is the one over a span depends on the span alone.
pub proof fn lemma_built_from_depends_on_span<T>(
    node: BvhNode<T>,
    s1: Seq<Bounded<T>>,
    s2: Seq<Bounded<T>>,
    start: int,
    end: int,
)
    requires
        0 <= start < end <= s1.len(),
        s1.len() == s2.len(),
        forall|i: int| start <= i < end ==> s1[i] == s2[i],
        node.built_from(s1, start, end),
    ensures
        node.built_from(s2, start, end),
    decreases node,
{
    if end - start == 1 {
    } else if end - start == 2 {
        let axis = choose|axis: int|
            0 <= axis < 3 && #[trigger] in_order_on(s1[start].bounds, s1[start + 1].bounds, axis);
        assert(in_order_on(s2[start].bounds, s2[start + 1].bounds, axis));
    } else {
        let mid = start + (end - start) / 2;
        match (node.left, node.right) {
            (BvhChild::Node(l), BvhChild::Node(r)) => {
                lemma_built_from_depends_on_span(*l, s1, s2, start, mid);
                lemma_built_from_depends_on_span(*r, s1, s2, mid, end);
            },
            _ => {},
        }
        let axis = choose|axis: int|
            0 <= axis < 3 && #[trigger] partitioned_on(s1, start, mid, end, axis);
        assert(partitioned_on(s2, start, mid, end, axis));
    }
}

/// Rearranging each half of a sorted span within itself leaves the span
/// partitioned at the middle.
proof fn lemma_halves_keep_partition<T>(
    arranged: Seq<Bounded<T>>,
    halfway: Seq<Bounded<T>>,
    done: Seq<Bounded<T>>,
    start: int,
    mid: int,
    end: int,
    axis: int,
)
    requires
        0 <= start < mid < end <= arranged.len(),
        arranged.len() == halfway.len() == done.len(),
        sorted_on(arranged, start, end, axis),
        halfway.subrange(start, mid).to_multiset() == arranged.subrange(start, mid).to_multiset(),
        forall|i: int| 0 <= i < start || mid <= i < arranged.len() ==> halfway[i] == arranged[i],
        done.subrange(mid, end).to_multiset() == halfway.subrange(mid, end).to_multiset(),
        forall|i: int| 0 <= i < mid || end <= i < arranged.len() ==> done[i] == halfway[i],
    ensures
        partitioned_on(done, start, mid, end, axis),
        done.subrange(start, end).to_multiset() == arranged.subrange(start, end).to_multiset(),
        forall|i: int| 0 <= i < start || end <= i < arranged.len() ==> done[i] == arranged[i],
{
    broadcast use vstd::seq_lib::to_multiset_contains;
    broadcast use vstd::seq_lib::lemma_multiset_commutative;

    assert forall|i: int, j: int| start <= i < mid <= j < end implies axis_key(
        #[trigger] done[i].bounds,
        axis,
    ) <= axis_key(#[trigger] done[j].bounds, axis) by {
        let x = done[i];
        assert(done[i] == halfway[i]);
        assert(halfway.subrange(start, mid)[i - start] == x);
        assert(halfway.subrange(start, mid).contains(x));
        assert(arranged.subrange(start, mid).to_multiset().count(x) > 0);
        assert(arranged.subrange(start, mid).contains(x));
        let a = choose|a: int|
            0 <= a < arranged.subrange(start, mid).len() && arranged.subrange(start, mid)[a] == x;
        assert(arranged[start + a] == x);
        let y = done[j];
        assert(done.subrange(mid, end)[j - mid] == y);
        assert(done.subrange(mid, end).contains(y));
        assert(halfway.subrange(mid, end).to_multiset().count(y) > 0);
        assert(halfway.subrange(mid, end).contains(y));
        let b = choose|b: int|
            0 <= b < halfway.subrange(mid, end).len() && halfway.subrange(mid, end)[b] == y;
        assert(halfway[mid + b] == y);
        assert(arranged[mid + b] == y);
    }
    assert(done.subrange(start, end) == done.subrange(start, mid) + done.subrange(mid, end));
    assert(arranged.subrange(start, end) == arranged.subrange(start, mid) + arranged.subrange(
        mid,
        end,
    ));
    assert(done.subrange(start, mid) == halfway.subrange(start, mid));
    assert(halfway.subrange(mid, end) == arranged.subrange(mid, end));
}

} // verus!
