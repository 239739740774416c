//! The scene list: an ordered collection of objects that is scanned linearly
//! for the closest hit and whose bounds are the union of its members' bounds.
//!
//! The list does not know how an object is intersected. The caller supplies
//! that as a closure, and the contracts say what the list does with the
//! closure's answers.

use crate::aabb::{max_spec, min_spec, surrounding_box, Aabb};
use crate::closest::{kept_hit, reaches, scan_value, window_after};
use crate::scalar::Scalar;
use vstd::prelude::*;

verus! {

pub struct HittableList<T> {
    pub objects: Vec<T>,
}

/// Upper end of the window handed to the `i`-th probe of a scan that started
/// with `t_max`: the parameter of the latest hit among the earlier answers,
/// or `t_max` itself while nothing was hit.
pub open spec fn closest_before<H>(answers: Seq<Option<(Scalar, H)>>, t_max: Scalar, i: int) -> Scalar
    decreases i,
{
    if i <= 0 {
        t_max
    } else {
        match answers[i - 1] {
            Some(hit) => hit.0,
            None => closest_before(answers, t_max, i - 1),
        }
    }
}

/// The latest hit among the first `i` answers.
pub open spec fn latest_hit<H>(answers: Seq<Option<(Scalar, H)>>, i: int) -> Option<(Scalar, H)>
    decreases i,
{
    if i <= 0 {
        None
    } else {
        match answers[i - 1] {
            Some(hit) => Some(hit),
            None => latest_hit(answers, i - 1),
        }
    }
}

/// Lower bound on axis `c` of the union of `boxes`, folded from the front.
pub open spec fn union_lo(boxes: Seq<Aabb>, c: int) -> Scalar
    decreases boxes.len(),
{
    if boxes.len() == 0 {
        Scalar { code: 0 }
    } else if boxes.len() == 1 {
        boxes[0].lo().coords()[c]
    } else {
        min_spec(union_lo(boxes.drop_last(), c), boxes.last().lo().coords()[c])
    }
}

/// Upper bound on axis `c` of the union of `boxes`, folded from the front.
pub open spec fn union_hi(boxes: Seq<Aabb>, c: int) -> Scalar
    decreases boxes.len(),
{
    if boxes.len() == 0 {
        Scalar { code: 0 }
    } else if boxes.len() == 1 {
        boxes[0].hi().coords()[c]
    } else {
        max_spec(union_hi(boxes.drop_last(), c), boxes.last().hi().coords()[c])
    }
}

/// `r` is the union of `boxes`.
pub open spec fn is_union_of(r: Aabb, boxes: Seq<Aabb>) -> bool {
    forall|c: int|
        0 <= c < 3 ==> (#[trigger] r.lo().coords()[c]) == union_lo(boxes, c) && r.hi().coords()[c]
            == union_hi(boxes, c)
}

impl<T> HittableList<T> {
    /// `answers` is a possible record of one scan: entry `i` is an answer that
    /// `probe` can give for object `i` on the window that the scan has
    /// reached by then.
    pub open spec fn is_scan<R, H, F: Fn(&T, &R, Scalar, Scalar) -> Option<(Scalar, H)>>(
        self,
        r: &R,
        t_min: Scalar,
        t_max: Scalar,
        probe: &F,
        answers: Seq<Option<(Scalar, H)>>,
    ) -> bool {
        &&& answers.len() == self.objects@.len()
        &&& forall|i: int|
            0 <= i < answers.len() ==> probe.ensures(
                (&self.objects@[i], r, t_min, closest_before(answers, t_max, i)),
                #[trigger] answers[i],
            )
    }

    /// `boxes` holds a bounding box that `bounds` can report for each of the
    /// first `boxes.len()` objects.
    pub open spec fn are_bounds<F: Fn(&T, Scalar, Scalar) -> Option<Aabb>>(
        self,
        time0: Scalar,
        time1: Scalar,
        bounds: F,
        boxes: Seq<Aabb>,
    ) -> bool {
        &&& boxes.len() <= self.objects@.len()
        &&& forall|i: int|
            0 <= i < boxes.len() ==> bounds.ensures(
                (&self.objects@[i], time0, time1),
                Some(#[trigger] boxes[i]),
            )
    }

    pub fn new() -> (r: Self)
        ensures
            r.objects@ == Seq::<T>::empty(),
    {
        Self { objects: Vec::new() }
    }

    pub fn add(&mut self, object: T)
        ensures
            final(self).objects@ == old(self).objects@.push(object),
    {
        self.objects.push(object);
    }

    pub fn clear(&mut self)
        ensures
            final(self).objects@ == Seq::<T>::empty(),
    {
        while self.objects.len() > 0
            decreases self.objects.len(),
        {
            self.objects.pop();
        }
    }

    /// The union of the members' bounds over the time interval, or `None`
    /// when the list is empty or a member has no bounds. Members are asked in
    /// order, and none is asked after the first that has no bounds.
    pub fn bounding_box<F: Fn(&T, Scalar, Scalar) -> Option<Aabb>>(
        &self,
        time0: Scalar,
        time1: Scalar,
        bounds: F,
    ) -> (r: Option<Aabb>)
        requires
            forall|i: int|
                0 <= i < self.objects@.len() ==> bounds.requires((&#[trigger] self.objects@[i], time0, time1)),
        ensures
            self.objects@.len() == 0 ==> r is None,
            r matches Some(b) ==> exists|boxes: Seq<Aabb>|
                boxes.len() == self.objects@.len() && #[trigger] self.are_bounds(
                    time0,
                    time1,
                    bounds,
                    boxes,
                ) && is_union_of(b, boxes),
            r is None && self.objects@.len() > 0 ==> exists|boxes: Seq<Aabb>|
                boxes.len() < self.objects@.len() && #[trigger] self.are_bounds(
                    time0,
                    time1,
                    bounds,
                    boxes,
                ) && bounds.ensures((&self.objects@[boxes.len() as int], time0, time1), None),
    {
        if self.objects.len() == 0 {
            return None;
        }
        let mut output_box = Aabb::new();
        let mut first_box = true;
        let ghost mut boxes: Seq<Aabb> = Seq::empty();
        for k in 0..self.objects.len()
            invariant
                boxes.len() == k,
                first_box == (k == 0),
                self.are_bounds(time0, time1, bounds, boxes),
                k > 0 ==> is_union_of(output_box, boxes),
                forall|i: int|
                    0 <= i < self.objects@.len() ==> bounds.requires(
                        (&#[trigger] self.objects@[i], time0, time1),
                    ),
        {
            match bounds(&self.objects[k], time0, time1) {
                None => {
                    return None;
                },
                Some(temp_box) => {
                    let ghost before = boxes;
                    output_box =
                    if first_box {
                        temp_box
                    } else {
                        surrounding_box(&output_box, &temp_box)
                    };
                    first_box = false;
                    proof {
                        boxes = boxes.push(temp_box);
                        assert(boxes.drop_last() == before);
                        assert(boxes.last() == temp_box);
                    }
                },
            }
        }
        Some(output_box)
    }

    /// The closest hit of the ray on the window from `t_min` to `t_max`.
    ///
    /// Objects are probed in order, each on the window from `t_min` up to the
    /// closest hit so far; every hit reported replaces the one kept. The
    /// result is the hit kept at the end.
    pub fn hit<R, H, F: Fn(&T, &R, Scalar, Scalar) -> Option<(Scalar, H)>>(
        &self,
        r: &R,
        t_min: Scalar,
        t_max: Scalar,
        probe: &F,
    ) -> (rec: Option<(Scalar, H)>)
        requires
            forall|i: int, upper: Scalar|
                0 <= i < self.objects@.len() ==> #[trigger] probe.requires(
                    (&self.objects@[i], r, t_min, upper),
                ),
        ensures
            exists|answers: Seq<Option<(Scalar, H)>>| #[trigger]
                self.is_scan(r, t_min, t_max, probe, answers) && rec == latest_hit(
                    answers,
                    answers.len() as int,
                ),
    {
        let mut rec: Option<(Scalar, H)> = None;
        let mut closest_so_far = t_max;
        let ghost mut answers: Seq<Option<(Scalar, H)>> = Seq::empty();
        for k in 0..self.objects.len()
            invariant
                answers.len() == k,
                closest_so_far == closest_before(answers, t_max, k as int),
                rec == latest_hit(answers, k as int),
                forall|i: int|
                    0 <= i < k ==> probe.ensures(
                        (&self.objects@[i], r, t_min, closest_before(answers, t_max, i)),
                        #[trigger] answers[i],
                    ),
                forall|i: int, upper: Scalar|
                    0 <= i < self.objects@.len() ==> #[trigger] probe.requires(
                        (&self.objects@[i], r, t_min, upper),
                    ),
        {
            let answer = probe(&self.objects[k], r, t_min, closest_so_far);
            proof {
                let before = answers;
                answers = answers.push(answer);
                assert forall|i: int| 0 <= i <= k implies probe.ensures(
                    (&self.objects@[i], r, t_min, closest_before(answers, t_max, i)),
                    #[trigger] answers[i],
                ) by {
                    lemma_scan_prefix(before, answers, t_max, i);
                    if i < k {
                        assert(answers[i] == before[i]);
                    }
                }
                lemma_scan_prefix(before, answers, t_max, k as int);
            }
            if let Some(temp_rec) = answer {
                closest_so_far = temp_rec.0;
                rec = Some(temp_rec);
            }
        }
        proof {
            assert(self.is_scan(r, t_min, t_max, probe, answers));
        }
        rec
    }
}

/// The window and the hit kept after `i` answers depend on those answers
/// alone: appending further answers changes neither.
pub proof fn lemma_scan_prefix<H>(
    short: Seq<Option<(Scalar, H)>>,
    long: Seq<Option<(Scalar, H)>>,
    t_max: Scalar,
    i: int,
)
    requires
        0 <= i <= short.len() <= long.len(),
        forall|j: int| 0 <= j < short.len() ==> short[j] == long[j],
    ensures
        closest_before(short, t_max, i) == closest_before(long, t_max, i),
        latest_hit(short, i) == latest_hit(long, i),
    decreases i,
{
    if i > 0 {
        lemma_scan_prefix(short, long, t_max, i - 1);
    }
}

/// A scan with exact probes finds the scan's value: where each probe reports
/// its object's crossing exactly when it lies in the window, the hit kept at
/// the end of any scan is `scan_value` of the objects.
pub proof fn lemma_exact_scan_finds_value<
    T,
    R,
    H,
    F: Fn(&T, &R, Scalar, Scalar) -> Option<(Scalar, H)>,
>(
    list: HittableList<T>,
    r: &R,
    t_min: Scalar,
    t_max: Scalar,
    probe: &F,
    crossing: spec_fn(T) -> Option<(Scalar, H)>,
    answers: Seq<Option<(Scalar, H)>>,
)
    requires
        forall|o: T, upper: Scalar, answer: Option<(Scalar, H)>| #[trigger]
            probe.ensures((&o, r, t_min, upper), answer) ==> answer == reaches(crossing(o), upper),
        list.is_scan(r, t_min, t_max, probe, answers),
    ensures
        latest_hit(answers, answers.len() as int) == scan_value(list.objects@, crossing, t_max),
{
    lemma_exact_scan_prefix(list, r, t_min, t_max, probe, crossing, answers, answers.len() as int);
    assert(list.objects@.take(answers.len() as int) == list.objects@);
}

proof fn lemma_exact_scan_prefix<T, R, H, F: Fn(&T, &R, Scalar, Scalar) -> Option<(Scalar, H)>>(
    list: HittableList<T>,
    r: &R,
    t_min: Scalar,
    t_max: Scalar,
    probe: &F,
    crossing: spec_fn(T) -> Option<(Scalar, H)>,
    answers: Seq<Option<(Scalar, H)>>,
    k: int,
)
    requires
        forall|o: T, upper: Scalar, answer: Option<(Scalar, H)>| #[trigger]
            probe.ensures((&o, r, t_min, upper), answer) ==> answer == reaches(crossing(o), upper),
        list.is_scan(r, t_min, t_max, probe, answers),
        0 <= k <= answers.len(),
    ensures
        latest_hit(answers, k) == scan_value(list.objects@.take(k), crossing, t_max),
        closest_before(answers, t_max, k) == window_after(latest_hit(answers, k), t_max),
    decreases k,
{
    if k > 0 {
        lemma_exact_scan_prefix(list, r, t_min, t_max, probe, crossing, answers, k - 1);
        let objs = list.objects@.take(k);
        assert(objs.drop_last() == list.objects@.take(k - 1));
        assert(objs.last() == list.objects@[k - 1]);
        assert(probe.ensures(
            (&list.objects@[k - 1], r, t_min, closest_before(answers, t_max, k - 1)),
            answers[k - 1],
        ));
    }
}

} // verus!
