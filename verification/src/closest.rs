//! The closest hit as a function.
//!
//! The scene list and the hierarchy are stated over closures, which may
//! answer differently each time. Where each object has one crossing with the
//! ray and a probe reports it exactly when it lies in the window, both
//! searches compute a function of the crossings. This module defines that
//! function for the linear scan and proves what it finds.

use crate::scalar::Scalar;
use vstd::prelude::*;

verus! {

/// Upper end of the window once `found` is known: the parameter of the hit,
/// or `t_max` where nothing was hit.
pub open spec fn window_after<H>(found: Option<(Scalar, H)>, t_max: Scalar) -> Scalar {
    match found {
        Some(hit) => hit.0,
        None => t_max,
    }
}

/// The hit kept when a later search follows an earlier one: the later hit
/// where there is one, else the earlier.
pub open spec fn kept_hit<H>(earlier: Option<(Scalar, H)>, later: Option<(Scalar, H)>) -> Option<
    (Scalar, H),
> {
    if later is Some {
        later
    } else {
        earlier
    }
}

/// What an exact probe reports of an object with the given crossing on a
/// window that ends at `upper`: the crossing, if its parameter is a number
/// not above `upper`.
pub open spec fn reaches<H>(crossing: Option<(Scalar, H)>, upper: Scalar) -> Option<(Scalar, H)> {
    match crossing {
        Some(hit) => if hit.0.le_spec(upper) {
            Some(hit)
        } else {
            None
        },
        None => None,
    }
}

/// What the linear scan finds among `objs` on a window that ends at `upper`,
/// for exact probes.
pub open spec fn scan_value<T, H>(
    objs: Seq<T>,
    crossing: spec_fn(T) -> Option<(Scalar, H)>,
    upper: Scalar,
) -> Option<(Scalar, H)>
    decreases objs.len(),
{
    if objs.len() == 0 {
        None
    } else {
        let before = scan_value(objs.drop_last(), crossing, upper);
        kept_hit(before, reaches(crossing(objs.last()), window_after(before, upper)))
    }
}

/// Every crossing among `objs` has a number as its parameter.
pub open spec fn crossings_are_numbers<T, H>(
    objs: Seq<T>,
    crossing: spec_fn(T) -> Option<(Scalar, H)>,
) -> bool {
    forall|i: int|
        0 <= i < objs.len() ==> (crossing(#[trigger] objs[i]) matches Some(hit)
            ==> !hit.0.is_nan_spec())
}

/// Scanning two lists one after the other is scanning their concatenation:
/// the second scan starts on the window that the first has left.
pub proof fn lemma_scan_concat<T, H>(
    a: Seq<T>,
    b: Seq<T>,
    crossing: spec_fn(T) -> Option<(Scalar, H)>,
    upper: Scalar,
)
    ensures
        scan_value(a + b, crossing, upper) == kept_hit(
            scan_value(a, crossing, upper),
            scan_value(b, crossing, window_after(scan_value(a, crossing, upper), upper)),
        ),
    decreases b.len(),
{
    if b.len() == 0 {
        assert(a + b == a);
    } else {
        assert((a + b).drop_last() == a + b.drop_last());
        assert((a + b).last() == b.last());
        lemma_scan_concat(a, b.drop_last(), crossing, upper);
    }
}

/// Where no object can be reached on the window, the scan finds nothing.
pub proof fn lemma_scan_of_unreachable<T, H>(
    objs: Seq<T>,
    crossing: spec_fn(T) -> Option<(Scalar, H)>,
    upper: Scalar,
)
    requires
        forall|i: int| 0 <= i < objs.len() ==> reaches(crossing(#[trigger] objs[i]), upper) is None,
    ensures
        scan_value(objs, crossing, upper) is None,
    decreases objs.len(),
{
    if objs.len() > 0 {
        assert forall|i: int| 0 <= i < objs.drop_last().len() implies reaches(
            crossing(#[trigger] objs.drop_last()[i]),
            upper,
        ) is None by {
            assert(objs.drop_last()[i] == objs[i]);
        }
        lemma_scan_of_unreachable(objs.drop_last(), crossing, upper);
        assert(objs.last() == objs[objs.len() - 1]);
    }
}

/// What the scan finds is the closest crossing: it is the crossing of one of
/// the objects, it lies in the window, and no object of the list has a
/// crossing in the window with a smaller parameter. The scan finds nothing
/// only where no object can be reached.
pub proof fn lemma_scan_finds_closest<T, H>(
    objs: Seq<T>,
    crossing: spec_fn(T) -> Option<(Scalar, H)>,
    upper: Scalar,
)
    requires
        crossings_are_numbers(objs, crossing),
        !upper.is_nan_spec(),
    ensures
        match scan_value(objs, crossing, upper) {
            Some(found) => {
                &&& found.0.le_spec(upper)
                &&& exists|i: int| 0 <= i < objs.len() && crossing(#[trigger] objs[i]) == Some(found)
                &&& forall|j: int|
                    0 <= j < objs.len() ==> (crossing(#[trigger] objs[j]) matches Some(other)
                        ==> found.0.rank() <= other.0.rank())
            },
            None => forall|j: int|
                0 <= j < objs.len() ==> reaches(crossing(#[trigger] objs[j]), upper) is None,
        },
    decreases objs.len(),
{
    if objs.len() > 0 {
        let front = objs.drop_last();
        let last = objs.last();
        assert(last == objs[objs.len() - 1]);
        assert forall|i: int| 0 <= i < front.len() implies front[i] == objs[i] by {}
        assert(crossings_are_numbers(front, crossing)) by {
            assert forall|i: int| 0 <= i < front.len() implies (crossing(
                #[trigger] front[i],
            ) matches Some(hit) ==> !hit.0.is_nan_spec()) by {
                assert(front[i] == objs[i]);
            }
        }
        lemma_scan_finds_closest(front, crossing, upper);
        let before = scan_value(front, crossing, upper);
        let window = window_after(before, upper);
        let now = reaches(crossing(last), window);
        let result = kept_hit(before, now);
        assert(result == scan_value(objs, crossing, upper));
        match result {
            Some(found) => {
                if now is Some {
                    assert(crossing(objs[objs.len() - 1]) == Some(found));
                } else {
                    let i = choose|i: int|
                        0 <= i < front.len() && crossing(#[trigger] front[i]) == Some(found);
                    assert(crossing(objs[i]) == Some(found));
                }
                assert forall|j: int| 0 <= j < objs.len() implies (crossing(
                    #[trigger] objs[j],
                ) matches Some(other) ==> found.0.rank() <= other.0.rank()) by {
                    if j < front.len() {
                        assert(front[j] == objs[j]);
                    }
                }
            },
            None => {
                assert forall|j: int| 0 <= j < objs.len() implies reaches(
                    crossing(#[trigger] objs[j]),
                    upper,
                ) is None by {
                    if j < front.len() {
                        assert(front[j] == objs[j]);
                    }
                }
            },
        }
    }
}

/// The parameter of the closest hit does not depend on the order of the
/// list, nor on how often an object stands in it: two lists with the same
/// objects give hits with parameters of the same rank, or both give none.
pub proof fn lemma_scan_parameter_ignores_order<T, H>(
    a: Seq<T>,
    b: Seq<T>,
    crossing: spec_fn(T) -> Option<(Scalar, H)>,
    upper: Scalar,
)
    requires
        forall|i: int| 0 <= i < a.len() ==> b.contains(#[trigger] a[i]),
        forall|j: int| 0 <= j < b.len() ==> a.contains(#[trigger] b[j]),
        crossings_are_numbers(a, crossing),
        !upper.is_nan_spec(),
    ensures
        match (scan_value(a, crossing, upper), scan_value(b, crossing, upper)) {
            (Some(x), Some(y)) => x.0.rank() == y.0.rank(),
            (None, None) => true,
            _ => false,
        },
{
    assert(crossings_are_numbers(b, crossing)) by {
        assert forall|j: int| 0 <= j < b.len() implies (crossing(#[trigger] b[j]) matches Some(hit)
            ==> !hit.0.is_nan_spec()) by {
            let i = choose|i: int| 0 <= i < a.len() && a[i] == b[j];
            assert(a[i] == b[j]);
        }
    }
    lemma_scan_finds_closest(a, crossing, upper);
    lemma_scan_finds_closest(b, crossing, upper);
    match scan_value(a, crossing, upper) {
        Some(x) => {
            let i = choose|i: int| 0 <= i < a.len() && crossing(#[trigger] a[i]) == Some(x);
            let j = choose|j: int| 0 <= j < b.len() && b[j] == a[i];
            assert(reaches(crossing(b[j]), upper) is Some);
            match scan_value(b, crossing, upper) {
                Some(y) => {
                    let j2 = choose|j2: int|
                        0 <= j2 < b.len() && crossing(#[trigger] b[j2]) == Some(y);
                    let i2 = choose|i2: int| 0 <= i2 < a.len() && a[i2] == b[j2];
                    assert(crossing(a[i2]) == Some(y));
                    assert(crossing(b[j]) == Some(x));
                },
                None => {},
            }
        },
        None => {
            match scan_value(b, crossing, upper) {
                Some(y) => {
                    let j2 = choose|j2: int|
                        0 <= j2 < b.len() && crossing(#[trigger] b[j2]) == Some(y);
                    let i2 = choose|i2: int| 0 <= i2 < a.len() && a[i2] == b[j2];
                    assert(reaches(crossing(a[i2]), upper) is Some);
                },
                None => {},
            }
        },
    }
}

} // verus!
