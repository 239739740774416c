//! The lattice of gradient noise: three random permutations of the point
//! indices, and the rule that picks a gradient for a lattice point.
//!
//! The gradients themselves and the interpolation between them are the
//! caller's; this module says which gradient belongs to which corner.

use crate::utils::random_int;
use vstd::prelude::*;

verus! {

/// Number of gradients, and length of each permutation.
pub const POINT_COUNT: usize = 256;

pub struct Perlin {
    point_count: usize,
    perm_x: Vec<i32>,
    perm_y: Vec<i32>,
    perm_z: Vec<i32>,
}

/// `p` holds every index below `n` exactly once.
pub open spec fn is_permutation(p: Seq<i32>, n: int) -> bool {
    &&& p.len() == n
    &&& forall|i: int| 0 <= i < n ==> 0 <= #[trigger] p[i] < n
    &&& forall|i: int, j: int| 0 <= i < j < n ==> #[trigger] p[i] != #[trigger] p[j]
}

/// `s` with the entries at `a` and `b` exchanged.
pub open spec fn exchanged(s: Seq<i32>, a: int, b: int) -> Seq<i32> {
    s.update(a, s[b]).update(b, s[a])
}

/// `targets` names a partner for every position of a shuffle of `n`
/// entries: for each position from the second on, an earlier position.
pub open spec fn are_targets(targets: Seq<int>, n: int) -> bool {
    &&& targets.len() == n
    &&& forall|k: int| 1 <= k < n ==> 0 <= #[trigger] targets[k] < k
}

/// `s` after the exchanges of a shuffle of the first `n` entries, from the
/// last position down to position `i`: each position in turn is exchanged
/// with its partner in `targets`.
pub open spec fn shuffled(s: Seq<i32>, n: int, i: int, targets: Seq<int>) -> Seq<i32>
    decreases n - i,
{
    if i >= n {
        s
    } else {
        exchanged(shuffled(s, n, i + 1, targets), i, targets[i])
    }
}

/// The indices below `n` in their own order.
pub open spec fn identity(n: nat) -> Seq<i32> {
    Seq::new(n, |i: int| i as i32)
}

/// `p` is what a shuffle makes of the indices below `n`: the indices in
/// their own order, with the exchanges of some run of the shuffle made.
pub open spec fn is_shuffled_identity(p: Seq<i32>, n: int) -> bool {
    exists|targets: Seq<int>| #[trigger]
        are_targets(targets, n) && p == shuffled(identity(n as nat), n, 1, targets)
}

/// Position in a permutation of the lattice coordinate `i`: its remainder
/// modulo the number of points, which for a negative coordinate counts up
/// from the next lower multiple.
pub open spec fn lattice_slot(i: int) -> int {
    i % (POINT_COUNT as int)
}

fn slot_of(i: i32, offset: i32) -> (r: usize)
    requires
        0 <= offset <= 1,
    ensures
        r == lattice_slot(i + offset),
        r < POINT_COUNT,
{
    let shifted: i64 = i as i64 + offset as i64 + 2147483648;
    (shifted % 256) as usize
}

impl Perlin {
    #[verifier::type_invariant]
    spec fn well_formed(self) -> bool {
        &&& self.point_count == POINT_COUNT
        &&& is_permutation(self.perm_x@, POINT_COUNT as int)
        &&& is_permutation(self.perm_y@, POINT_COUNT as int)
        &&& is_permutation(self.perm_z@, POINT_COUNT as int)
    }

    /// The three permutations, for the x, y and z coordinate.
    pub closed spec fn perms(self) -> (Seq<i32>, Seq<i32>, Seq<i32>) {
        (self.perm_x@, self.perm_y@, self.perm_z@)
    }

    /// Index of the gradient at the lattice point `(i, j, k)`: the three
    /// permuted coordinates combined by exclusive or.
    pub open spec fn gradient_at(self, i: int, j: int, k: int) -> int {
        (self.perms().0[lattice_slot(i)] ^ self.perms().1[lattice_slot(j)] ^ self.perms().2[lattice_slot(
            k,
        )]) as int
    }

    /// The number of points of the lattice.
    pub closed spec fn count(self) -> nat {
        self.point_count as nat
    }

    /// A lattice with three fresh random permutations, each of them shuffled.
    pub fn new() -> (r: Self)
        ensures
            r.count() == POINT_COUNT,
            is_permutation(r.perms().0, POINT_COUNT as int),
            is_permutation(r.perms().1, POINT_COUNT as int),
            is_permutation(r.perms().2, POINT_COUNT as int),
            is_shuffled_identity(r.perms().0, POINT_COUNT as int),
            is_shuffled_identity(r.perms().1, POINT_COUNT as int),
            is_shuffled_identity(r.perms().2, POINT_COUNT as int),
    {
        let point_count: usize = 256;
        let perm_x = Perlin::generate_perm(point_count);
        let perm_y = Perlin::generate_perm(point_count);
        let perm_z = Perlin::generate_perm(point_count);
        Self { point_count, perm_x, perm_y, perm_z }
    }

    /// The permutation for the x coordinate.
    pub fn perm_x(&self) -> (r: &[i32])
        ensures
            r@ == self.perms().0,
            is_permutation(r@, POINT_COUNT as int),
    {
        proof {
            use_type_invariant(self);
        }
        self.perm_x.as_slice()
    }

    /// The permutation for the y coordinate.
    pub fn perm_y(&self) -> (r: &[i32])
        ensures
            r@ == self.perms().1,
            is_permutation(r@, POINT_COUNT as int),
    {
        proof {
            use_type_invariant(self);
        }
        self.perm_y.as_slice()
    }

    /// The permutation for the z coordinate.
    pub fn perm_z(&self) -> (r: &[i32])
        ensures
            r@ == self.perms().2,
            is_permutation(r@, POINT_COUNT as int),
    {
        proof {
            use_type_invariant(self);
        }
        self.perm_z.as_slice()
    }

    /// The gradient indices of the eight corners of the lattice cell whose
    /// lowest corner is `(i, j, k)`: entry `4 * di + 2 * dj + dk` belongs to
    /// the corner `(i + di, j + dj, k + dk)`.
    pub fn corners(&self, i: i32, j: i32, k: i32) -> (c: [usize; 8])
        ensures
            forall|di: int, dj: int, dk: int|
                0 <= di < 2 && 0 <= dj < 2 && 0 <= dk < 2 ==> #[trigger] c@[4 * di + 2 * dj + dk]
                    == self.gradient_at(i + di, j + dj, k + dk),
            forall|n: int| 0 <= n < 8 ==> #[trigger] c@[n] < POINT_COUNT,
    {
        let mut c: [usize; 8] = [0; 8];
        for di in 0..2usize
            invariant
                forall|a: int, dj: int, dk: int|
                    0 <= a < di && 0 <= dj < 2 && 0 <= dk < 2 ==> #[trigger] c@[4 * a + 2 * dj + dk]
                        == self.gradient_at(i + a, j + dj, k + dk) && c@[4 * a + 2 * dj + dk]
                        < POINT_COUNT,
        {
            for dj in 0..2usize
                invariant
                    di < 2,
                    forall|a: int, b: int, dk: int|
                        (0 <= a < di && 0 <= b < 2 || a == di && 0 <= b < dj) && 0 <= dk < 2
                            ==> #[trigger] c@[4 * a + 2 * b + dk] == self.gradient_at(
                            i + a,
                            j + b,
                            k + dk,
                        ) && c@[4 * a + 2 * b + dk] < POINT_COUNT,
            {
                for dk in 0..2usize
                    invariant
                        di < 2,
                        dj < 2,
                        forall|a: int, b: int, d: int|
                            (0 <= a < di && 0 <= b < 2 && 0 <= d < 2 || a == di && 0 <= b < dj && 0
                                <= d < 2 || a == di && b == dj && 0 <= d < dk) ==> #[trigger] c@[4
                                * a + 2 * b + d] == self.gradient_at(i + a, j + b, k + d) && c@[4
                                * a + 2 * b + d] < POINT_COUNT,
                {
                    let index = self.corner(i, j, k, di as i32, dj as i32, dk as i32);
                    c[4 * di + 2 * dj + dk] = index;
                }
            }
        }
        proof {
            assert forall|n: int| 0 <= n < 8 implies #[trigger] c@[n] < POINT_COUNT by {
                let di = n / 4;
                let dj = (n % 4) / 2;
                let dk = n % 2;
                assert(n == 4 * di + 2 * dj + dk);
                assert(c@[4 * di + 2 * dj + dk] < POINT_COUNT);
            }
        }
        c
    }

    /// The gradient index of the corner `(i + di, j + dj, k + dk)`.
    fn corner(&self, i: i32, j: i32, k: i32, di: i32, dj: i32, dk: i32) -> (r: usize)
        requires
            0 <= di <= 1,
            0 <= dj <= 1,
            0 <= dk <= 1,
        ensures
            r == self.gradient_at(i + di, j + dj, k + dk),
            r < POINT_COUNT,
    {
        proof {
            use_type_invariant(self);
        }
        let a: i32 = self.perm_x[slot_of(i, di)];
        let b: i32 = self.perm_y[slot_of(j, dj)];
        let c: i32 = self.perm_z[slot_of(k, dk)];
        assert(0 <= (a ^ b ^ c) < 256) by (bit_vector)
            requires
                0 <= a < 256,
                0 <= b < 256,
                0 <= c < 256,
        ;
        (a ^ b ^ c) as usize
    }

    /// The indices below `point_count` in a random order: the indices in
    /// their own order, shuffled by `permute`.
    pub fn generate_perm(point_count: usize) -> (p: Vec<i32>)
        requires
            point_count <= i32::MAX,
        ensures
            is_permutation(p@, point_count as int),
            is_shuffled_identity(p@, point_count as int),
    {
        let mut p: Vec<i32> = Vec::with_capacity(point_count);
        for i in 0..point_count
            invariant
                point_count <= i32::MAX,
                p@.len() == i,
                forall|a: int| 0 <= a < i ==> #[trigger] p@[a] == a,
        {
            p.push(i as i32);
        }
        assert(p@ == identity(point_count as nat));
        Perlin::permute(&mut p, point_count);
        p
    }

    /// Shuffles the first `n` entries: from the last entry down to the
    /// second, each is exchanged with a random earlier one.
    ///
    /// Whatever partners are drawn, the vector afterwards is the vector
    /// before with exactly those exchanges made, in that order. So it holds
    /// the same entries, the entries from `n` on are untouched, and a
    /// permutation stays a permutation.
    pub fn permute(p: &mut Vec<i32>, n: usize)
        requires
            n <= old(p)@.len(),
            n <= i32::MAX,
        ensures
            exists|targets: Seq<int>| #[trigger]
                are_targets(targets, n as int) && final(p)@ == shuffled(
                    old(p)@,
                    n as int,
                    1,
                    targets,
                ),
            final(p)@.len() == old(p)@.len(),
            final(p)@.to_multiset() == old(p)@.to_multiset(),
            forall|i: int| n <= i < old(p)@.len() ==> final(p)@[i] == old(p)@[i],
            forall|m: int| is_permutation(old(p)@, m) ==> is_permutation(final(p)@, m),
    {
        let mut i: usize = n;
        let ghost mut targets: Seq<int> = Seq::new(n as nat, |k: int| 0int);
        while i > 1
            invariant
                i <= n <= p@.len(),
                n >= 1 ==> i >= 1,
                n <= i32::MAX,
                targets.len() == n,
                forall|k: int| i <= k < n && 1 <= k ==> 0 <= #[trigger] targets[k] < k,
                forall|k: int| 0 <= k < i ==> #[trigger] targets[k] == 0,
                p@ == shuffled(old(p)@, n as int, i as int, targets),
                p@.len() == old(p)@.len(),
                p@.to_multiset() == old(p)@.to_multiset(),
                forall|a: int| n <= a < old(p)@.len() ==> p@[a] == old(p)@[a],
                forall|m: int| is_permutation(old(p)@, m) ==> is_permutation(p@, m),
            decreases i,
        {
            i = i - 1;
            let target = random_int(0, i as i32) as usize;
            let ghost before = p@;
            let ghost drawn = targets;
            let tmp = p[i];
            let other = p[target];
            p.set(i, other);
            p.set(target, tmp);
            proof {
                lemma_exchange(before, i as int, target as int);
                assert(p@ == exchanged(before, i as int, target as int));
                targets = drawn.update(i as int, target as int);
                lemma_shuffled_ignores_earlier_targets(
                    old(p)@,
                    n as int,
                    i + 1,
                    drawn,
                    targets,
                );
            }
        }
        proof {
            if n == 0 {
                assert(p@ == shuffled(old(p)@, n as int, 1, targets));
            }
            assert(are_targets(targets, n as int));
        }
    }
}

/// The exchanges from the last position down to position `i` depend on the
/// partners of those positions alone.
pub proof fn lemma_shuffled_ignores_earlier_targets(
    s: Seq<i32>,
    n: int,
    i: int,
    first: Seq<int>,
    second: Seq<int>,
)
    requires
        first.len() == second.len(),
        n <= first.len(),
        0 <= i,
        forall|k: int| i <= k < n ==> first[k] == second[k],
    ensures
        shuffled(s, n, i, first) == shuffled(s, n, i, second),
    decreases n - i,
{
    if i < n {
        lemma_shuffled_ignores_earlier_targets(s, n, i + 1, first, second);
    }
}

/// Exchanging two entries keeps what a sequence holds, and keeps a
/// permutation a permutation.
proof fn lemma_exchange(s: Seq<i32>, a: int, b: int)
    requires
        0 <= a < s.len(),
        0 <= b < s.len(),
    ensures
        s.update(a, s[b]).update(b, s[a]).to_multiset() == s.to_multiset(),
        forall|m: int|
            is_permutation(s, m) ==> is_permutation(s.update(a, s[b]).update(b, s[a]), m),
{
    broadcast use vstd::multiset::group_multiset_axioms;

    let once = s.update(a, s[b]);
    let twice = once.update(b, s[a]);
    if a == b {
        assert(twice == s);
    } else {
        vstd::seq_lib::to_multiset_update(s, a, s[b]);
        vstd::seq_lib::to_multiset_update(once, b, s[a]);
        vstd::seq_lib::to_multiset_contains(s, s[a]);
        vstd::seq_lib::to_multiset_contains(once, s[b]);
        assert(s.contains(s[a]));
        assert(once[b] == s[b]);
        assert(once.contains(s[b]));
        assert forall|v: i32| twice.to_multiset().count(v) == s.to_multiset().count(v) by {
            assert(once.to_multiset().count(v) == s.to_multiset().insert(s[b]).remove(s[a]).count(
                v,
            ));
            assert(twice.to_multiset().count(v) == once.to_multiset().insert(s[a]).remove(
                s[b],
            ).count(v));
        }
        assert(twice.to_multiset() =~= s.to_multiset());
    }
    assert forall|m: int| is_permutation(s, m) implies is_permutation(twice, m) by {
        assert forall|i: int, j: int| 0 <= i < j < m implies #[trigger] twice[i] != #[trigger] twice[j] by {
            let si = if i == a { b } else if i == b { a } else { i };
            let sj = if j == a { b } else if j == b { a } else { j };
            assert(twice[i] == s[si]);
            assert(twice[j] == s[sj]);
            if si < sj {
                assert(s[si] != s[sj]);
            } else {
                assert(s[sj] != s[si]);
            }
        }
    }
}

} // verus!
