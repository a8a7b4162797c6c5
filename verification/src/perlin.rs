//! The tables of the Perlin noise generator: random gradients, reached
//! through three random permutations.
use vstd::prelude::*;
use rand::rngs::StdRng;
use crate::random::random_up_to;
use crate::vec3::Vec3;

verus! {

/// The size of each table.
pub const POINT_COUNT: usize = 256;

/// `table` holds every number below `POINT_COUNT` exactly once.
pub open spec fn is_permutation(table: Seq<usize>) -> bool {
    &&& table.len() == POINT_COUNT
    &&& forall|i: int| 0 <= i < table.len() ==> #[trigger] table[i] < POINT_COUNT
    &&& forall|i: int, j: int| 0 <= i < j < table.len() ==> table[i] != table[j]
}

/// The place of a lattice coordinate in a table: the coordinate modulo the
/// size of the table, so that the lattice repeats in every direction.
pub open spec fn wrapped(coordinate: int) -> int {
    coordinate % (POINT_COUNT as int)
}

/// The table with the entries at `i` and `j` exchanged.
pub open spec fn exchanged(table: Seq<usize>, i: int, j: int) -> Seq<usize> {
    table.update(i, table[j]).update(j, table[i])
}

/// Exchanges two entries of a table: one step of the shuffle, for one
/// target that was drawn.
pub fn exchange(table: &mut Vec<usize>, i: usize, j: usize)
    requires
        i < old(table)@.len(),
        j < old(table)@.len(),
    ensures
        final(table)@ == exchanged(old(table)@, i as int, j as int),
        final(table)@.to_multiset() == old(table)@.to_multiset(),
        is_permutation(old(table)@) ==> is_permutation(final(table)@),
{
    let ghost before = table@;
    let a = table[i];
    let b = table[j];
    table.set(i, b);
    table.set(j, a);
    proof {
        broadcast use {
            vstd::seq_lib::group_to_multiset_ensures,
            vstd::multiset::group_multiset_axioms,
        };

        let half = before.update(i as int, b);
        assert(half.to_multiset() == before.to_multiset().insert(b).remove(a));
        assert(table@.to_multiset() == half.to_multiset().insert(a).remove(b));
        assert(table@.to_multiset() =~= before.to_multiset());
    }
}

/// The draws of one shuffle: one target for each entry from the last of the
/// first `POINT_COUNT` down to the second, none beyond the entry it is
/// drawn for.
pub open spec fn are_targets(targets: Seq<usize>) -> bool {
    &&& targets.len() == POINT_COUNT - 1
    &&& forall|k: int| 0 <= k < targets.len() ==> #[trigger] targets[k] <= POINT_COUNT - 1 - k
}

/// The table after the exchanges of a shuffle: the first target is
/// exchanged with the last of the first `POINT_COUNT` entries, the second
/// with the entry before that, and so on.
pub open spec fn shuffled(table: Seq<usize>, targets: Seq<usize>) -> Seq<usize>
    decreases targets.len(),
{
    if targets.len() == 0 {
        table
    } else {
        exchanged(
            shuffled(table, targets.drop_last()),
            POINT_COUNT - targets.len(),
            targets.last() as int,
        )
    }
}

/// `result` is what some draws of a shuffle make of `table`.
pub open spec fn is_shuffle_of(result: Seq<usize>, table: Seq<usize>) -> bool {
    exists|targets: Seq<usize>| are_targets(targets) && result == #[trigger] shuffled(table, targets)
}

/// The exchanges of a shuffle leave the entries from `POINT_COUNT` on
/// where they are, and keep the length of the table.
pub proof fn lemma_shuffled_keeps_the_rest(table: Seq<usize>, targets: Seq<usize>)
    requires
        table.len() >= POINT_COUNT,
        targets.len() < POINT_COUNT,
        forall|k: int| 0 <= k < targets.len() ==> #[trigger] targets[k] < POINT_COUNT,
    ensures
        shuffled(table, targets).len() == table.len(),
        forall|k: int| POINT_COUNT <= k < table.len() ==> shuffled(table, targets)[k] == table[k],
    decreases targets.len(),
{
    if targets.len() > 0 {
        let front = targets.drop_last();
        assert forall|k: int| 0 <= k < front.len() implies #[trigger] front[k] < POINT_COUNT by {
            assert(front[k] == targets[k]);
        }
        lemma_shuffled_keeps_the_rest(table, front);
    }
}

/// Shuffles with targets that were drawn beforehand: the exchanges of
/// `shuffled`, one after the other.
pub fn shuffle_with(table: &mut Vec<usize>, targets: &Vec<usize>)
    requires
        old(table)@.len() >= POINT_COUNT,
        targets@.len() < POINT_COUNT,
        forall|k: int| 0 <= k < targets@.len() ==> #[trigger] targets@[k] < old(table)@.len(),
    ensures
        final(table)@ == shuffled(old(table)@, targets@),
        final(table)@.len() == old(table)@.len(),
        final(table)@.to_multiset() == old(table)@.to_multiset(),
        is_permutation(old(table)@) ==> is_permutation(final(table)@),
{
    let mut k: usize = 0;
    while k < targets.len()
        invariant
            k <= targets@.len(),
            targets@.len() < POINT_COUNT,
            table@.len() == old(table)@.len(),
            table@.len() >= POINT_COUNT,
            forall|m: int| 0 <= m < targets@.len() ==> #[trigger] targets@[m] < table@.len(),
            table@ == shuffled(old(table)@, targets@.take(k as int)),
            table@.to_multiset() == old(table)@.to_multiset(),
            is_permutation(old(table)@) ==> is_permutation(table@),
        decreases targets@.len() - k,
    {
        proof {
            assert(targets@.take(k + 1).drop_last() == targets@.take(k as int));
            assert(targets@.take(k + 1).last() == targets@[k as int]);
        }
        exchange(table, POINT_COUNT - 1 - k, targets[k]);
        k += 1;
    }
    proof {
        assert(targets@.take(k as int) == targets@);
    }
}

/// Shuffles the first `POINT_COUNT` entries of a table: for each of them
/// from the last down to the second a target is drawn at random from the
/// entries up to itself, and the two are exchanged. The table holds what it
/// held, in another order.
pub fn shuffle(table: &mut Vec<usize>, rng: &mut StdRng)
    requires
        old(table)@.len() >= POINT_COUNT,
    ensures
        is_shuffle_of(final(table)@, old(table)@),
        final(table)@.len() == old(table)@.len(),
        final(table)@.to_multiset() == old(table)@.to_multiset(),
        is_permutation(old(table)@) ==> is_permutation(final(table)@),
        forall|k: int|
            POINT_COUNT <= k < final(table)@.len() ==> final(table)@[k] == old(table)@[k],
{
    let mut targets: Vec<usize> = Vec::new();
    let mut k: usize = 0;
    while k < POINT_COUNT - 1
        invariant
            k <= POINT_COUNT - 1,
            targets@.len() == k,
            forall|m: int| 0 <= m < k ==> #[trigger] targets@[m] <= POINT_COUNT - 1 - m,
        decreases POINT_COUNT - 1 - k,
    {
        let target = random_up_to(rng, POINT_COUNT - 1 - k);
        targets.push(target);
        k += 1;
    }
    proof {
        assert(are_targets(targets@));
        lemma_shuffled_keeps_the_rest(table@, targets@);
    }
    shuffle_with(table, &targets);
}

/// The numbers below `POINT_COUNT` in order.
pub open spec fn in_order() -> Seq<usize> {
    Seq::new(POINT_COUNT as nat, |i: int| i as usize)
}

/// The table that holds every number at its own place.
pub fn identity() -> (table: Vec<usize>)
    ensures
        table@ == in_order(),
        is_permutation(table@),
{
    let mut table: Vec<usize> = Vec::new();
    let mut i: usize = 0;
    while i < POINT_COUNT
        invariant
            i <= POINT_COUNT,
            table@.len() == i,
            forall|k: int| 0 <= k < i ==> table@[k] == k,
        decreases POINT_COUNT - i,
    {
        table.push(i);
        i += 1;
    }
    table
}

/// The noise generator: a table of gradient vectors and one permutation for
/// each axis.
#[derive(Debug)]
pub struct Perlin {
    ranvec: Vec<Vec3>,
    perm_x: Vec<usize>,
    perm_y: Vec<usize>,
    perm_z: Vec<usize>,
}

impl Perlin {
    /// The four tables are full, and the three for the axes are
    /// permutations.
    pub open spec fn wf(&self) -> bool {
        &&& self.gradients().len() == POINT_COUNT
        &&& is_permutation(self.permutation_x())
        &&& is_permutation(self.permutation_y())
        &&& is_permutation(self.permutation_z())
    }

    pub closed spec fn gradients(&self) -> Seq<Vec3> {
        self.ranvec@
    }

    pub closed spec fn permutation_x(&self) -> Seq<usize> {
        self.perm_x@
    }

    pub closed spec fn permutation_y(&self) -> Seq<usize> {
        self.perm_y@
    }

    pub closed spec fn permutation_z(&self) -> Seq<usize> {
        self.perm_z@
    }

    /// The place in the table of gradients for a point of the lattice: the
    /// three permuted coordinates, combined bit by bit.
    pub open spec fn slot(&self, i: int, j: int, k: int) -> usize {
        self.permutation_x()[wrapped(i)] ^ self.permutation_y()[wrapped(j)]
            ^ self.permutation_z()[wrapped(k)]
    }

    /// The gradient at a point of the lattice.
    pub open spec fn lattice(&self, i: int, j: int, k: int) -> Vec3 {
        self.gradients()[self.slot(i, j, k) as int]
    }

    /// A generator with the given gradients and three freshly shuffled
    /// permutations: for the x axis, then the y axis, then the z axis, the
    /// table of the numbers in order is shuffled.
    pub fn new(gradients: Vec<Vec3>, rng: &mut StdRng) -> (perlin: Self)
        requires
            gradients@.len() == POINT_COUNT,
        ensures
            perlin.wf(),
            perlin.gradients() == gradients@,
            is_permutation(perlin.permutation_x()),
            is_permutation(perlin.permutation_y()),
            is_permutation(perlin.permutation_z()),
            is_shuffle_of(perlin.permutation_x(), in_order()),
            is_shuffle_of(perlin.permutation_y(), in_order()),
            is_shuffle_of(perlin.permutation_z(), in_order()),
    {
        let mut perm_x = identity();
        let mut perm_y = identity();
        let mut perm_z = identity();
        shuffle(&mut perm_x, rng);
        shuffle(&mut perm_y, rng);
        shuffle(&mut perm_z, rng);
        Self { ranvec: gradients, perm_x, perm_y, perm_z }
    }

    /// A generator from four given tables, if they are full and the three
    /// for the axes are permutations.
    pub fn from_tables(
        gradients: Vec<Vec3>,
        perm_x: Vec<usize>,
        perm_y: Vec<usize>,
        perm_z: Vec<usize>,
    ) -> (perlin: Option<Self>)
        ensures
            perlin is Some <==> gradients@.len() == POINT_COUNT && is_permutation(perm_x@)
                && is_permutation(perm_y@) && is_permutation(perm_z@),
            perlin matches Some(p) ==> p.wf() && p.gradients() == gradients@ && p.permutation_x()
                == perm_x@ && p.permutation_y() == perm_y@ && p.permutation_z() == perm_z@,
    {
        if gradients.len() == POINT_COUNT && check_permutation(&perm_x) && check_permutation(
            &perm_y,
        ) && check_permutation(&perm_z) {
            Some(Self { ranvec: gradients, perm_x, perm_y, perm_z })
        } else {
            None
        }
    }

    /// The gradient at the point `(i, j, k)` of the lattice.
    pub fn int_noise(&self, i: i32, j: i32, k: i32) -> (gradient: Vec3)
        requires
            self.wf(),
        ensures
            gradient == self.lattice(i as int, j as int, k as int),
    {
        let x = self.perm_x[wrap(i)];
        let y = self.perm_y[wrap(j)];
        let z = self.perm_z[wrap(k)];
        assert(x ^ y ^ z < 256) by (bit_vector)
            requires
                x < 256,
                y < 256,
                z < 256,
        ;
        self.ranvec[x ^ y ^ z]
    }

    /// The gradients at the eight corners of the cell of the lattice whose
    /// lowest corner is `(i, j, k)`. The corner that lies `di`, `dj` and
    /// `dk` steps of 0 or 1 further along the three axes stands at place
    /// `4 * di + 2 * dj + dk`. At the edge of the range of the coordinates
    /// the lattice wraps round.
    pub fn corners(&self, i: i32, j: i32, k: i32) -> (gradients: Vec<Vec3>)
        requires
            self.wf(),
        ensures
            gradients@.len() == 8,
            forall|di: int, dj: int, dk: int|
                0 <= di < 2 && 0 <= dj < 2 && 0 <= dk < 2 ==> #[trigger] gradients@[4 * di + 2 * dj
                    + dk] == self.lattice(
                    stepped(i, di) as int,
                    stepped(j, dj) as int,
                    stepped(k, dk) as int,
                ),
    {
        let i1 = i.wrapping_add(1);
        let j1 = j.wrapping_add(1);
        let k1 = k.wrapping_add(1);
        let mut gradients: Vec<Vec3> = Vec::new();
        gradients.push(self.int_noise(i, j, k));
        gradients.push(self.int_noise(i, j, k1));
        gradients.push(self.int_noise(i, j1, k));
        gradients.push(self.int_noise(i, j1, k1));
        gradients.push(self.int_noise(i1, j, k));
        gradients.push(self.int_noise(i1, j, k1));
        gradients.push(self.int_noise(i1, j1, k));
        gradients.push(self.int_noise(i1, j1, k1));
        gradients
    }
}

/// A coordinate moved on by 0 or 1, wrapping round at the largest.
pub open spec fn stepped(coordinate: i32, by: int) -> i32 {
    if by == 0 {
        coordinate
    } else if coordinate == i32::MAX {
        i32::MIN
    } else {
        (coordinate + 1) as i32
    }
}

/// The place of a lattice coordinate in a table.
pub fn wrap(coordinate: i32) -> (place: usize)
    ensures
        place == wrapped(coordinate as int),
        place < POINT_COUNT,
{
    let low: i32 = coordinate % 256;
    if low < 0 {
        (low + 256) as usize
    } else {
        low as usize
    }
}

/// Whether a table holds every number below `POINT_COUNT` exactly once.
pub fn check_permutation(table: &Vec<usize>) -> (ok: bool)
    ensures
        ok == is_permutation(table@),
{
    if table.len() != POINT_COUNT {
        return false;
    }
    let mut seen: Vec<bool> = Vec::new();
    let mut n: usize = 0;
    while n < POINT_COUNT
        invariant
            n <= POINT_COUNT,
            seen@.len() == n,
            forall|v: int| 0 <= v < n ==> !seen@[v],
        decreases POINT_COUNT - n,
    {
        seen.push(false);
        n += 1;
    }
    let mut i: usize = 0;
    while i < POINT_COUNT
        invariant
            i <= POINT_COUNT,
            table@.len() == POINT_COUNT,
            seen@.len() == POINT_COUNT,
            forall|k: int| 0 <= k < i ==> #[trigger] table@[k] < POINT_COUNT,
            forall|k: int, m: int| 0 <= k < m < i ==> table@[k] != table@[m],
            forall|v: int|
                0 <= v < POINT_COUNT ==> (#[trigger] seen@[v] <==> exists|k: int|
                    0 <= k < i && table@[k] == v),
        decreases POINT_COUNT - i,
    {
        let value = table[i];
        if value >= POINT_COUNT {
            return false;
        }
        if seen[value] {
            proof {
                let k = choose|k: int| 0 <= k < i && table@[k] == value;
                assert(table@[k] == table@[i as int]);
            }
            return false;
        }
        let ghost before = seen@;
        seen.set(value, true);
        proof {
            assert forall|v: int| 0 <= v < POINT_COUNT implies (#[trigger] seen@[v] <==> exists|
                k: int,
            |
                0 <= k < i + 1 && table@[k] == v) by {
                if v == value {
                    assert(table@[i as int] == v);
                } else {
                    if before[v] {
                        let k = choose|k: int| 0 <= k < i && table@[k] == v;
                        assert(0 <= k < i + 1 && table@[k] == v);
                    }
                    if exists|k: int| 0 <= k < i + 1 && table@[k] == v {
                        let k = choose|k: int| 0 <= k < i + 1 && table@[k] == v;
                        assert(k != i);
                        assert(0 <= k < i && table@[k] == v);
                    }
                }
            }
            assert forall|k: int, m: int| 0 <= k < m < i + 1 implies table@[k] != table@[m] by {
                if m == i && table@[k] == table@[m] {
                    assert(before[value as int]);
                }
            }
        }
        i += 1;
    }
    true
}

} // verus!
