//! The shuffled lattice behind gradient noise.
//!
//! Gradient noise looks up one of 256 gradient vectors for every point of the
//! integer lattice. The lookup goes through three shuffled tables, one per
//! axis. This module owns the tables: it shuffles them and turns a lattice
//! point into the number of its gradient.

use crate::random::random_int_range;
use vstd::prelude::*;
use vstd::seq_lib::to_multiset_contains;
use vstd::seq_lib::to_multiset_update;

verus! {

/// Number of gradients, and length of each table.
pub const POINT_COUNT: usize = 256;

/// `table` holds each of the numbers `0..n` exactly once.
pub open spec fn is_permutation_table(table: Seq<i32>, n: nat) -> bool {
    &&& table.len() == n
    &&& forall|i: int| 0 <= i < n ==> 0 <= #[trigger] table[i] < n
    &&& forall|i: int, j: int| 0 <= i < j < n ==> table[i] != table[j]
}

/// The table entry that a lattice coordinate selects: the coordinate modulo
/// 256, which for a negative coordinate counts up from the next lower
/// multiple of 256.
pub open spec fn slot(coord: int) -> int {
    coord % 256
}

/// Exchanges the entries at `i` and `j`.
pub fn exchange(p: &mut Vec<i32>, i: usize, j: usize)
    requires
        i < old(p)@.len(),
        j < old(p)@.len(),
    ensures
        final(p)@ == exchanged(old(p)@, i as int, j as int),
        final(p)@.to_multiset() == old(p)@.to_multiset(),
{
    let a: i32 = p[i];
    let b: i32 = p[j];
    p[i] = b;
    p[j] = a;
    proof {
        broadcast use vstd::multiset::group_multiset_axioms;

        let before = old(p)@;
        let half = before.update(i as int, b);
        assert(before.contains(a));
        assert(before.contains(b));
        to_multiset_contains(before, a);
        to_multiset_contains(before, b);
        assert(half[j as int] == b);
        to_multiset_update(before, i as int, b);
        to_multiset_update(half, j as int, a);
        assert(p@ =~= half.update(j as int, a));
        assert(half.update(j as int, a).to_multiset() =~= before.to_multiset());
    }
}

/// `s` with the entries at `i` and `j` exchanged.
pub open spec fn exchanged(s: Seq<i32>, i: int, j: int) -> Seq<i32> {
    s.update(i, s[j]).update(j, s[i])
}

/// `targets` names, for each of the positions `0..n`, a position at or
/// before it.
pub open spec fn valid_targets(targets: Seq<int>, n: nat) -> bool {
    &&& targets.len() == n
    &&& forall|i: int| 0 <= i < n ==> 0 <= #[trigger] targets[i] <= i
}

/// `p` after its entries at the positions from the last that `targets` names
/// down to `from` were each exchanged with the entry at the position's
/// target.
pub open spec fn shuffled(p: Seq<i32>, targets: Seq<int>, from: int) -> Seq<i32>
    decreases targets.len() - from,
{
    if from >= targets.len() {
        p
    } else {
        exchanged(shuffled(p, targets, from + 1), from, targets[from])
    }
}

/// A target below `from` has no part in the exchanges from `from` on.
proof fn lemma_shuffled_ignores_earlier(p: Seq<i32>, targets: Seq<int>, from: int, at: int, to: int)
    requires
        0 <= at < from,
        at < targets.len(),
    ensures
        shuffled(p, targets.update(at, to), from) == shuffled(p, targets, from),
    decreases targets.len() - from,
{
    if from < targets.len() {
        lemma_shuffled_ignores_earlier(p, targets, from + 1, at, to);
    }
}

/// Shuffles the first `n` entries of `p`: from the last of them down to the
/// second, each is exchanged with an entry drawn from those at or before it.
pub fn permute(p: &mut Vec<i32>, n: usize)
    requires
        n <= old(p)@.len(),
        n <= i32::MAX,
    ensures
        exists|targets: Seq<int>|
            valid_targets(targets, n as nat) && final(p)@ == #[trigger] shuffled(
                old(p)@,
                targets,
                1,
            ),
        final(p)@.len() == old(p)@.len(),
        final(p)@.to_multiset() == old(p)@.to_multiset(),
        forall|k: int| n <= k < old(p)@.len() ==> final(p)@[k] == old(p)@[k],
{
    let ghost mut targets: Seq<int> = Seq::new(n as nat, |k: int| 0int);
    let mut i: usize = n;
    while i > 1
        invariant
            i <= n,
            n <= p@.len(),
            n <= i32::MAX,
            p@.len() == old(p)@.len(),
            p@.to_multiset() == old(p)@.to_multiset(),
            forall|k: int| n <= k < p@.len() ==> p@[k] == old(p)@[k],
            valid_targets(targets, n as nat),
            p@ == shuffled(
                old(p)@,
                targets,
                if i < 1 {
                    1
                } else {
                    i as int
                },
            ),
        decreases i,
    {
        i = i - 1;
        let target: i32 = random_int_range(0, i as i32);
        proof {
            lemma_shuffled_ignores_earlier(old(p)@, targets, i + 1, i as int, target as int);
            targets = targets.update(i as int, target as int);
        }
        exchange(p, i, target as usize);
    }
}

/// The numbers `0..point_count` in a shuffled order.
pub fn perlin_generate_perm(point_count: usize) -> (p: Vec<i32>)
    requires
        point_count <= i32::MAX,
    ensures
        is_permutation_table(p@, point_count as nat),
{
    let mut p: Vec<i32> = Vec::new();
    let mut next: usize = 0;
    while next < point_count
        invariant
            next <= point_count,
            point_count <= i32::MAX,
            p@.len() == next,
            forall|i: int| 0 <= i < next ==> p@[i] == i,
        decreases point_count - next,
    {
        p.push(next as i32);
        next = next + 1;
    }
    let ghost ordered = p@;
    permute(&mut p, point_count);
    proof {
        lemma_rearranged_table(ordered, p@, point_count as nat);
    }
    p
}

/// Rearranging a permutation table gives a permutation table.
pub proof fn lemma_rearranged_table(before: Seq<i32>, after: Seq<i32>, n: nat)
    requires
        is_permutation_table(before, n),
        after.len() == n,
        after.to_multiset() == before.to_multiset(),
    ensures
        is_permutation_table(after, n),
{
    assert forall|i: int| 0 <= i < n implies 0 <= #[trigger] after[i] < n by {
        assert(after.contains(after[i]));
        to_multiset_contains(after, after[i]);
        to_multiset_contains(before, after[i]);
        let j = choose|j: int| 0 <= j < before.len() && before[j] == after[i];
        assert(0 <= before[j] < n);
    }
    assert(before.no_duplicates());
    before.lemma_multiset_has_no_duplicates();
    after.lemma_multiset_has_no_duplicates_conv();
}

/// The three shuffled tables of the noise lattice.
#[derive(Debug)]
pub struct Perlin {
    perm_x: Vec<i32>,
    perm_y: Vec<i32>,
    perm_z: Vec<i32>,
}

impl Perlin {
    #[verifier::type_invariant]
    spec fn tables_are_permutations(self) -> bool {
        &&& is_permutation_table(self.perm_x@, POINT_COUNT as nat)
        &&& is_permutation_table(self.perm_y@, POINT_COUNT as nat)
        &&& is_permutation_table(self.perm_z@, POINT_COUNT as nat)
    }

    /// The table for the first coordinate.
    pub closed spec fn perm_x(self) -> Seq<i32> {
        self.perm_x@
    }

    /// The table for the second coordinate.
    pub closed spec fn perm_y(self) -> Seq<i32> {
        self.perm_y@
    }

    /// The table for the third coordinate.
    pub closed spec fn perm_z(self) -> Seq<i32> {
        self.perm_z@
    }

    /// Number of the gradient at the lattice point `(i, j, k)`: the three
    /// table entries that the coordinates select, combined bit by bit with
    /// exclusive or.
    pub open spec fn gradient_at(self, i: int, j: int, k: int) -> int {
        (self.perm_x()[slot(i)] ^ self.perm_y()[slot(j)] ^ self.perm_z()[slot(k)]) as int
    }

    /// Shuffles three fresh tables.
    pub fn new() -> (p: Perlin)
        ensures
            is_permutation_table(p.perm_x(), POINT_COUNT as nat),
            is_permutation_table(p.perm_y(), POINT_COUNT as nat),
            is_permutation_table(p.perm_z(), POINT_COUNT as nat),
    {
        let perm_x = perlin_generate_perm(POINT_COUNT);
        let perm_y = perlin_generate_perm(POINT_COUNT);
        let perm_z = perlin_generate_perm(POINT_COUNT);
        Perlin { perm_x, perm_y, perm_z }
    }

    /// The table for the first coordinate.
    pub fn x_table(&self) -> (table: &Vec<i32>)
        ensures
            table@ == self.perm_x(),
            is_permutation_table(table@, POINT_COUNT as nat),
    {
        proof {
            use_type_invariant(self);
        }
        &self.perm_x
    }

    /// The table for the second coordinate.
    pub fn y_table(&self) -> (table: &Vec<i32>)
        ensures
            table@ == self.perm_y(),
            is_permutation_table(table@, POINT_COUNT as nat),
    {
        proof {
            use_type_invariant(self);
        }
        &self.perm_y
    }

    /// The table for the third coordinate.
    pub fn z_table(&self) -> (table: &Vec<i32>)
        ensures
            table@ == self.perm_z(),
            is_permutation_table(table@, POINT_COUNT as nat),
    {
        proof {
            use_type_invariant(self);
        }
        &self.perm_z
    }

    /// Number of the gradient at the lattice point `(i, j, k)`.
    pub fn gradient_index(&self, i: i32, j: i32, k: i32) -> (r: usize)
        ensures
            r == self.gradient_at(i as int, j as int, k as int),
            r < POINT_COUNT,
    {
        proof {
            use_type_invariant(self);
            lemma_mask_is_slot(i);
            lemma_mask_is_slot(j);
            lemma_mask_is_slot(k);
        }
        let x: i32 = self.perm_x[(i & 255) as usize];
        let y: i32 = self.perm_y[(j & 255) as usize];
        let z: i32 = self.perm_z[(k & 255) as usize];
        proof {
            lemma_xor_stays_in_table(x, y, z);
        }
        (x ^ y ^ z) as usize
    }

    /// Numbers of the gradients at the eight corners of the lattice cell whose
    /// lowest corner is `(i, j, k)`. Corner `d` lies `d / 4` steps along the
    /// first axis, `(d / 2) % 2` along the second and `d % 2` along the
    /// third. Past the largest coordinate the lattice starts over, as the
    /// tables do every 256 steps.
    pub fn cell_gradients(&self, i: i32, j: i32, k: i32) -> (c: [usize; 8])
        ensures
            forall|d: int|
                0 <= d < 8 ==> #[trigger] c@[d] == self.gradient_at(
                    i + d / 4,
                    j + (d / 2) % 2,
                    k + d % 2,
                ),
            forall|d: int| 0 <= d < 8 ==> #[trigger] c@[d] < POINT_COUNT,
    {
        let i1: i32 = i.wrapping_add(1);
        let j1: i32 = j.wrapping_add(1);
        let k1: i32 = k.wrapping_add(1);
        assert(slot(i1 as int) == slot(i + 1));
        assert(slot(j1 as int) == slot(j + 1));
        assert(slot(k1 as int) == slot(k + 1));
        [
            self.gradient_index(i, j, k),
            self.gradient_index(i, j, k1),
            self.gradient_index(i, j1, k),
            self.gradient_index(i, j1, k1),
            self.gradient_index(i1, j, k),
            self.gradient_index(i1, j, k1),
            self.gradient_index(i1, j1, k),
            self.gradient_index(i1, j1, k1),
        ]
    }
}

/// Masking a coordinate with 255 selects its table entry.
proof fn lemma_mask_is_slot(x: i32)
    ensures
        0 <= (x & 255) <= 255,
        (x & 255) == slot(x as int),
{
    assert(0 <= (x & 255) <= 255) by (bit_vector);
    assert((x & 255) == (x as int) % 256) by (bit_vector);
}

/// Exclusive or of three table entries is the number of a gradient.
proof fn lemma_xor_stays_in_table(a: i32, b: i32, c: i32)
    requires
        0 <= a < 256,
        0 <= b < 256,
        0 <= c < 256,
    ensures
        0 <= (a ^ b ^ c) < 256,
{
    assert(0 <= a < 256 && 0 <= b < 256 && 0 <= c < 256 ==> 0 <= (a ^ b ^ c) < 256)
        by (bit_vector);
}

} // verus!
