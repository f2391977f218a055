//! Layout of a bounding-volume hierarchy over sort keys.
//!
//! The hierarchy is built from one record per object: the object's number and,
//! for each axis, an integer that orders the lower face of its bounding box.
//! What comes out is the shape of the tree, with object numbers at the leaves.

use crate::random::random_int_range;
use vstd::prelude::*;

verus! {

/// One of the three coordinate axes.
#[derive(Clone, Copy, Debug, PartialEq, Eq, Structural)]
pub enum Axis {
    X,
    Y,
    Z,
}

impl Axis {
    /// Position of the axis in the order x, y, z.
    pub open spec fn index(self) -> int {
        match self {
            Axis::X => 0,
            Axis::Y => 1,
            Axis::Z => 2,
        }
    }

    /// The axis at position `axis`; positions past 2 name no axis.
    pub fn from_index(axis: usize) -> (r: Axis)
        requires
            axis < 3,
        ensures
            r.index() == axis,
    {
        if axis == 0 {
            Axis::X
        } else if axis == 1 {
            Axis::Y
        } else {
            Axis::Z
        }
    }

    /// Draws one of the three axes.
    pub fn random() -> (r: Axis) {
        let drawn: i32 = random_int_range(0, 2);
        Axis::from_index(drawn as usize)
    }
}

/// The sign bit of a 64-bit pattern.
pub const SIGN_BIT: u64 = 0x8000_0000_0000_0000;

/// All bits of a 64-bit pattern but the sign bit.
pub const MAGNITUDE_BITS: u64 = 0x7fff_ffff_ffff_ffff;

/// The key of the double-precision number whose bit pattern is `bits`: the
/// pattern without its sign bit, counted down from zero where the sign bit
/// is set.
pub open spec fn spec_sort_key(bits: u64) -> int {
    if bits & SIGN_BIT != 0 {
        -((bits & MAGNITUDE_BITS) as int)
    } else {
        (bits & MAGNITUDE_BITS) as int
    }
}

/// The key of the double-precision number whose bit pattern is `bits`.
///
/// A double is stored as a sign and a magnitude, and among numbers of one
/// sign the larger magnitude has the larger pattern. So keys compare as the
/// numbers do: a smaller number has a smaller key, and both zeros have the
/// key 0. A pattern that stands for no number gets a key past that of the
/// infinity of its sign.
pub fn sort_key(bits: u64) -> (key: i64)
    ensures
        key == spec_sort_key(bits),
{
    let magnitude: u64 = bits & MAGNITUDE_BITS;
    assert(bits & 0x7fff_ffff_ffff_ffff <= 0x7fff_ffff_ffff_ffff) by (bit_vector);
    if bits & SIGN_BIT != 0 {
        -(magnitude as i64)
    } else {
        magnitude as i64
    }
}

/// The number with the sign and magnitude of the pattern `a` is below the
/// number with those of `b`: with both signs clear the smaller magnitude is
/// the smaller number, with both set the larger one is, and a number whose
/// sign is set is below one whose sign is clear unless both are zero.
pub open spec fn number_below(a: u64, b: u64) -> bool {
    let a_magnitude = a & MAGNITUDE_BITS;
    let b_magnitude = b & MAGNITUDE_BITS;
    if a & SIGN_BIT != 0 {
        if b & SIGN_BIT != 0 {
            a_magnitude > b_magnitude
        } else {
            a_magnitude != 0 || b_magnitude != 0
        }
    } else {
        b & SIGN_BIT == 0 && a_magnitude < b_magnitude
    }
}

/// Keys compare as the numbers do.
pub proof fn lemma_sort_key_orders_numbers(a: u64, b: u64)
    ensures
        spec_sort_key(a) < spec_sort_key(b) <==> number_below(a, b),
{
    assert(a & 0x7fff_ffff_ffff_ffff <= 0x7fff_ffff_ffff_ffff) by (bit_vector);
    assert(b & 0x7fff_ffff_ffff_ffff <= 0x7fff_ffff_ffff_ffff) by (bit_vector);
}

/// Keys tell numbers apart: two bit patterns have one key only where they
/// are the same pattern or the two zeros.
pub proof fn lemma_sort_key_tells_apart(a: u64, b: u64)
    requires
        spec_sort_key(a) == spec_sort_key(b),
    ensures
        a == b || (a & MAGNITUDE_BITS == 0 && b & MAGNITUDE_BITS == 0),
{
    assert(a & 0x7fff_ffff_ffff_ffff <= 0x7fff_ffff_ffff_ffff) by (bit_vector);
    assert(b & 0x7fff_ffff_ffff_ffff <= 0x7fff_ffff_ffff_ffff) by (bit_vector);
    assert(a == (a & 0x8000_0000_0000_0000) | (a & 0x7fff_ffff_ffff_ffff)) by (bit_vector);
    assert(b == (b & 0x8000_0000_0000_0000) | (b & 0x7fff_ffff_ffff_ffff)) by (bit_vector);
    assert(a & 0x8000_0000_0000_0000 == 0 || a & 0x8000_0000_0000_0000
        == 0x8000_0000_0000_0000) by (bit_vector);
    assert(b & 0x8000_0000_0000_0000 == 0 || b & 0x8000_0000_0000_0000
        == 0x8000_0000_0000_0000) by (bit_vector);
}

/// What the builder knows of one object: its number and, per axis, the key
/// that orders the lower face of its bounding box.
#[derive(Clone, Copy, Debug)]
pub struct BvhItem {
    pub object: usize,
    pub min_x: i64,
    pub min_y: i64,
    pub min_z: i64,
}

impl BvhItem {
    /// The item for object number `object` whose bounding box has its lower
    /// faces at the double-precision numbers with the bit patterns `min_x`,
    /// `min_y` and `min_z`.
    pub fn from_bits(object: usize, min_x: u64, min_y: u64, min_z: u64) -> (item: BvhItem)
        ensures
            item.object == object,
            item.min_x == spec_sort_key(min_x),
            item.min_y == spec_sort_key(min_y),
            item.min_z == spec_sort_key(min_z),
    {
        BvhItem { object, min_x: sort_key(min_x), min_y: sort_key(min_y), min_z: sort_key(min_z) }
    }

    /// The sort key of this item along `axis`.
    pub open spec fn spec_key(&self, axis: Axis) -> i64 {
        match axis {
            Axis::X => self.min_x,
            Axis::Y => self.min_y,
            Axis::Z => self.min_z,
        }
    }

    /// The sort key of this item along `axis`.
    #[verifier::when_used_as_spec(spec_key)]
    pub fn key(&self, axis: Axis) -> (k: i64)
        ensures
            k == self.spec_key(axis),
    {
        match axis {
            Axis::X => self.min_x,
            Axis::Y => self.min_y,
            Axis::Z => self.min_z,
        }
    }
}

/// A node of the hierarchy: an object, or two subtrees.
#[derive(Debug)]
pub enum BvhNode {
    Leaf { object: usize },
    Branch { left: Box<BvhNode>, right: Box<BvhNode> },
}

/// `items` is in ascending key order along `axis`.
pub open spec fn sorted_on(items: Seq<BvhItem>, axis: Axis) -> bool {
    forall|i: int, j: int|
        0 <= i <= j < items.len() ==> items[i].spec_key(axis) <= items[j].spec_key(axis)
}

/// The items of `items` whose key along `axis` is `k`, in their order.
pub open spec fn with_key(items: Seq<BvhItem>, axis: Axis, k: i64) -> Seq<BvhItem> {
    items.filter(|item: BvhItem| item.spec_key(axis) == k)
}

/// `sorted` is `items` put in ascending key order along `axis`, with items of
/// equal key left in the order they had.
pub open spec fn stably_sorted(sorted: Seq<BvhItem>, items: Seq<BvhItem>, axis: Axis) -> bool {
    &&& sorted.len() == items.len()
    &&& sorted.to_multiset() == items.to_multiset()
    &&& sorted_on(sorted, axis)
    &&& forall|k: i64| #[trigger] with_key(sorted, axis, k) == with_key(items, axis, k)
}

/// Sorts `items` by their key along `axis`.
///
/// Trusted: the body calls `slice::sort_by_key` of the standard library,
/// which is documented as a stable sort: the result holds the same items in
/// ascending key order, and items of equal key keep their relative order.
#[verifier::external_body]
fn sort_by_axis(items: &mut Vec<BvhItem>, axis: Axis)
    ensures
        stably_sorted(final(items)@, old(items)@, axis),
{
    items.sort_by_key(|item| item.key(axis));
}

impl BvhNode {
    /// The objects found at the leaves.
    pub open spec fn objects(self) -> Set<usize>
        decreases self,
    {
        match self {
            BvhNode::Leaf { object } => set![object],
            BvhNode::Branch { left, right } => left.objects().union(right.objects()),
        }
    }

    /// Number of branches on the longest way down to a leaf.
    pub open spec fn height(self) -> nat
        decreases self,
    {
        match self {
            BvhNode::Leaf { .. } => 0,
            BvhNode::Branch { left, right } => {
                let l = left.height();
                let r = right.height();
                if l >= r {
                    l + 1
                } else {
                    r + 1
                }
            },
        }
    }
}

/// The object numbers that occur in `items`.
pub open spec fn objects_of(items: Seq<BvhItem>) -> Set<usize> {
    Set::new(|object: usize| exists|i: int| 0 <= i < items.len() && items[i].object == object)
}

/// Height of the hierarchy that the median split lays out over `n` items.
pub open spec fn levels(n: nat) -> nat
    decreases n,
{
    if n <= 2 {
        1
    } else {
        1 + levels((n - n / 2) as nat)
    }
}

/// A branch over two leaves.
pub open spec fn leaf_pair(first: usize, second: usize) -> BvhNode {
    BvhNode::Branch {
        left: Box::new(BvhNode::Leaf { object: first }),
        right: Box::new(BvhNode::Leaf { object: second }),
    }
}

/// The branch over two items for a given axis: the first item goes left only
/// if its key is strictly the smaller one.
pub open spec fn pair_on(a: BvhItem, b: BvhItem, axis: Axis) -> BvhNode {
    if a.spec_key(axis) < b.spec_key(axis) {
        leaf_pair(a.object, b.object)
    } else {
        leaf_pair(b.object, a.object)
    }
}

/// `node` is a hierarchy that the median split can produce from `items`.
///
/// One item is put on both sides. Two items are put side by side in key order
/// along some axis. More items are sorted stably along some axis and cut in
/// the middle, the shorter half going left, and each half is laid out in the
/// same way. Which axis is taken at a node is left open.
pub open spec fn built_from(node: BvhNode, items: Seq<BvhItem>) -> bool
    decreases items.len(),
{
    if items.len() == 0 {
        false
    } else if items.len() == 1 {
        node == leaf_pair(items[0].object, items[0].object)
    } else if items.len() == 2 {
        exists|axis: Axis| node == #[trigger] pair_on(items[0], items[1], axis)
    } else {
        exists|axis: Axis, sorted: Seq<BvhItem>|
            {
                let mid = items.len() as int / 2;
                &&& #[trigger] stably_sorted(sorted, items, axis)
                &&& node matches BvhNode::Branch { left, right }
                &&& built_from(*left, sorted.subrange(0, mid))
                &&& built_from(*right, sorted.subrange(mid, sorted.len() as int))
            }
    }
}

/// Sorts `objects` along `axis` and cuts the result in the middle; of an odd
/// number the shorter half comes first.
pub fn split_at_median(objects: Vec<BvhItem>, axis: Axis) -> (halves: (Vec<BvhItem>, Vec<BvhItem>))
    ensures
        stably_sorted(halves.0@ + halves.1@, objects@, axis),
        halves.0@.len() == objects@.len() / 2,
{
    let mut lower = objects;
    sort_by_axis(&mut lower, axis);
    let ghost sorted = lower@;
    let mid: usize = lower.len() / 2;
    let upper = lower.split_off(mid);
    assert(lower@ + upper@ =~= sorted);
    (lower, upper)
}

impl BvhNode {
    /// Lays out a hierarchy over the items of `list`.
    pub fn new(list: &Vec<BvhItem>) -> (node: BvhNode)
        requires
            list@.len() > 0,
        ensures
            built_from(node, list@),
    {
        let objects = list.clone();
        assert(objects@ =~= list@);
        Self::new_from_objects(objects)
    }

    /// Lays out a hierarchy over `objects`, drawing a fresh axis at every
    /// node.
    pub fn new_from_objects(objects: Vec<BvhItem>) -> (node: BvhNode)
        requires
            objects@.len() > 0,
        ensures
            built_from(node, objects@),
        decreases objects@.len(),
    {
        let axis = Axis::random();
        let object_span: usize = objects.len();
        if object_span == 1 {
            let only: usize = objects[0].object;
            BvhNode::Branch {
                left: Box::new(BvhNode::Leaf { object: only }),
                right: Box::new(BvhNode::Leaf { object: only }),
            }
        } else if object_span == 2 {
            let node = Self::pair(objects[0], objects[1], axis);
            assert(node == pair_on(objects@[0], objects@[1], axis));
            node
        } else {
            let ghost items = objects@;
            let (left_objects, right_objects) = split_at_median(objects, axis);
            let ghost sorted = left_objects@ + right_objects@;
            let ghost mid = items.len() as int / 2;
            assert(sorted.subrange(0, mid) =~= left_objects@);
            assert(sorted.subrange(mid, sorted.len() as int) =~= right_objects@);
            let left = Self::new_from_objects(left_objects);
            let right = Self::new_from_objects(right_objects);
            let node = BvhNode::Branch { left: Box::new(left), right: Box::new(right) };
            assert(stably_sorted(sorted, items, axis));
            node
        }
    }

    /// Puts two items side by side in key order along `axis`: the first goes
    /// left only if its key is strictly the smaller one.
    pub fn pair(a: BvhItem, b: BvhItem, axis: Axis) -> (node: BvhNode)
        ensures
            node == pair_on(a, b, axis),
    {
        let (first, second): (usize, usize) = if a.key(axis) < b.key(axis) {
            (a.object, b.object)
        } else {
            (b.object, a.object)
        };
        BvhNode::Branch {
            left: Box::new(BvhNode::Leaf { object: first }),
            right: Box::new(BvhNode::Leaf { object: second }),
        }
    }
}

/// More items never give a lower hierarchy.
pub proof fn lemma_levels_monotonic(a: nat, b: nat)
    requires
        a <= b,
    ensures
        levels(a) <= levels(b),
    decreases b,
{
    if b > 2 {
        if a > 2 {
            lemma_levels_monotonic((a - a / 2) as nat, (b - b / 2) as nat);
        } else {
            lemma_levels_monotonic(a, (b - b / 2) as nat);
        }
    }
}

/// Sorting keeps the set of object numbers.
proof fn lemma_sorted_keeps_objects(sorted: Seq<BvhItem>, items: Seq<BvhItem>, axis: Axis)
    requires
        stably_sorted(sorted, items, axis),
    ensures
        objects_of(sorted) == objects_of(items),
{
    assert forall|object: usize| objects_of(sorted).contains(object) implies objects_of(
        items,
    ).contains(object) by {
        let i = choose|i: int| 0 <= i < sorted.len() && sorted[i].object == object;
        assert(sorted.contains(sorted[i]));
        vstd::seq_lib::to_multiset_contains(sorted, sorted[i]);
        vstd::seq_lib::to_multiset_contains(items, sorted[i]);
        assert(items.contains(sorted[i]));
        let j = choose|j: int| 0 <= j < items.len() && items[j] == sorted[i];
        assert(items[j].object == object);
    }
    assert forall|object: usize| objects_of(items).contains(object) implies objects_of(
        sorted,
    ).contains(object) by {
        let i = choose|i: int| 0 <= i < items.len() && items[i].object == object;
        assert(items.contains(items[i]));
        vstd::seq_lib::to_multiset_contains(sorted, items[i]);
        vstd::seq_lib::to_multiset_contains(items, items[i]);
        assert(sorted.contains(items[i]));
        let j = choose|j: int| 0 <= j < sorted.len() && sorted[j] == items[i];
        assert(sorted[j].object == object);
    }
    assert(objects_of(sorted) =~= objects_of(items));
}

/// Cutting a sequence in two loses no object number and adds none.
proof fn lemma_cut_keeps_objects(items: Seq<BvhItem>, mid: int)
    requires
        0 <= mid <= items.len(),
    ensures
        objects_of(items.subrange(0, mid)).union(
            objects_of(items.subrange(mid, items.len() as int)),
        ) == objects_of(items),
{
    let lower = items.subrange(0, mid);
    let upper = items.subrange(mid, items.len() as int);
    assert forall|object: usize| objects_of(items).contains(object) implies objects_of(
        lower,
    ).union(objects_of(upper)).contains(object) by {
        let i = choose|i: int| 0 <= i < items.len() && items[i].object == object;
        if i < mid {
            assert(lower[i].object == object);
        } else {
            assert(upper[i - mid].object == object);
        }
    }
    assert forall|object: usize|
        objects_of(lower).union(objects_of(upper)).contains(object) implies objects_of(
        items,
    ).contains(object) by {
        if objects_of(lower).contains(object) {
            let i = choose|i: int| 0 <= i < lower.len() && lower[i].object == object;
            assert(items[i].object == object);
        } else {
            let i = choose|i: int| 0 <= i < upper.len() && upper[i].object == object;
            assert(items[i + mid].object == object);
        }
    }
    assert(objects_of(lower).union(objects_of(upper)) =~= objects_of(items));
}

/// A hierarchy holds exactly the objects it was built from: every object
/// number among the items sits at some leaf, and no other number does.
pub proof fn lemma_built_holds_every_object(node: BvhNode, items: Seq<BvhItem>)
    requires
        built_from(node, items),
    ensures
        node.objects() == objects_of(items),
    decreases items.len(),
{
    reveal_with_fuel(BvhNode::objects, 3);
    if items.len() == 1 {
        assert(items[0].object == items[0].object);
        assert(node.objects() =~= objects_of(items));
    } else if items.len() == 2 {
        let axis = choose|axis: Axis| node == #[trigger] pair_on(items[0], items[1], axis);
        assert(items[0].object == items[0].object);
        assert(items[1].object == items[1].object);
        assert(node.objects() =~= objects_of(items));
    } else {
        let mid = items.len() as int / 2;
        let (axis, sorted) = choose|axis: Axis, sorted: Seq<BvhItem>|
            {
                &&& #[trigger] stably_sorted(sorted, items, axis)
                &&& node matches BvhNode::Branch { left, right }
                &&& built_from(*left, sorted.subrange(0, mid))
                &&& built_from(*right, sorted.subrange(mid, sorted.len() as int))
            };
        match node {
            BvhNode::Branch { left, right } => {
                lemma_built_holds_every_object(*left, sorted.subrange(0, mid));
                lemma_built_holds_every_object(*right, sorted.subrange(mid, sorted.len() as int));
                lemma_cut_keeps_objects(sorted, mid);
                lemma_sorted_keeps_objects(sorted, items, axis);
            },
            BvhNode::Leaf { .. } => {},
        }
    }
}

/// The median split keeps the hierarchy balanced: its height depends on the
/// number of items alone.
pub proof fn lemma_built_is_balanced(node: BvhNode, items: Seq<BvhItem>)
    requires
        built_from(node, items),
    ensures
        node.height() == levels(items.len()),
    decreases items.len(),
{
    reveal_with_fuel(BvhNode::height, 3);
    if items.len() == 1 {
    } else if items.len() == 2 {
        let axis = choose|axis: Axis| node == #[trigger] pair_on(items[0], items[1], axis);
    } else {
        let mid = items.len() as int / 2;
        let (axis, sorted) = choose|axis: Axis, sorted: Seq<BvhItem>|
            {
                &&& #[trigger] stably_sorted(sorted, items, axis)
                &&& node matches BvhNode::Branch { left, right }
                &&& built_from(*left, sorted.subrange(0, mid))
                &&& built_from(*right, sorted.subrange(mid, sorted.len() as int))
            };
        match node {
            BvhNode::Branch { left, right } => {
                lemma_built_is_balanced(*left, sorted.subrange(0, mid));
                lemma_built_is_balanced(*right, sorted.subrange(mid, sorted.len() as int));
                lemma_levels_monotonic(mid as nat, (items.len() - mid) as nat);
            },
            BvhNode::Leaf { .. } => {},
        }
    }
}

} // verus!
