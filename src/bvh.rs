use vstd::prelude::*;
use crate::aabb::{Aabb, coord, contains, surround_spec, lemma_surround_is_least, lemma_contains_trans};
use crate::sampling::random_below;
use vstd::arithmetic::power2::{pow2, lemma_pow2_unfold};

verus! {

/// The sort key of primitive `item` along `axis`: the coordinate of the
/// minimum corner of its bounding box.
pub open spec fn item_key(boxes: Seq<Aabb>, item: usize, axis: u8) -> i64 {
    coord(boxes[item as int].min, axis)
}

/// Every entry of `items` names one of the primitives described by `boxes`.
pub open spec fn all_in_range(items: Seq<usize>, boxes: Seq<Aabb>) -> bool {
    forall|i: int| 0 <= i < items.len() ==> (#[trigger] items[i] as int) < boxes.len()
}

/// `items` is in non-decreasing order of their sort keys along `axis`.
pub open spec fn sorted_on(items: Seq<usize>, boxes: Seq<Aabb>, axis: u8) -> bool {
    forall|a: int, b: int|
        0 <= a < b < items.len() ==> item_key(boxes, #[trigger] items[a], axis) <= item_key(
            boxes,
            #[trigger] items[b],
            axis,
        )
}

/// Every key along `axis` of the items in `lo` is at most every such key
/// of the items in `hi`.
pub open spec fn split_ordered(lo: Seq<usize>, hi: Seq<usize>, boxes: Seq<Aabb>, axis: u8) -> bool {
    forall|a: int, b: int|
        0 <= a < lo.len() && 0 <= b < hi.len() ==> item_key(boxes, #[trigger] lo[a], axis)
            <= item_key(boxes, #[trigger] hi[b], axis)
}

/// Shape of a bounding-volume hierarchy over primitives named by their
/// index. Each node records the axis along which its primitives were
/// sorted before they were split between its two children.
#[derive(Debug)]
pub enum BvhTree {
    Leaf(usize),
    Node { axis: u8, bbox: Aabb, left: Box<BvhTree>, right: Box<BvhTree> },
}

/// The bounding box of a tree: a primitive's own box at a leaf, the box
/// cached at a node.
pub open spec fn tree_box(t: BvhTree, boxes: Seq<Aabb>) -> Aabb {
    match t {
        BvhTree::Leaf(i) => boxes[i as int],
        BvhTree::Node { bbox, .. } => bbox,
    }
}

/// A node over a single primitive has that primitive as both children.
pub open spec fn is_single(left: BvhTree, right: BvhTree) -> bool {
    left is Leaf && left == right
}

/// The primitives a tree was built over, in the order of its leaves; the
/// primitive of a single node is counted once.
pub open spec fn span(t: BvhTree) -> Seq<usize>
    decreases t,
{
    match t {
        BvhTree::Leaf(i) => seq![i],
        BvhTree::Node { left, right, .. } => {
            if is_single(*left, *right) {
                span(*left)
            } else {
                span(*left) + span(*right)
            }
        },
    }
}

/// `t` is what the construction makes of the primitives in `span(t)`: every
/// node sorted its primitives by their boxes along its axis and then either
/// holds its one primitive twice, holds its two primitives as leaves in
/// that order, or (for three or more) hands the lower half, rounded down,
/// to a subtree on the left and the rest to a subtree on the right. The box
/// of each node surrounds the boxes of its two children.
pub open spec fn well_built(t: BvhTree, boxes: Seq<Aabb>) -> bool
    decreases t,
{
    match t {
        BvhTree::Leaf(i) => (i as int) < boxes.len(),
        BvhTree::Node { axis, bbox, left, right } => {
            &&& axis < 3
            &&& bbox == surround_spec(tree_box(*left, boxes), tree_box(*right, boxes))
            &&& well_built(*left, boxes)
            &&& well_built(*right, boxes)
            &&& {
                ||| is_single(*left, *right)
                ||| {
                    &&& *left is Leaf
                    &&& *right is Leaf
                    &&& *left != *right
                    &&& item_key(boxes, left->Leaf_0, axis) <= item_key(boxes, right->Leaf_0, axis)
                }
                ||| {
                    &&& *left is Node
                    &&& *right is Node
                    &&& span(*left).len() + span(*right).len() >= 3
                    &&& span(*left).len() == (span(*left).len() + span(*right).len()) / 2
                    &&& split_ordered(span(*left), span(*right), boxes, axis)
                }
            }
        },
    }
}

proof fn lemma_split_ordered_by_content(
    lo: Seq<usize>,
    hi: Seq<usize>,
    lo2: Seq<usize>,
    hi2: Seq<usize>,
    boxes: Seq<Aabb>,
    axis: u8,
)
    requires
        split_ordered(lo, hi, boxes, axis),
        lo2.to_multiset() == lo.to_multiset(),
        hi2.to_multiset() == hi.to_multiset(),
    ensures
        split_ordered(lo2, hi2, boxes, axis),
{
    broadcast use vstd::seq_lib::group_to_multiset_ensures;

    assert forall|a: int, b: int| 0 <= a < lo2.len() && 0 <= b < hi2.len() implies item_key(
        boxes,
        #[trigger] lo2[a],
        axis,
    ) <= item_key(boxes, #[trigger] hi2[b], axis) by {
        assert(lo2.contains(lo2[a]));
        assert(hi2.contains(hi2[b]));
        vstd::seq_lib::to_multiset_contains(lo2, lo2[a]);
        vstd::seq_lib::to_multiset_contains(lo, lo2[a]);
        vstd::seq_lib::to_multiset_contains(hi2, hi2[b]);
        vstd::seq_lib::to_multiset_contains(hi, hi2[b]);
    }
}

proof fn lemma_no_duplicates_by_content(s: Seq<usize>, t: Seq<usize>)
    requires
        s.no_duplicates(),
        t.to_multiset() == s.to_multiset(),
    ensures
        t.no_duplicates(),
{
    s.lemma_multiset_has_no_duplicates();
    t.lemma_multiset_has_no_duplicates_conv();
}

/// Draws one of the three axes at random.
fn random_axis() -> (axis: u8)
    ensures
        axis < 3,
{
    random_below(3) as u8
}

/// Sorts `items` by the minimum corners of their boxes along `axis`.
pub fn sort_on_axis(items: &mut Vec<usize>, boxes: &Vec<Aabb>, axis: u8)
    requires
        all_in_range(old(items)@, boxes@),
    ensures
        final(items)@.to_multiset() == old(items)@.to_multiset(),
        sorted_on(final(items)@, boxes@, axis),
        all_in_range(final(items)@, boxes@),
{
    broadcast use vstd::seq_lib::group_to_multiset_ensures;

    let n = items.len();
    if n == 0 {
        return;
    }
    let mut i: usize = 1;
    while i < n
        invariant
            1 <= i <= n,
            n == items.len(),
            items@.to_multiset() == old(items)@.to_multiset(),
            all_in_range(items@, boxes@),
            sorted_on(items@.subrange(0, i as int), boxes@, axis),
        decreases n - i,
    {
        let mut j: usize = i;
        assert forall|a: int, b: int| 0 <= a < b < i implies item_key(boxes@, #[trigger] items@[a], axis)
            <= item_key(boxes@, #[trigger] items@[b], axis) by {
            assert(items@.subrange(0, i as int)[a] == items@[a]);
            assert(items@.subrange(0, i as int)[b] == items@[b]);
        }
        while j > 0 && boxes[items[j - 1]].min.on_axis(axis) > boxes[items[j]].min.on_axis(axis)
            invariant
                0 <= j <= i < n,
                n == items.len(),
                items@.to_multiset() == old(items)@.to_multiset(),
                all_in_range(items@, boxes@),
                forall|a: int, b: int|
                    0 <= a < b <= i && a != j && b != j ==> item_key(boxes@, #[trigger] items@[a], axis)
                        <= item_key(boxes@, #[trigger] items@[b], axis),
                forall|b: int|
                    j < b <= i ==> item_key(boxes@, items@[j as int], axis) <= item_key(
                        boxes@,
                        #[trigger] items@[b],
                        axis,
                    ),
            decreases j,
        {
            let lower = items[j - 1];
            let upper = items[j];
            let ghost before = items@;
            items.set(j - 1, upper);
            items.set(j, lower);
            proof {
                broadcast use vstd::multiset::group_multiset_axioms;

                let mid = before.update((j - 1) as int, upper);
                vstd::seq_lib::to_multiset_update(before, (j - 1) as int, upper);
                vstd::seq_lib::to_multiset_update(mid, j as int, lower);
                assert(items@ == mid.update(j as int, lower));
                assert(mid[j as int] == upper);
                assert(before[(j - 1) as int] == lower);
                assert(before.contains(lower));
                vstd::seq_lib::to_multiset_contains(before, lower);
                assert(items@.to_multiset() =~= before.to_multiset());
            }
            j = j - 1;
        }
        assert(sorted_on(items@.subrange(0, i + 1), boxes@, axis));
        i = i + 1;
    }
    assert(items@.subrange(0, n as int) =~= items@);
}

/// The box of a well-built tree holds the box of every primitive it was
/// built over.
pub proof fn lemma_primitive_boxes_nested(t: BvhTree, boxes: Seq<Aabb>, k: int)
    requires
        well_built(t, boxes),
        0 <= k < span(t).len(),
    ensures
        contains(tree_box(t, boxes), boxes[span(t)[k] as int]),
    decreases t,
{
    match t {
        BvhTree::Leaf(i) => {},
        BvhTree::Node { bbox, left, right, .. } => {
            let lb = tree_box(*left, boxes);
            let rb = tree_box(*right, boxes);
            lemma_surround_is_least(lb, rb, lb);
            if is_single(*left, *right) {
                lemma_primitive_boxes_nested(*left, boxes, k);
                lemma_contains_trans(bbox, lb, boxes[span(t)[k] as int]);
            } else if k < span(*left).len() {
                lemma_primitive_boxes_nested(*left, boxes, k);
                lemma_contains_trans(bbox, lb, boxes[span(t)[k] as int]);
            } else {
                lemma_primitive_boxes_nested(*right, boxes, k - span(*left).len());
                lemma_contains_trans(bbox, rb, boxes[span(t)[k] as int]);
            }
        },
    }
}

/// The number of nodes on the longest path from the root down to a leaf.
pub open spec fn height(t: BvhTree) -> nat
    decreases t,
{
    match t {
        BvhTree::Leaf(_) => 0,
        BvhTree::Node { left, right, .. } => {
            let (l, r) = (height(*left), height(*right));
            1 + if l >= r {
                l
            } else {
                r
            }
        },
    }
}

/// A well-built tree over at most `2^k` primitives is at most `k` nodes
/// deep: finding a primitive takes logarithmically many box tests.
pub proof fn lemma_balanced(t: BvhTree, boxes: Seq<Aabb>, k: nat)
    requires
        well_built(t, boxes),
        t is Node,
        k >= 1,
        span(t).len() <= pow2(k),
    ensures
        height(t) <= k,
    decreases t,
{
    match t {
        BvhTree::Leaf(_) => {},
        BvhTree::Node { left, right, .. } => {
            if is_single(*left, *right) {
                assert(height(*left) == 0);
            } else if *left is Leaf {
                assert(height(*left) == 0 && height(*right) == 0);
            } else {
                let n = span(t).len();
                lemma_pow2_unfold(1);
                assert(pow2(0) == 1) by {
                    vstd::arithmetic::power2::lemma2_to64();
                }
                if k == 1 {
                    assert(n <= 2);
                    assert(false);
                }
                lemma_pow2_unfold(k);
                let k1 = (k - 1) as nat;
                assert(span(*left).len() <= pow2(k1));
                assert(span(*right).len() <= pow2(k1));
                lemma_balanced(*left, boxes, k1);
                lemma_balanced(*right, boxes, k1);
            }
        },
    }
}

impl BvhTree {
    /// The bounding box of this tree.
    pub fn bounding_box(&self, boxes: &Vec<Aabb>) -> (r: Aabb)
        requires
            well_built(*self, boxes@),
        ensures
            r == tree_box(*self, boxes@),
    {
        match self {
            BvhTree::Leaf(i) => boxes[*i],
            BvhTree::Node { bbox, .. } => *bbox,
        }
    }
}

/// Builds the hierarchy over `items`, drawing the sort axis of each node
/// at random.
fn build_over(items: Vec<usize>, boxes: &Vec<Aabb>) -> (t: BvhTree)
    requires
        items.len() > 0,
        all_in_range(items@, boxes@),
        items@.no_duplicates(),
    ensures
        t is Node,
        well_built(t, boxes@),
        span(t).to_multiset() == items@.to_multiset(),
    decreases items.len(),
{
    broadcast use vstd::seq_lib::group_to_multiset_ensures;

    let axis = random_axis();
    let mut sorted = items;
    sort_on_axis(&mut sorted, boxes, axis);
    proof {
        lemma_no_duplicates_by_content(items@, sorted@);
        vstd::seq_lib::to_multiset_len(items@);
        vstd::seq_lib::to_multiset_len(sorted@);
    }
    let n = sorted.len();
    if n == 1 {
        let only = sorted[0];
        let bbox = boxes[only].surround(&boxes[only]);
        let t = BvhTree::Node {
            axis,
            bbox,
            left: Box::new(BvhTree::Leaf(only)),
            right: Box::new(BvhTree::Leaf(only)),
        };
        assert(span(BvhTree::Leaf(only)) == seq![only]);
        assert(well_built(BvhTree::Leaf(only), boxes@));
        assert(span(t) =~= sorted@);
        assert(well_built(t, boxes@));
        t
    } else if n == 2 {
        let first = sorted[0];
        let second = sorted[1];
        let bbox = boxes[first].surround(&boxes[second]);
        let t = BvhTree::Node {
            axis,
            bbox,
            left: Box::new(BvhTree::Leaf(first)),
            right: Box::new(BvhTree::Leaf(second)),
        };
        assert(span(BvhTree::Leaf(first)) == seq![first]);
        assert(span(BvhTree::Leaf(second)) == seq![second]);
        assert(first != second);
        assert(well_built(BvhTree::Leaf(first), boxes@));
        assert(well_built(BvhTree::Leaf(second), boxes@));
        assert(span(t) =~= sorted@);
        assert(well_built(t, boxes@));
        t
    } else {
        let ghost whole = sorted@;
        let latter = sorted.split_off(n / 2);
        let former = sorted;
        assert(whole =~= former@ + latter@);
        assert(split_ordered(former@, latter@, boxes@, axis)) by {
            assert forall|a: int, b: int|
                0 <= a < former@.len() && 0 <= b < latter@.len() implies item_key(
                boxes@,
                #[trigger] former@[a],
                axis,
            ) <= item_key(boxes@, #[trigger] latter@[b], axis) by {
                assert(former@[a] == whole[a]);
                assert(latter@[b] == whole[n / 2 + b]);
            }
        }
        let left = build_over(former, boxes);
        let right = build_over(latter, boxes);
        proof {
            lemma_split_ordered_by_content(former@, latter@, span(left), span(right), boxes@, axis);
            vstd::seq_lib::lemma_multiset_commutative(span(left), span(right));
            vstd::seq_lib::lemma_multiset_commutative(former@, latter@);
            vstd::seq_lib::to_multiset_len(span(left));
            vstd::seq_lib::to_multiset_len(span(right));
            vstd::seq_lib::to_multiset_len(former@);
            vstd::seq_lib::to_multiset_len(latter@);
        }
        let bbox = left.bounding_box(boxes).surround(&right.bounding_box(boxes));
        let t = BvhTree::Node { axis, bbox, left: Box::new(left), right: Box::new(right) };
        assert(span(left).len() == n / 2);
        assert(split_ordered(span(left), span(right), boxes@, axis));
        assert(well_built(t, boxes@));
        t
    }
}

/// Builds a bounding-volume hierarchy over the primitives `0..boxes.len()`,
/// where `boxes[i]` is primitive `i`'s bounding box. Each node sorts its
/// primitives by the minimum corners of their boxes along an axis drawn at
/// random and splits them at the midpoint. The tree covers every primitive
/// exactly once.
pub fn build(boxes: &Vec<Aabb>) -> (t: BvhTree)
    requires
        boxes.len() > 0,
    ensures
        t is Node,
        well_built(t, boxes@),
        span(t).to_multiset() == Seq::new(boxes@.len(), |i: int| i as usize).to_multiset(),
{
    let mut items: Vec<usize> = Vec::new();
    let mut i: usize = 0;
    while i < boxes.len()
        invariant
            i <= boxes.len(),
            items@ == Seq::new(i as nat, |j: int| j as usize),
        decreases boxes.len() - i,
    {
        items.push(i);
        i = i + 1;
    }
    assert(items@ =~= Seq::new(boxes@.len(), |j: int| j as usize));
    build_over(items, boxes)
}

} // verus!
