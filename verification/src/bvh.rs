//! Building a bounding volume hierarchy, and what the finished hierarchy
//! owes to the list it was built from.

use vstd::prelude::*;
use vstd::seq_lib::group_to_multiset_ensures;
use std::rc::Rc;
use crate::bbox::lemma_encloses_antisymmetric;
use crate::bbox::lemma_encloses_transitive;
use crate::bbox::lemma_merge_associative;
use crate::bbox::lemma_merge_empty_identity;
use crate::bbox::lemma_merge_idempotent;
use crate::bbox::lemma_merge_is_least;
use crate::bbox::AABB;
use crate::hittable::Hittable;
use crate::hittable::HittableList;
use crate::hittable::BVH;
use crate::random::RandomSource;
use crate::shared::share;

verus! {

/// The number by which an object is ordered along `axis`: the smallest
/// coordinate of its box on that axis.
pub open spec fn sort_key(x: Rc<Hittable>, axis: int) -> int {
    match x.spec_bounding_box() {
        Some(b) => b.min.spec_axis(axis).raw as int,
        None => 0,
    }
}

/// Every object of the sequence has a box.
pub open spec fn all_boxed(objects: Seq<Rc<Hittable>>) -> bool {
    forall|i: int| 0 <= i < objects.len() ==> (#[trigger] objects[i]).spec_bounding_box() is Some
}

/// The keys of the objects never fall from one to the next.
pub open spec fn sorted_along(objects: Seq<Rc<Hittable>>, axis: int) -> bool {
    forall|i: int, j: int|
        0 <= i <= j < objects.len() ==> sort_key(#[trigger] objects[i], axis) <= sort_key(
            #[trigger] objects[j],
            axis,
        )
}

/// The two sequences hold the same objects, however often.
pub open spec fn same_objects(a: Seq<Rc<Hittable>>, b: Seq<Rc<Hittable>>) -> bool {
    forall|x: Rc<Hittable>| a.contains(x) <==> b.contains(x)
}

fn key_of(x: &Rc<Hittable>, axis: usize) -> (k: i64)
    requires
        axis < 3,
        x.spec_bounding_box() is Some,
    ensures
        k == sort_key(*x, axis as int),
{
    match x.bounding_box() {
        Some(b) => b.min().axis(axis).to_raw(),
        None => 0,
    }
}

/// The objects in the order of their keys along `axis`.
pub fn sort_by_axis(objects: &Vec<Rc<Hittable>>, axis: usize) -> (r: Vec<Rc<Hittable>>)
    requires
        axis < 3,
        all_boxed(objects@),
    ensures
        r@.len() == objects@.len(),
        r@.to_multiset() == objects@.to_multiset(),
        sorted_along(r@, axis as int),
        all_boxed(r@),
{
    let mut sorted: Vec<Rc<Hittable>> = Vec::new();
    let mut keys: Vec<i64> = Vec::new();
    let mut i: usize = 0;
    proof {
        assert(objects@.take(0) =~= Seq::<Rc<Hittable>>::empty());
    }
    while i < objects.len()
        invariant
            i <= objects.len(),
            axis < 3,
            all_boxed(objects@),
            all_boxed(sorted@),
            sorted@.len() == i,
            keys@.len() == i,
            sorted@.to_multiset() == objects@.take(i as int).to_multiset(),
            forall|k: int| 0 <= k < i ==> #[trigger] keys@[k] == sort_key(sorted@[k], axis as int),
            forall|k: int, l: int| 0 <= k <= l < i ==> #[trigger] keys@[k] <= #[trigger] keys@[l],
        decreases objects.len() - i,
    {
        let x = share(&objects[i]);
        let key = key_of(&x, axis);
        let mut pos: usize = i;
        while pos > 0 && keys[pos - 1] > key
            invariant
                pos <= i,
                keys@.len() == i,
                forall|k: int| pos <= k < i ==> #[trigger] keys@[k] > key,
            decreases pos,
        {
            pos = pos - 1;
        }
        let ghost before = sorted@;
        let ghost keys_before = keys@;
        sorted.insert(pos, x);
        keys.insert(pos, key);
        proof {
            broadcast use group_to_multiset_ensures;

            assert(objects@.take(i + 1) =~= objects@.take(i as int).push(objects@[i as int]));
            assert(sorted@ == before.insert(pos as int, x));
            assert(keys@ == keys_before.insert(pos as int, key));
            assert forall|k: int| 0 <= k < i + 1 implies #[trigger] keys@[k] == sort_key(
                sorted@[k],
                axis as int,
            ) by {
                if k < pos {
                    assert(keys@[k] == keys_before[k]);
                    assert(sorted@[k] == before[k]);
                } else if k > pos {
                    assert(keys@[k] == keys_before[k - 1]);
                    assert(sorted@[k] == before[k - 1]);
                }
            }
            assert forall|k: int, l: int| 0 <= k <= l < i + 1 implies #[trigger] keys@[k]
                <= #[trigger] keys@[l] by {
                let a = if k < pos { keys_before[k] } else if k == pos { key } else { keys_before[k - 1] };
                let b = if l < pos { keys_before[l] } else if l == pos { key } else { keys_before[l - 1] };
                assert(keys@[k] == a);
                assert(keys@[l] == b);
                if k < pos && l == pos {
                    assert(keys_before[k] <= keys_before[pos - 1]);
                }
            }
            assert forall|k: int| 0 <= k < i + 1 implies (#[trigger] sorted@[k]).spec_bounding_box() is Some by {
                if k < pos {
                    assert(sorted@[k] == before[k]);
                } else if k > pos {
                    assert(sorted@[k] == before[k - 1]);
                }
            }
        }
        i = i + 1;
    }
    proof {
        assert(objects@.take(objects@.len() as int) =~= objects@);
        assert forall|a: int, b: int| 0 <= a <= b < sorted@.len() implies sort_key(
            #[trigger] sorted@[a],
            axis as int,
        ) <= sort_key(#[trigger] sorted@[b], axis as int) by {
            assert(keys@[a] <= keys@[b]);
        }
    }
    sorted
}

/// The box around the first `n` objects, each of which has a box.
pub open spec fn box_around(objects: Seq<Rc<Hittable>>, n: nat) -> AABB
    decreases n,
{
    if n == 0 || n > objects.len() {
        AABB::spec_empty()
    } else {
        box_around(objects, (n - 1) as nat).spec_merge(object_box(objects[n - 1]))
    }
}

/// The box of an object; the empty box where it has none.
pub open spec fn object_box(x: Rc<Hittable>) -> AABB {
    match x.spec_bounding_box() {
        Some(b) => b,
        None => AABB::spec_empty(),
    }
}

/// The box around objects encloses the box of each of them.
pub proof fn lemma_box_around_encloses(objects: Seq<Rc<Hittable>>, n: nat, i: int)
    requires
        0 <= i < n <= objects.len(),
    ensures
        box_around(objects, n).encloses(object_box(objects[i])),
    decreases n,
{
    let before = box_around(objects, (n - 1) as nat);
    let last = object_box(objects[n - 1]);
    lemma_merge_is_least(before, last, before);
    if i < n - 1 {
        lemma_box_around_encloses(objects, (n - 1) as nat, i);
        lemma_encloses_transitive(box_around(objects, n), before, object_box(objects[i]));
    }
}

/// A box that encloses the box of every object encloses the box around
/// them.
pub proof fn lemma_box_around_is_least(objects: Seq<Rc<Hittable>>, n: nat, c: AABB)
    requires
        n <= objects.len(),
        forall|i: int| 0 <= i < n ==> c.encloses(object_box(#[trigger] objects[i])),
    ensures
        c.encloses(box_around(objects, n)),
    decreases n,
{
    if n == 0 {
        lemma_merge_empty_identity(c);
    } else {
        lemma_box_around_is_least(objects, (n - 1) as nat, c);
        assert(c.encloses(object_box(objects[n - 1])));
        lemma_merge_is_least(
            box_around(objects, (n - 1) as nat),
            object_box(objects[n - 1]),
            c,
        );
    }
}

/// The box around objects does not depend on their order, nor on how often
/// each of them occurs.
pub proof fn lemma_box_around_same_objects(a: Seq<Rc<Hittable>>, b: Seq<Rc<Hittable>>)
    requires
        same_objects(a, b),
    ensures
        box_around(a, a.len()) == box_around(b, b.len()),
{
    let box_a = box_around(a, a.len());
    let box_b = box_around(b, b.len());
    assert forall|i: int| 0 <= i < b.len() implies box_a.encloses(
        object_box(#[trigger] b[i]),
    ) by {
        assert(b.contains(b[i]));
        assert(a.contains(b[i]));
        let k = choose|k: int| 0 <= k < a.len() && a[k] == b[i];
        lemma_box_around_encloses(a, a.len(), k);
    }
    lemma_box_around_is_least(b, b.len(), box_a);
    assert forall|i: int| 0 <= i < a.len() implies box_b.encloses(
        object_box(#[trigger] a[i]),
    ) by {
        assert(a.contains(a[i]));
        assert(b.contains(a[i]));
        let k = choose|k: int| 0 <= k < b.len() && b[k] == a[i];
        lemma_box_around_encloses(b, b.len(), k);
    }
    lemma_box_around_is_least(a, a.len(), box_b);
    lemma_encloses_antisymmetric(box_a, box_b);
}

/// The box around two runs of objects, one after the other, is the merge of
/// the boxes around each.
pub proof fn lemma_box_around_joined(a: Seq<Rc<Hittable>>, b: Seq<Rc<Hittable>>, n: nat)
    requires
        n <= b.len(),
    ensures
        box_around(a + b, a.len() + n) == box_around(a, a.len()).spec_merge(box_around(b, n)),
    decreases n,
{
    let joined = a + b;
    if n == 0 {
        lemma_merge_empty_identity(box_around(a, a.len()));
        lemma_box_around_prefix(joined, a, a.len());
    } else {
        lemma_box_around_joined(a, b, (n - 1) as nat);
        assert(joined[a.len() + n - 1] == b[n - 1]);
        lemma_merge_associative(
            box_around(a, a.len()),
            box_around(b, (n - 1) as nat),
            object_box(b[n - 1]),
        );
    }
}

/// The box around the first objects looks at those objects only.
pub proof fn lemma_box_around_prefix(a: Seq<Rc<Hittable>>, b: Seq<Rc<Hittable>>, n: nat)
    requires
        n <= a.len(),
        n <= b.len(),
        forall|i: int| 0 <= i < n ==> a[i] == b[i],
    ensures
        box_around(a, n) == box_around(b, n),
    decreases n,
{
    if n > 0 {
        lemma_box_around_prefix(a, b, (n - 1) as nat);
    }
}

/// The box of a list of objects with boxes is the box around them.
pub proof fn lemma_list_box(list: HittableList, n: nat)
    requires
        n <= list.objects@.len(),
        all_boxed(list.objects@),
    ensures
        list.spec_bounding_box_prefix(n) == Some(box_around(list.objects@, n)),
    decreases n,
{
    if n > 0 {
        lemma_list_box(list, (n - 1) as nat);
        assert(list.objects@[n - 1].spec_bounding_box() is Some);
    }
}

/// The box of a well-formed hierarchy is the box around its leaves.
pub proof fn lemma_tree_box(node: BVH, n: nat)
    requires
        node.well_formed(n),
    ensures
        node.bounding_box == box_around(node.leaves(n), node.leaves(n).len()),
    decreases n,
{
    let leaves = node.leaves(n);
    if n <= 2 {
        assert(leaves.len() == 2);
        assert(leaves[0] == node.left);
        assert(leaves[1] == node.right);
        assert(box_around(leaves, 0) == AABB::spec_empty());
        assert(box_around(leaves, 1) == AABB::spec_empty().spec_merge(object_box(node.left)));
        lemma_merge_empty_identity(object_box(node.left));
        assert(box_around(leaves, 2) == box_around(leaves, 1).spec_merge(object_box(node.right)));
    } else {
        let l = node.left_node();
        let r = node.right_node();
        let ll = l.leaves(n / 2);
        let rl = r.leaves((n - n / 2) as nat);
        lemma_tree_box(l, n / 2);
        lemma_tree_box(r, (n - n / 2) as nat);
        lemma_box_around_joined(ll, rl, rl.len());
        assert(leaves == ll + rl);
        assert(node.left.spec_bounding_box() == Some(l.bounding_box));
        assert(node.right.spec_bounding_box() == Some(r.bounding_box));
    }
}

/// The box of a hierarchy is the box around the objects that it was built
/// from.
pub proof fn lemma_spanning_box(node: BVH, objects: Seq<Rc<Hittable>>)
    requires
        node.spans(objects),
    ensures
        node.bounding_box == box_around(objects, objects.len()),
{
    lemma_tree_box(node, objects.len());
    lemma_box_around_same_objects(node.leaves(objects.len()), objects);
}

/// A hierarchy has the box of the list that it was built from.
pub proof fn lemma_bvh_box_is_list_box(tree: BVH, list: HittableList)
    requires
        tree.spans(list.objects@),
        all_boxed(list.objects@),
    ensures
        tree.spec_bounding_box() == list.spec_bounding_box(),
{
    lemma_spanning_box(tree, list.objects@);
    lemma_list_box(list, list.objects@.len());
}

/// A single object, held twice, is the same objects as held once.
pub proof fn lemma_twice_same_objects(whole: Seq<Rc<Hittable>>)
    requires
        whole.len() == 1,
    ensures
        same_objects(seq![whole[0], whole[0]], whole),
{
    let twice = seq![whole[0], whole[0]];
    assert forall|x: Rc<Hittable>| twice.contains(x) <==> whole.contains(x) by {
        if twice.contains(x) {
            let i = choose|i: int| 0 <= i < twice.len() && twice[i] == x;
            assert(whole[0] == x);
        }
        if whole.contains(x) {
            assert(twice[0] == x);
        }
    }
}

/// Both halves of a sequence of objects with boxes hold objects with boxes.
pub proof fn lemma_halves_boxed(lower: Seq<Rc<Hittable>>, upper: Seq<Rc<Hittable>>)
    requires
        all_boxed(lower + upper),
    ensures
        all_boxed(lower),
        all_boxed(upper),
{
    let whole = lower + upper;
    assert forall|i: int| 0 <= i < lower.len() implies (#[trigger] lower[i]).spec_bounding_box() is Some by {
        assert(lower[i] == whole[i]);
    }
    assert forall|i: int| 0 <= i < upper.len() implies (#[trigger] upper[i]).spec_bounding_box() is Some by {
        assert(upper[i] == whole[lower.len() + i]);
    }
}

/// Leaves that are the objects of the lower half, followed by leaves that
/// are the objects of the upper half, are the objects of the whole.
pub proof fn lemma_halves_same_objects(
    ll: Seq<Rc<Hittable>>,
    rl: Seq<Rc<Hittable>>,
    lower: Seq<Rc<Hittable>>,
    upper: Seq<Rc<Hittable>>,
)
    requires
        same_objects(ll, lower),
        same_objects(rl, upper),
    ensures
        same_objects(ll + rl, lower + upper),
{
    let joined = ll + rl;
    let whole = lower + upper;
    assert forall|x: Rc<Hittable>| joined.contains(x) <==> whole.contains(x) by {
        if joined.contains(x) {
            let i = choose|i: int| 0 <= i < joined.len() && joined[i] == x;
            if i < ll.len() {
                assert(ll[i] == x);
                assert(ll.contains(x));
                assert(lower.contains(x));
                let k = choose|k: int| 0 <= k < lower.len() && lower[k] == x;
                assert(whole[k] == x);
            } else {
                let j = i - ll.len();
                assert(rl[j] == x);
                assert(rl.contains(x));
                assert(upper.contains(x));
                let k = choose|k: int| 0 <= k < upper.len() && upper[k] == x;
                assert(whole[lower.len() + k] == x);
            }
        }
        if whole.contains(x) {
            let k = choose|k: int| 0 <= k < whole.len() && whole[k] == x;
            if k < lower.len() {
                assert(lower[k] == x);
                assert(lower.contains(x));
                assert(ll.contains(x));
                let i = choose|i: int| 0 <= i < ll.len() && ll[i] == x;
                assert(joined[i] == x);
            } else {
                assert(upper[k - lower.len()] == x);
                assert(upper.contains(x));
                assert(rl.contains(x));
                let i = choose|i: int| 0 <= i < rl.len() && rl[i] == x;
                assert(joined[ll.len() + i] == x);
            }
        }
    }
}

/// Where the whole is sorted along an axis, no leaf from the lower half
/// comes after a leaf from the upper half.
pub proof fn lemma_halves_split(
    ll: Seq<Rc<Hittable>>,
    rl: Seq<Rc<Hittable>>,
    lower: Seq<Rc<Hittable>>,
    upper: Seq<Rc<Hittable>>,
    axis: int,
)
    requires
        same_objects(ll, lower),
        same_objects(rl, upper),
        sorted_along(lower + upper, axis),
    ensures
        forall|i: int, j: int|
            0 <= i < ll.len() && 0 <= j < rl.len() ==> sort_key(#[trigger] ll[i], axis) <= sort_key(
                #[trigger] rl[j],
                axis,
            ),
{
    let whole = lower + upper;
    assert forall|i: int, j: int| 0 <= i < ll.len() && 0 <= j < rl.len() implies sort_key(
        #[trigger] ll[i],
        axis,
    ) <= sort_key(#[trigger] rl[j], axis) by {
        assert(ll.contains(ll[i]));
        assert(lower.contains(ll[i]));
        let k = choose|k: int| 0 <= k < lower.len() && lower[k] == ll[i];
        assert(rl.contains(rl[j]));
        assert(upper.contains(rl[j]));
        let m = choose|m: int| 0 <= m < upper.len() && upper[m] == rl[j];
        assert(whole[k] == ll[i]);
        assert(whole[lower.len() + m] == rl[j]);
    }
}

/// Two sequences with the same multiset of objects hold the same objects.
pub proof fn lemma_permutation_same_objects(a: Seq<Rc<Hittable>>, b: Seq<Rc<Hittable>>)
    requires
        a.to_multiset() == b.to_multiset(),
    ensures
        same_objects(a, b),
{
    broadcast use group_to_multiset_ensures;

    assert forall|x: Rc<Hittable>| a.contains(x) <==> b.contains(x) by {
        assert(a.contains(x) <==> a.to_multiset().count(x) > 0);
        assert(b.contains(x) <==> b.to_multiset().count(x) > 0);
    }
}

impl BVH {
    /// The hierarchy that is the left child of an inner node.
    pub open spec fn left_node(self) -> BVH {
        (*self.left)->BVH_0
    }

    /// The hierarchy that is the right child of an inner node.
    pub open spec fn right_node(self) -> BVH {
        (*self.right)->BVH_0
    }

    /// The objects at the leaves of a hierarchy that was built over `n`
    /// objects, from left to right.
    pub open spec fn leaves(self, n: nat) -> Seq<Rc<Hittable>>
        decreases n,
    {
        if n <= 2 {
            seq![self.left, self.right]
        } else {
            self.left_node().leaves(n / 2) + self.right_node().leaves((n - n / 2) as nat)
        }
    }

    /// The hierarchy has the shape of one that was built over `n` objects:
    /// over one object, both children are that object; over two, the children
    /// are the two objects; over more, the children are hierarchies over the
    /// lower and the upper half.  Every node's box is the merge of the boxes
    /// of its children.
    pub open spec fn well_formed(self, n: nat) -> bool
        decreases n,
    {
        &&& n >= 1
        &&& self.left.spec_bounding_box() matches Some(lb)
        &&& self.right.spec_bounding_box() matches Some(rb)
        &&& self.bounding_box == lb.spec_merge(rb)
        &&& n == 1 ==> self.left == self.right
        &&& n > 2 ==> {
            &&& *self.left is BVH
            &&& *self.right is BVH
            &&& self.left_node().well_formed(n / 2)
            &&& self.right_node().well_formed((n - n / 2) as nat)
        }
    }

    /// The leaves below the left child of a hierarchy over `n` objects.
    pub open spec fn left_leaves(self, n: nat) -> Seq<Rc<Hittable>> {
        if n <= 2 {
            seq![self.left]
        } else {
            self.left_node().leaves(n / 2)
        }
    }

    /// The leaves below the right child of a hierarchy over `n` objects.
    pub open spec fn right_leaves(self, n: nat) -> Seq<Rc<Hittable>> {
        if n <= 2 {
            seq![self.right]
        } else {
            self.right_node().leaves((n - n / 2) as nat)
        }
    }

    /// Along `axis`, no leaf below the left child comes after a leaf below
    /// the right child.
    pub open spec fn split_along(self, n: nat, axis: int) -> bool {
        forall|i: int, j: int|
            0 <= i < self.left_leaves(n).len() && 0 <= j < self.right_leaves(n).len() ==> sort_key(
                #[trigger] self.left_leaves(n)[i],
                axis,
            ) <= sort_key(#[trigger] self.right_leaves(n)[j], axis)
    }

    /// Every node of a hierarchy over `n` objects splits its leaves along one
    /// of the three axes.
    pub open spec fn partitioned(self, n: nat) -> bool
        decreases n,
    {
        &&& exists|axis: int| 0 <= axis < 3 && #[trigger] self.split_along(n, axis)
        &&& n > 2 ==> self.left_node().partitioned(n / 2) && self.right_node().partitioned(
            (n - n / 2) as nat,
        )
    }

    /// The hierarchy is well formed over as many objects as `objects` holds,
    /// and its leaves are the objects of `objects`.
    pub open spec fn spans(self, objects: Seq<Rc<Hittable>>) -> bool {
        &&& self.well_formed(objects.len())
        &&& same_objects(self.leaves(objects.len()), objects)
    }

    /// A hierarchy over `objects`, split along randomly chosen axes.
    pub fn new(objects: Vec<Rc<Hittable>>, rng: &mut RandomSource) -> (r: BVH)
        requires
            objects.len() > 1,
            all_boxed(objects@),
        ensures
            r.spans(objects@),
            r.partitioned(objects@.len()),
            r.bounding_box == box_around(objects@, objects@.len()),
    {
        let ghost given = objects@;
        let r = BVH::build_bvh(rng, objects);
        proof {
            lemma_spanning_box(r, given);
        }
        r
    }

    /// A hierarchy over `objects`: the objects are sorted along a random
    /// axis and split in the middle, and each half is built in the same way.
    pub fn build_bvh(rng: &mut RandomSource, objects: Vec<Rc<Hittable>>) -> (r: BVH)
        requires
            objects.len() >= 1,
            all_boxed(objects@),
        ensures
            r.spans(objects@),
            r.partitioned(objects@.len()),
        decreases objects.len(),
    {
        let axis = rng.axis();
        let mut sorted = sort_by_axis(&objects, axis);
        let ghost whole = sorted@;
        let len = sorted.len();
        proof {
            lemma_permutation_same_objects(whole, objects@);
        }
        if len == 1 {
            let bounding_box = match sorted[0].bounding_box() {
                Some(b) => b,
                None => AABB::default(),
            };
            let node = BVH { left: share(&sorted[0]), right: share(&sorted[0]), bounding_box };
            proof {
                lemma_merge_idempotent(bounding_box);
                assert(node.leaves(1) == seq![whole[0], whole[0]]);
                assert(node.split_along(1, axis as int));
                lemma_twice_same_objects(whole);
            }
            return node;
        }
        let left: Rc<Hittable>;
        let right: Rc<Hittable>;
        if len == 2 {
            left = share(&sorted[0]);
            right = share(&sorted[1]);
        } else {
            let mid = len / 2;
            let upper = sorted.split_off(mid);
            let ghost lower_seq = sorted@;
            let ghost upper_seq = upper@;
            proof {
                assert(whole =~= lower_seq + upper_seq);
                lemma_halves_boxed(lower_seq, upper_seq);
            }
            let l = BVH::build_bvh(rng, sorted);
            let r = BVH::build_bvh(rng, upper);
            proof {
                lemma_halves_same_objects(
                    l.leaves(mid as nat),
                    r.leaves((len - mid) as nat),
                    lower_seq,
                    upper_seq,
                );
                lemma_halves_split(
                    l.leaves(mid as nat),
                    r.leaves((len - mid) as nat),
                    lower_seq,
                    upper_seq,
                    axis as int,
                );
            }
            left = Rc::new(Hittable::BVH(l));
            right = Rc::new(Hittable::BVH(r));
        }
        let mut bbox = match left.bounding_box() {
            Some(b) => b,
            None => AABB::default(),
        };
        let right_box = match right.bounding_box() {
            Some(b) => b,
            None => AABB::default(),
        };
        bbox.merge(&right_box);
        let node = BVH { left, right, bounding_box: bbox };
        proof {
            if len == 2 {
                assert(node.leaves(2) =~= whole);
                assert(node.left_leaves(2)[0] == whole[0]);
                assert(node.right_leaves(2)[0] == whole[1]);
            }
            assert(node.split_along(len as nat, axis as int));
        }
        node
    }
}

} // verus!
