//! The nearest hit: what a list and a hierarchy over the same objects have
//! in common.
//!
//! Both search for the hit with the smallest parameter.  They agree wherever
//! the boxes of the objects do not hide a hit that counts: a hit in the
//! window that was asked for, or a hit before the end of a window that the
//! search has shortened.  A box hides such a hit where rounding leaves the
//! box thinner than the object; and the box of a rectangle, which takes a
//! hit on an end of the window while the box test does not, where the ray
//! meets the rectangle on that end.

use vstd::prelude::*;
use std::rc::Rc;
use crate::bbox::lemma_merge_keeps_hit;
use crate::bbox::AABB;
use crate::fixed::Fixed;
use crate::hittable::in_window;
use crate::hittable::inside_window;
use crate::hittable::later_wins;
use crate::hittable::rest_of_window;
use crate::hittable::HitRecord;
use crate::hittable::Hittable;
use crate::hittable::HittableList;
use crate::hittable::BVH;
use crate::ray::Ray;
use crate::rect::AARect;
use crate::sphere::lemma_sphere_roots_ordered;
use crate::sphere::AnimatedSphere;
use crate::sphere::Sphere;
use crate::vec3::Point3;
use crate::vec3::Vec3;

verus! {

impl Hittable {
    /// The object is a sphere, a moving sphere or a rectangle.
    pub open spec fn is_primitive(&self) -> bool {
        self is Sphere || self is AnimatedSphere || self is AARect
    }

    /// The object takes a hit only strictly inside the window, as the
    /// spheres do; a rectangle also takes a hit on an end of the window.
    pub open spec fn open_ended(&self) -> bool {
        self is Sphere || self is AnimatedSphere
    }

    /// The box of the object hides no hit of `ray` that counts in a search
    /// over the window from `t_min` to `t_max`.  The search asks for hits up
    /// to `t_max`, or up to a hit `c` that it has found before; the ray
    /// passes through the box over that window wherever it hits the object
    /// there, at any parameter in the first case, and before `c` in the
    /// second.
    pub open spec fn box_catches(&self, ray: Ray, t_min: Fixed, t_max: Fixed) -> bool {
        forall|c: Fixed|
            c.raw <= t_max.raw ==> ((#[trigger] self.spec_hit(ray, t_min, c)) matches Some(h) ==> ((c
                == t_max || h.t.raw < c.raw) ==> (self.spec_bounding_box() matches Some(bx)
                && bx.spec_hit(ray, t_min, c))))
    }

    /// The ray is inside the object's box at every hit on the object, for
    /// more than a single parameter, and for a rectangle from before the hit
    /// until after it.
    pub open spec fn box_surrounds_hits(&self, ray: Ray) -> bool {
        forall|a: Fixed, c: Fixed|
            (#[trigger] self.spec_hit(ray, a, c)) matches Some(h) ==> (self.spec_bounding_box()
                matches Some(bx) && {
                let entry = bx.latest_entry(ray, Fixed { raw: i64::MIN });
                let exit = bx.earliest_exit(ray, Fixed { raw: i64::MAX });
                &&& entry.raw <= h.t.raw <= exit.raw
                &&& entry.raw < exit.raw
                &&& !self.open_ended() ==> entry.raw < h.t.raw < exit.raw
            })
    }

    /// Center of a sphere at the time that `ray` carries.
    pub open spec fn sphere_center(&self, ray: Ray) -> Point3 {
        match *self {
            Hittable::Sphere(s) => s.center,
            Hittable::AnimatedSphere(s) => s.spec_center(ray.time),
            _ => Vec3::spec_zero(),
        }
    }

    /// Radius of a sphere.
    pub open spec fn sphere_radius(&self) -> Fixed {
        match *self {
            Hittable::Sphere(s) => s.radius,
            Hittable::AnimatedSphere(s) => s.radius,
            _ => Fixed { raw: 0 },
        }
    }
}

/// Every object of the sequence is a sphere, a moving sphere or a rectangle.
pub open spec fn all_primitive(objects: Seq<Rc<Hittable>>) -> bool {
    forall|i: int| 0 <= i < objects.len() ==> (#[trigger] objects[i]).is_primitive()
}

/// The hit `h`, unless a window that ends at `t_max` leaves it out: a hit
/// beyond `t_max`, and for an object that takes no hit on an end of the
/// window also a hit at `t_max`.
pub open spec fn cut(h: Option<HitRecord>, t_max: Fixed, open_ended: bool) -> Option<HitRecord> {
    match h {
        Some(r) => if r.t.raw < t_max.raw || (r.t.raw == t_max.raw && !open_ended) {
            h
        } else {
            None
        },
        None => None,
    }
}

/// No box of the sequence hides a hit of `ray` that counts in a search over
/// the window from `t_min` to `t_max`.
pub open spec fn all_boxes_catch(
    objects: Seq<Rc<Hittable>>,
    ray: Ray,
    t_min: Fixed,
    t_max: Fixed,
) -> bool {
    forall|i: int|
        0 <= i < objects.len() ==> (#[trigger] objects[i]).box_catches(ray, t_min, t_max)
}

/// `h` is a nearest hit of `ray` among the first `n` objects over the window
/// from `t_min` to `c`, a window that a search up to `t_max` asks for: the
/// hit of one of them, with none of them hit at a smaller parameter; or no
/// hit, where none of them is hit but at the end `c` of a shortened window,
/// which is where the search holds a hit already.
pub open spec fn nearest_up_to(
    objects: Seq<Rc<Hittable>>,
    n: nat,
    ray: Ray,
    t_min: Fixed,
    c: Fixed,
    t_max: Fixed,
    h: Option<HitRecord>,
) -> bool {
    match h {
        None => forall|i: int|
            0 <= i < n ==> ((#[trigger] objects[i]).spec_hit(ray, t_min, c) matches Some(o) ==> c
                != t_max && o.t == c),
        Some(r) => {
            &&& exists|i: int|
                0 <= i < n && (#[trigger] objects[i]).spec_hit(ray, t_min, c) == Some(r)
            &&& forall|i: int|
                0 <= i < n ==> ((#[trigger] objects[i]).spec_hit(ray, t_min, c) matches Some(o)
                    ==> r.t.raw <= o.t.raw)
        },
    }
}

/// `h` is a nearest hit of `ray` among the first `n` objects: no hit where
/// none of them is hit, else the hit of one of them, and none of them is hit
/// at a smaller parameter.
pub open spec fn nearest_among(
    objects: Seq<Rc<Hittable>>,
    n: nat,
    ray: Ray,
    t_min: Fixed,
    t_max: Fixed,
    h: Option<HitRecord>,
) -> bool {
    match h {
        None => forall|i: int|
            0 <= i < n ==> (#[trigger] objects[i]).spec_hit(ray, t_min, t_max) is None,
        Some(r) => {
            &&& exists|i: int|
                0 <= i < n && (#[trigger] objects[i]).spec_hit(ray, t_min, t_max) == Some(r)
            &&& forall|i: int|
                0 <= i < n ==> ((#[trigger] objects[i]).spec_hit(ray, t_min, t_max) matches Some(o)
                    ==> r.t.raw <= o.t.raw)
        },
    }
}

/// No two objects are hit at the same parameter with different records, as
/// is the case for objects that do not touch.
pub open spec fn no_ties(objects: Seq<Rc<Hittable>>, ray: Ray, t_min: Fixed, t_max: Fixed) -> bool {
    forall|i: int, j: int|
        0 <= i < objects.len() && 0 <= j < objects.len() ==> ({
            let hi = (#[trigger] objects[i]).spec_hit(ray, t_min, t_max);
            let hj = (#[trigger] objects[j]).spec_hit(ray, t_min, t_max);
            hi is Some && hj is Some && hi->0.t == hj->0.t ==> hi == hj
        })
}

/// A sphere or rectangle is hit inside the window it was asked for, a
/// sphere strictly inside, and in a shorter window it is hit in the same way
/// or, where the shorter window leaves that hit out, not at all.
pub proof fn lemma_primitive_window(x: Rc<Hittable>, ray: Ray, a: Fixed, b: Fixed, c: Fixed)
    requires
        x.is_primitive(),
        c.raw <= b.raw,
    ensures
        x.spec_hit(ray, a, b) matches Some(r) ==> in_window(r.t, a, b) && (x.open_ended()
            ==> inside_window(r.t, a, b)),
        x.spec_hit(ray, a, c) == cut(x.spec_hit(ray, a, b), c, x.open_ended()),
{
    reveal(Sphere::spec_hit);
    reveal(AnimatedSphere::spec_hit);
    reveal(AARect::spec_hit);
    lemma_sphere_roots_ordered(x.sphere_center(ray), x.sphere_radius(), ray);
}

/// A box that the ray is inside at every hit on the object hides no hit
/// that counts: of a sphere over any window, of a rectangle over any window
/// that is not empty.
pub proof fn lemma_surrounding_box_catches(x: Rc<Hittable>, ray: Ray, a: Fixed, b: Fixed)
    requires
        x.is_primitive(),
        x.box_surrounds_hits(ray),
        x.open_ended() || a.raw < b.raw,
    ensures
        x.box_catches(ray, a, b),
{
    assert forall|c: Fixed| c.raw <= b.raw implies ((#[trigger] x.spec_hit(ray, a, c)) matches Some(
        h,
    ) ==> ((c == b || h.t.raw < c.raw) ==> (x.spec_bounding_box() matches Some(bx) && bx.spec_hit(
        ray,
        a,
        c,
    )))) by {
        lemma_primitive_window(x, ray, a, c, c);
    }
}

/// The search through a list of spheres and rectangles holds a nearest hit
/// among the objects it has passed.
pub proof fn lemma_list_prefix_nearest(list: HittableList, n: nat, ray: Ray, a: Fixed, b: Fixed)
    requires
        n <= list.objects@.len(),
        all_primitive(list.objects@),
    ensures
        nearest_among(list.objects@, n, ray, a, b, list.spec_hit_prefix(n, ray, a, b)),
        list.spec_hit_prefix(n, ray, a, b) matches Some(r) ==> in_window(r.t, a, b),
    decreases n,
{
    let objects = list.objects@;
    if n > 0 {
        let m = (n - 1) as nat;
        lemma_list_prefix_nearest(list, m, ray, a, b);
        let before = list.spec_hit_prefix(m, ray, a, b);
        let closest = match before {
            Some(h) => h.t,
            None => b,
        };
        let x = objects[n - 1];
        assert(x.is_primitive());
        lemma_primitive_window(x, ray, a, b, closest);
        let full = x.spec_hit(ray, a, b);
        let cur = x.spec_hit(ray, a, closest);
        let after = list.spec_hit_prefix(n, ray, a, b);
        match cur {
            Some(h) => {
                assert(after == Some(h));
                assert(objects[n - 1].spec_hit(ray, a, b) == Some(h));
                assert forall|i: int| 0 <= i < n implies ((#[trigger] objects[i]).spec_hit(
                    ray,
                    a,
                    b,
                ) matches Some(o) ==> h.t.raw <= o.t.raw) by {
                    if i < m {
                        if before is None {
                            assert(objects[i].spec_hit(ray, a, b) is None);
                        }
                    }
                }
            },
            None => {
                assert(after == before);
                match before {
                    None => {
                        assert forall|i: int| 0 <= i < n implies (#[trigger] objects[i]).spec_hit(
                            ray,
                            a,
                            b,
                        ) is None by {
                            if i == m {
                                assert(full is None);
                            }
                        }
                    },
                    Some(r) => {
                        let w = choose|i: int|
                            0 <= i < m && (#[trigger] objects[i]).spec_hit(ray, a, b) == Some(r);
                        assert(0 <= w < n && objects[w].spec_hit(ray, a, b) == Some(r));
                        assert forall|i: int| 0 <= i < n implies ((#[trigger] objects[i]).spec_hit(
                            ray,
                            a,
                            b,
                        ) matches Some(o) ==> r.t.raw <= o.t.raw) by {
                            if i == m {
                            }
                        }
                    },
                }
            },
        }
    }
}

/// A ray that passes through the box of a leaf passes through the box of
/// the hierarchy.
pub proof fn lemma_tree_box_encloses(node: BVH, n: nat, ray: Ray, a: Fixed, b: Fixed, i: int)
    requires
        node.well_formed(n),
        0 <= i < node.leaves(n).len(),
        node.leaves(n)[i].spec_bounding_box() matches Some(bx) && bx.spec_hit(ray, a, b),
    ensures
        node.bounding_box.spec_hit(ray, a, b),
    decreases n,
{
    let lb = node.left.spec_bounding_box()->0;
    let rb = node.right.spec_bounding_box()->0;
    if n <= 2 {
        if i == 0 {
            lemma_merge_keeps_hit(lb, rb, ray, a, b);
        } else {
            lemma_merge_keeps_hit(rb, lb, ray, a, b);
        }
    } else {
        let l = node.left_node();
        let r = node.right_node();
        let ll = l.leaves(n / 2);
        let rl = r.leaves((n - n / 2) as nat);
        assert(node.leaves(n) == ll + rl);
        if i < ll.len() {
            assert((ll + rl)[i] == ll[i]);
            lemma_tree_box_encloses(l, n / 2, ray, a, b, i);
            lemma_merge_keeps_hit(lb, rb, ray, a, b);
        } else {
            assert((ll + rl)[i] == rl[i - ll.len()]);
            lemma_tree_box_encloses(r, (n - n / 2) as nat, ray, a, b, i - ll.len());
            lemma_merge_keeps_hit(rb, lb, ray, a, b);
        }
    }
}

/// A hierarchy over spheres and rectangles draws no random numbers.
pub proof fn lemma_tree_deterministic(node: BVH, n: nat)
    requires
        node.well_formed(n),
        all_primitive(node.leaves(n)),
    ensures
        node.deterministic(),
    decreases n,
{
    if n <= 2 {
        assert(node.leaves(n)[0] == node.left);
        assert(node.leaves(n)[1] == node.right);
        assert(node.left.is_primitive());
        assert(node.right.is_primitive());
    } else {
        let l = node.left_node();
        let r = node.right_node();
        lemma_subtrees_inherit(node, n);
        lemma_tree_deterministic(l, n / 2);
        lemma_tree_deterministic(r, (n - n / 2) as nat);
    }
}

/// The leaves of both children of an inner node are leaves of the node.
pub proof fn lemma_subtrees_inherit(node: BVH, n: nat)
    requires
        node.well_formed(n),
        n > 2,
    ensures
        all_primitive(node.leaves(n)) ==> all_primitive(node.left_node().leaves(n / 2))
            && all_primitive(node.right_node().leaves((n - n / 2) as nat)),
        forall|ray: Ray, a: Fixed, b: Fixed| #[trigger]
            all_boxes_catch(node.leaves(n), ray, a, b) ==> all_boxes_catch(
                node.left_node().leaves(n / 2),
                ray,
                a,
                b,
            ) && all_boxes_catch(node.right_node().leaves((n - n / 2) as nat), ray, a, b),
{
    let l = node.left_node();
    let r = node.right_node();
    let ll = l.leaves(n / 2);
    let rl = r.leaves((n - n / 2) as nat);
    let all = node.leaves(n);
    assert(all == ll + rl);
    if all_primitive(all) {
        assert forall|i: int| 0 <= i < ll.len() implies (#[trigger] ll[i]).is_primitive() by {
            assert(all[i] == ll[i]);
        }
        assert forall|i: int| 0 <= i < rl.len() implies (#[trigger] rl[i]).is_primitive() by {
            assert(all[ll.len() + i] == rl[i]);
        }
    }
    assert forall|ray: Ray, a: Fixed, b: Fixed| #[trigger]
        all_boxes_catch(all, ray, a, b) implies all_boxes_catch(ll, ray, a, b) && all_boxes_catch(
        rl,
        ray,
        a,
        b,
    ) by {
        assert forall|i: int| 0 <= i < ll.len() implies (#[trigger] ll[i]).box_catches(
            ray,
            a,
            b,
        ) by {
            assert(all[i] == ll[i]);
        }
        assert forall|i: int| 0 <= i < rl.len() implies (#[trigger] rl[i]).box_catches(
            ray,
            a,
            b,
        ) by {
            assert(all[ll.len() + i] == rl[i]);
        }
    }
}

/// A single sphere or rectangle is its own nearest hit.
pub proof fn lemma_single_nearest(x: Rc<Hittable>, ray: Ray, a: Fixed, c: Fixed, b: Fixed)
    requires
        x.is_primitive(),
    ensures
        nearest_up_to(seq![x], 1, ray, a, c, b, x.spec_hit(ray, a, c)),
        x.spec_hit(ray, a, c) matches Some(r) ==> in_window(r.t, a, c),
{
    lemma_primitive_window(x, ray, a, c, c);
    let one = seq![x];
    assert(one[0] == x);
    if x.spec_hit(ray, a, c) is Some {
        assert(one[0].spec_hit(ray, a, c) == x.spec_hit(ray, a, c));
    }
}

/// A nearest hit among a first group of objects, and a nearest hit among a
/// second group of spheres and rectangles in what the first has left of the
/// window, together give a nearest hit among all of them.
pub proof fn lemma_join_nearest(
    ll: Seq<Rc<Hittable>>,
    rl: Seq<Rc<Hittable>>,
    ray: Ray,
    a: Fixed,
    c: Fixed,
    b: Fixed,
    left_hit: Option<HitRecord>,
    right_hit: Option<HitRecord>,
)
    requires
        all_primitive(rl),
        nearest_up_to(ll, ll.len(), ray, a, c, b, left_hit),
        left_hit matches Some(l) ==> in_window(l.t, a, c),
        nearest_up_to(rl, rl.len(), ray, a, rest_of_window(left_hit, c), b, right_hit),
    ensures
        nearest_up_to(ll + rl, (ll + rl).len(), ray, a, c, b, later_wins(left_hit, right_hit)),
{
    let all = ll + rl;
    let rest = rest_of_window(left_hit, c);
    assert forall|i: int| 0 <= i < ll.len() implies #[trigger] all[i] == ll[i] by {}
    assert forall|j: int| 0 <= j < rl.len() implies #[trigger] all[ll.len() + j] == rl[j] by {}
    assert forall|j: int| 0 <= j < rl.len() implies (#[trigger] rl[j]).spec_hit(ray, a, rest)
        == cut(rl[j].spec_hit(ray, a, c), rest, rl[j].open_ended()) && (rl[j].spec_hit(ray, a, c) matches Some(o)
        ==> in_window(o.t, a, c)) by {
        assert(rl[j].is_primitive());
        lemma_primitive_window(rl[j], ray, a, c, rest);
    }
    match right_hit {
        Some(r) => {
            let wr = choose|j: int|
                0 <= j < rl.len() && (#[trigger] rl[j]).spec_hit(ray, a, rest) == Some(r);
            assert(rl[wr].spec_hit(ray, a, c) == Some(r));
            assert(all[ll.len() + wr] == rl[wr]);
            assert(all[ll.len() + wr].spec_hit(ray, a, c) == Some(r));
            assert(r.t.raw <= rest.raw);
            assert forall|i: int| 0 <= i < all.len() implies ((#[trigger] all[i]).spec_hit(
                ray,
                a,
                c,
            ) matches Some(o) ==> r.t.raw <= o.t.raw) by {
                if i < ll.len() {
                    assert(all[i] == ll[i]);
                } else {
                    let j = i - ll.len();
                    assert(all[ll.len() + j] == rl[j]);
                    assert(rl[j].spec_hit(ray, a, rest) == cut(rl[j].spec_hit(ray, a, c), rest, rl[j].open_ended()));
                }
            }
        },
        None => {
            match left_hit {
                Some(l) => {
                    let wl = choose|i: int|
                        0 <= i < ll.len() && (#[trigger] ll[i]).spec_hit(ray, a, c) == Some(l);
                    assert(all[wl] == ll[wl]);
                    assert(all[wl].spec_hit(ray, a, c) == Some(l));
                    assert forall|i: int| 0 <= i < all.len() implies ((#[trigger] all[i]).spec_hit(
                        ray,
                        a,
                        c,
                    ) matches Some(o) ==> l.t.raw <= o.t.raw) by {
                        if i < ll.len() {
                            assert(all[i] == ll[i]);
                        } else {
                            let j = i - ll.len();
                            assert(all[ll.len() + j] == rl[j]);
                            assert(rl[j].spec_hit(ray, a, rest) == cut(rl[j].spec_hit(ray, a, c), rest, rl[j].open_ended()));
                        }
                    }
                },
                None => {
                    assert forall|i: int| 0 <= i < all.len() implies ((#[trigger] all[i]).spec_hit(
                        ray,
                        a,
                        c,
                    ) matches Some(o) ==> c != b && o.t == c) by {
                        if i < ll.len() {
                            assert(all[i] == ll[i]);
                        } else {
                            let j = i - ll.len();
                            assert(all[ll.len() + j] == rl[j]);
                        }
                    }
                },
            }
        },
    }
}

/// Where a ray misses the box of a hierarchy whose boxes hide no hit that
/// counts, it hits none of the leaves but at the end of a shortened window.
pub proof fn lemma_tree_miss(node: BVH, n: nat, ray: Ray, a: Fixed, c: Fixed, b: Fixed)
    requires
        node.well_formed(n),
        all_primitive(node.leaves(n)),
        all_boxes_catch(node.leaves(n), ray, a, b),
        c.raw <= b.raw,
        !node.bounding_box.spec_hit(ray, a, c),
    ensures
        nearest_up_to(node.leaves(n), node.leaves(n).len(), ray, a, c, b, None),
{
    let leaves = node.leaves(n);
    assert forall|i: int| 0 <= i < leaves.len() implies ((#[trigger] leaves[i]).spec_hit(
        ray,
        a,
        c,
    ) matches Some(o) ==> c != b && o.t == c) by {
        if let Some(o) = leaves[i].spec_hit(ray, a, c) {
            assert(leaves[i].is_primitive());
            lemma_primitive_window(leaves[i], ray, a, c, c);
            assert(leaves[i].box_catches(ray, a, b));
            if c == b || o.t.raw < c.raw {
                lemma_tree_box_encloses(node, n, ray, a, c, i);
            }
        }
    }
}

/// A hierarchy over spheres and rectangles whose boxes hide no hit that
/// counts returns a nearest hit among its leaves, over the window that a
/// search up to `b` asks it for.
pub proof fn lemma_tree_nearest(node: BVH, n: nat, ray: Ray, a: Fixed, c: Fixed, b: Fixed)
    requires
        node.well_formed(n),
        all_primitive(node.leaves(n)),
        all_boxes_catch(node.leaves(n), ray, a, b),
        c.raw <= b.raw,
    ensures
        nearest_up_to(
            node.leaves(n),
            node.leaves(n).len(),
            ray,
            a,
            c,
            b,
            node.spec_hit(ray, a, c),
        ),
        node.spec_hit(ray, a, c) matches Some(r) ==> in_window(r.t, a, c),
    decreases n,
{
    let left_hit = node.left.spec_hit(ray, a, c);
    let rest = rest_of_window(left_hit, c);
    let right_hit = node.right.spec_hit(ray, a, rest);
    if !node.bounding_box.spec_hit(ray, a, c) {
        lemma_tree_miss(node, n, ray, a, c, b);
    } else if n <= 2 {
        let leaves = node.leaves(n);
        assert(leaves[0] == node.left);
        assert(leaves[1] == node.right);
        assert(leaves[0].is_primitive());
        assert(leaves[1].is_primitive());
        lemma_single_nearest(node.left, ray, a, c, b);
        lemma_primitive_window(node.right, ray, a, c, rest);
        lemma_single_nearest(node.right, ray, a, rest, b);
        assert(all_primitive(seq![node.right])) by {
            assert(seq![node.right][0] == node.right);
        }
        lemma_join_nearest(seq![node.left], seq![node.right], ray, a, c, b, left_hit, right_hit);
        assert(leaves =~= seq![node.left] + seq![node.right]);
        assert(node.spec_hit(ray, a, c) == later_wins(left_hit, right_hit));
    } else {
        let lt = node.left_node();
        let rt = node.right_node();
        let nl = n / 2;
        let nr = (n - n / 2) as nat;
        lemma_subtrees_inherit(node, n);
        assert(all_boxes_catch(lt.leaves(nl), ray, a, b) && all_boxes_catch(
            rt.leaves(nr),
            ray,
            a,
            b,
        ));
        lemma_tree_nearest(lt, nl, ray, a, c, b);
        assert(left_hit == lt.spec_hit(ray, a, c));
        lemma_tree_nearest(rt, nr, ray, a, rest, b);
        assert(right_hit == rt.spec_hit(ray, a, rest));
        lemma_join_nearest(lt.leaves(nl), rt.leaves(nr), ray, a, c, b, left_hit, right_hit);
        assert(node.spec_hit(ray, a, c) == later_wins(left_hit, right_hit));
    }
}

/// Two nearest hits among the same objects lie at the same parameter, and
/// are the same hit where no two objects tie.
pub proof fn lemma_nearest_unique(
    first: Seq<Rc<Hittable>>,
    second: Seq<Rc<Hittable>>,
    ray: Ray,
    a: Fixed,
    b: Fixed,
    h1: Option<HitRecord>,
    h2: Option<HitRecord>,
)
    requires
        forall|x: Rc<Hittable>| first.contains(x) <==> second.contains(x),
        nearest_among(first, first.len(), ray, a, b, h1),
        nearest_among(second, second.len(), ray, a, b, h2),
    ensures
        h1 is None <==> h2 is None,
        h1 is Some && h2 is Some ==> h1->0.t == h2->0.t,
        no_ties(second, ray, a, b) ==> h1 == h2,
{
    if h1 is Some {
        let r1 = h1->0;
        let i = choose|i: int|
            0 <= i < first.len() && (#[trigger] first[i]).spec_hit(ray, a, b) == Some(r1);
        assert(first.contains(first[i]));
        assert(second.contains(first[i]));
        let j = choose|j: int| 0 <= j < second.len() && second[j] == first[i];
        assert(second[j].spec_hit(ray, a, b) == Some(r1));
        assert(h2 is Some);
    }
    if h2 is Some {
        let r2 = h2->0;
        let j = choose|j: int|
            0 <= j < second.len() && (#[trigger] second[j]).spec_hit(ray, a, b) == Some(r2);
        assert(second.contains(second[j]));
        assert(first.contains(second[j]));
        let i = choose|i: int| 0 <= i < first.len() && first[i] == second[j];
        assert(first[i].spec_hit(ray, a, b) == Some(r2));
        assert(h1 is Some);
    }
    if h1 is Some && h2 is Some {
        let r1 = h1->0;
        let r2 = h2->0;
        let i = choose|i: int|
            0 <= i < first.len() && (#[trigger] first[i]).spec_hit(ray, a, b) == Some(r1);
        assert(first.contains(first[i]));
        let j = choose|j: int| 0 <= j < second.len() && second[j] == first[i];
        assert(second[j].spec_hit(ray, a, b) == Some(r1));
        let k = choose|k: int|
            0 <= k < second.len() && (#[trigger] second[k]).spec_hit(ray, a, b) == Some(r2);
        assert(r2.t.raw <= r1.t.raw);
        assert(second.contains(second[k]));
        let m = choose|m: int| 0 <= m < first.len() && first[m] == second[k];
        assert(first[m].spec_hit(ray, a, b) == Some(r2));
        assert(r1.t.raw <= r2.t.raw);
        if no_ties(second, ray, a, b) {
            assert(second[j].spec_hit(ray, a, b) == second[k].spec_hit(ray, a, b));
        }
    }
}

/// A hierarchy answers as the list that it was built from.  For spheres and
/// rectangles whose boxes hide no hit of the ray that counts, the hierarchy
/// finds a hit exactly where a search through the list does, and at the same
/// parameter; where no two objects tie, both find the same hit.
pub proof fn lemma_bvh_agrees_with_list(
    tree: BVH,
    list: HittableList,
    ray: Ray,
    t_min: Fixed,
    t_max: Fixed,
)
    requires
        tree.spans(list.objects@),
        all_primitive(list.objects@),
        all_boxes_catch(list.objects@, ray, t_min, t_max),
    ensures
        tree.deterministic(),
        list.deterministic(),
        tree.spec_hit(ray, t_min, t_max) is None <==> list.spec_hit(ray, t_min, t_max) is None,
        tree.spec_hit(ray, t_min, t_max) matches Some(found) ==> list.spec_hit(ray, t_min, t_max)
            matches Some(scanned) && found.t == scanned.t,
        no_ties(list.objects@, ray, t_min, t_max) ==> tree.spec_hit(ray, t_min, t_max)
            == list.spec_hit(ray, t_min, t_max),
{
    let objects = list.objects@;
    let n = objects.len();
    let leaves = tree.leaves(n);
    assert forall|i: int| 0 <= i < leaves.len() implies (#[trigger] leaves[i]).is_primitive()
        && leaves[i].box_catches(ray, t_min, t_max) by {
        assert(leaves.contains(leaves[i]));
        assert(objects.contains(leaves[i]));
        let k = choose|k: int| 0 <= k < objects.len() && objects[k] == leaves[i];
        assert(objects[k].is_primitive());
        assert(objects[k].box_catches(ray, t_min, t_max));
    }
    lemma_tree_deterministic(tree, n);
    assert forall|i: int| 0 <= i < objects.len() implies (#[trigger] objects[i]).deterministic() by {
        assert(objects[i].is_primitive());
    }
    lemma_tree_nearest(tree, n, ray, t_min, t_max, t_max);
    assert(nearest_among(leaves, leaves.len(), ray, t_min, t_max, tree.spec_hit(ray, t_min, t_max)));
    lemma_list_prefix_nearest(list, n, ray, t_min, t_max);
    lemma_nearest_unique(
        leaves,
        objects,
        ray,
        t_min,
        t_max,
        tree.spec_hit(ray, t_min, t_max),
        list.spec_hit(ray, t_min, t_max),
    );
}

/// The box `bx` hides no hit of `ray` on an object of `group` that counts
/// in a search over the window from `t_min` to `t_max`.
pub open spec fn box_passes(
    bx: AABB,
    group: Seq<Rc<Hittable>>,
    ray: Ray,
    t_min: Fixed,
    t_max: Fixed,
) -> bool {
    forall|i: int, c: Fixed|
        0 <= i < group.len() && c.raw <= t_max.raw ==> ((#[trigger] group[i].spec_hit(
            ray,
            t_min,
            c,
        )) matches Some(h) ==> ((c == t_max || h.t.raw < c.raw) ==> bx.spec_hit(ray, t_min, c)))
}

impl Hittable {
    /// The spheres, moving spheres and rectangles that the object is made
    /// of, in the order in which a search meets them.  A medium counts for
    /// none.
    pub open spec fn primitives(&self) -> Seq<Rc<Hittable>>
        decreases self, 0nat,
    {
        match *self {
            Hittable::HittableList(l) => l.primitives_of_first(l.objects@.len()),
            Hittable::AABox(b) => b.sides.primitives_of_first(b.sides.objects@.len()),
            Hittable::BVH(n) => n.primitives(),
            Hittable::ConstantMedium(_) => Seq::empty(),
            _ => seq![Rc::new(*self)],
        }
    }

    /// No hierarchy inside the object has a box that hides a hit of `ray`
    /// that counts in a search over the window from `t_min` to `t_max`.  An
    /// object that holds no hierarchy passes.
    pub open spec fn boxes_pass(&self, ray: Ray, t_min: Fixed, t_max: Fixed) -> bool
        decreases self, 0nat,
    {
        match *self {
            Hittable::HittableList(l) => l.boxes_pass(ray, t_min, t_max),
            Hittable::AABox(b) => b.sides.boxes_pass(ray, t_min, t_max),
            Hittable::BVH(n) => n.boxes_pass(ray, t_min, t_max),
            _ => true,
        }
    }

    /// An object that draws no random numbers, and in which no box hides a
    /// hit that counts, returns a nearest hit among the spheres and
    /// rectangles that it is made of.
    pub proof fn lemma_nearest_primitive(&self, ray: Ray, a: Fixed, c: Fixed, b: Fixed)
        requires
            self.deterministic(),
            self.boxes_pass(ray, a, b),
            c.raw <= b.raw,
        ensures
            all_primitive(self.primitives()),
            nearest_up_to(
                self.primitives(),
                self.primitives().len(),
                ray,
                a,
                c,
                b,
                self.spec_hit(ray, a, c),
            ),
            self.spec_hit(ray, a, c) matches Some(r) ==> in_window(r.t, a, c),
        decreases self, 0nat,
    {
        match self {
            Hittable::HittableList(l) => {
                l.lemma_nearest_primitive_of_first(l.objects@.len(), ray, a, c, b);
            },
            Hittable::AABox(bx) => {
                assert(bx.deterministic());
                assert(bx.sides.deterministic());
                assert(bx.sides.boxes_pass(ray, a, b));
                bx.sides.lemma_nearest_primitive_of_first(bx.sides.objects@.len(), ray, a, c, b);
                assert(bx.sides.spec_hit(ray, a, c) == bx.sides.spec_hit_prefix(
                    bx.sides.objects@.len(),
                    ray,
                    a,
                    c,
                ));
                assert(bx.spec_hit(ray, a, c) == bx.sides.spec_hit(ray, a, c));
            },
            Hittable::BVH(n) => {
                n.lemma_nearest_primitive(ray, a, c, b);
            },
            Hittable::ConstantMedium(_) => {},
            _ => {
                let group = self.primitives();
                let x = group[0];
                assert(group =~= seq![x]);
                assert(x.is_primitive());
                lemma_single_nearest(x, ray, a, c, b);
                assert(x.spec_hit(ray, a, c) == self.spec_hit(ray, a, c));
            },
        }
    }
}

impl HittableList {
    /// The spheres, moving spheres and rectangles that the first `n`
    /// objects are made of.
    pub open spec fn primitives_of_first(self, n: nat) -> Seq<Rc<Hittable>>
        decreases self, n,
    {
        if n == 0 || n > self.objects@.len() {
            Seq::empty()
        } else {
            self.primitives_of_first((n - 1) as nat) + self.objects@[n - 1].primitives()
        }
    }

    /// Every object of the list passes [`Hittable::boxes_pass`].
    pub open spec fn boxes_pass(self, ray: Ray, t_min: Fixed, t_max: Fixed) -> bool
        decreases self, 0nat,
    {
        forall|i: int|
            0 <= i < self.objects@.len() ==> (#[trigger] self.objects@[i]).boxes_pass(
                ray,
                t_min,
                t_max,
            )
    }

    /// The search through a list of any objects that draw no random numbers
    /// holds, after the first `n` of them, a nearest hit among the spheres
    /// and rectangles that they are made of.
    pub proof fn lemma_nearest_primitive_of_first(
        &self,
        n: nat,
        ray: Ray,
        a: Fixed,
        c: Fixed,
        b: Fixed,
    )
        requires
            self.deterministic(),
            self.boxes_pass(ray, a, b),
            n <= self.objects@.len(),
            c.raw <= b.raw,
        ensures
            all_primitive(self.primitives_of_first(n)),
            nearest_up_to(
                self.primitives_of_first(n),
                self.primitives_of_first(n).len(),
                ray,
                a,
                c,
                b,
                self.spec_hit_prefix(n, ray, a, c),
            ),
            self.spec_hit_prefix(n, ray, a, c) matches Some(r) ==> in_window(r.t, a, c),
        decreases self, n,
    {
        if n > 0 {
            let m = (n - 1) as nat;
            self.lemma_nearest_primitive_of_first(m, ray, a, c, b);
            let before = self.spec_hit_prefix(m, ray, a, c);
            let rest = rest_of_window(before, c);
            assert(decreases_to!(self => self.objects));
            assert(decreases_to!(self.objects => self.objects@));
            assert(decreases_to!(self.objects@ => self.objects@[n - 1]));
            assert(self.objects@[n - 1].deterministic());
            assert(self.objects@[n - 1].boxes_pass(ray, a, b));
            self.objects@[n - 1].lemma_nearest_primitive(ray, a, rest, b);
            let new = self.objects@[n - 1].spec_hit(ray, a, rest);
            let ll = self.primitives_of_first(m);
            let rl = self.objects@[n - 1].primitives();
            lemma_join_nearest(ll, rl, ray, a, c, b, before, new);
            lemma_joined_primitive(ll, rl);
        }
    }
}

impl BVH {
    /// The spheres, moving spheres and rectangles below the node, those
    /// below the left child first.
    pub open spec fn primitives(self) -> Seq<Rc<Hittable>>
        decreases self, 0nat,
    {
        self.left.primitives() + self.right.primitives()
    }

    /// The box of the node hides no hit that counts on a sphere or
    /// rectangle below it, and both children pass
    /// [`Hittable::boxes_pass`].
    pub open spec fn boxes_pass(self, ray: Ray, t_min: Fixed, t_max: Fixed) -> bool
        decreases self, 0nat,
    {
        &&& self.left.boxes_pass(ray, t_min, t_max)
        &&& self.right.boxes_pass(ray, t_min, t_max)
        &&& box_passes(self.bounding_box, self.primitives(), ray, t_min, t_max)
    }

    /// A node over any objects that draw no random numbers, whose boxes
    /// hide no hit that counts, returns a nearest hit among the spheres and
    /// rectangles below it.
    pub proof fn lemma_nearest_primitive(&self, ray: Ray, a: Fixed, c: Fixed, b: Fixed)
        requires
            self.deterministic(),
            self.boxes_pass(ray, a, b),
            c.raw <= b.raw,
        ensures
            all_primitive(self.primitives()),
            nearest_up_to(
                self.primitives(),
                self.primitives().len(),
                ray,
                a,
                c,
                b,
                self.spec_hit(ray, a, c),
            ),
            self.spec_hit(ray, a, c) matches Some(r) ==> in_window(r.t, a, c),
        decreases self, 0nat,
    {
        self.left.lemma_nearest_primitive(ray, a, c, b);
        let left_hit = self.left.spec_hit(ray, a, c);
        let rest = rest_of_window(left_hit, c);
        self.right.lemma_nearest_primitive(ray, a, rest, b);
        let right_hit = self.right.spec_hit(ray, a, rest);
        let ll = self.left.primitives();
        let rl = self.right.primitives();
        let all = self.primitives();
        lemma_joined_primitive(ll, rl);
        if !self.bounding_box.spec_hit(ray, a, c) {
            assert forall|i: int| 0 <= i < all.len() implies ((#[trigger] all[i]).spec_hit(
                ray,
                a,
                c,
            ) matches Some(o) ==> c != b && o.t == c) by {
                if all[i].spec_hit(ray, a, c) is Some {
                    assert(all[i].is_primitive());
                    lemma_primitive_window(all[i], ray, a, c, c);
                }
            }
        } else {
            lemma_join_nearest(ll, rl, ray, a, c, b, left_hit, right_hit);
        }
    }
}

/// Two groups of spheres and rectangles, one after the other, are a group
/// of spheres and rectangles.
pub proof fn lemma_joined_primitive(ll: Seq<Rc<Hittable>>, rl: Seq<Rc<Hittable>>)
    requires
        all_primitive(ll),
        all_primitive(rl),
    ensures
        all_primitive(ll + rl),
{
    let all = ll + rl;
    assert forall|i: int| 0 <= i < all.len() implies (#[trigger] all[i]).is_primitive() by {
        if i < ll.len() {
            assert(all[i] == ll[i]);
        } else {
            assert(all[i] == rl[i - ll.len()]);
        }
    }
}

/// A list of any objects that draw no random numbers returns the nearest
/// hit across the whole collection: a hit on one of the spheres and
/// rectangles that its objects are made of, with none of them hit at a
/// smaller parameter, and no hit where none of them is hit.  Where an object
/// of the list holds a hierarchy, this holds as far as no box of it hides a
/// hit that counts.
pub proof fn lemma_list_nearest(list: HittableList, ray: Ray, t_min: Fixed, t_max: Fixed)
    requires
        list.deterministic(),
        list.boxes_pass(ray, t_min, t_max),
    ensures
        nearest_among(
            list.primitives_of_first(list.objects@.len()),
            list.primitives_of_first(list.objects@.len()).len(),
            ray,
            t_min,
            t_max,
            list.spec_hit(ray, t_min, t_max),
        ),
        list.spec_hit(ray, t_min, t_max) matches Some(r) ==> in_window(r.t, t_min, t_max),
{
    list.lemma_nearest_primitive_of_first(list.objects@.len(), ray, t_min, t_max, t_max);
}

impl Hittable {
    /// The object holds no hierarchy and no medium: it is a sphere, a moving
    /// sphere, a rectangle, or a box or list of such objects.
    pub open spec fn plain(&self) -> bool
        decreases self, 0nat,
    {
        match *self {
            Hittable::HittableList(l) => l.plain(),
            Hittable::AABox(b) => b.sides.plain(),
            Hittable::BVH(_) => false,
            Hittable::ConstantMedium(_) => false,
            _ => true,
        }
    }

    /// An object that holds no hierarchy and no medium draws no random
    /// numbers and has no box that could hide a hit.
    pub proof fn lemma_plain_passes(&self, ray: Ray, a: Fixed, b: Fixed)
        requires
            self.plain(),
        ensures
            self.deterministic(),
            self.boxes_pass(ray, a, b),
        decreases self, 0nat,
    {
        match self {
            Hittable::HittableList(l) => {
                l.lemma_plain_passes(ray, a, b);
            },
            Hittable::AABox(bx) => {
                bx.sides.lemma_plain_passes(ray, a, b);
                assert(bx.deterministic());
            },
            _ => {},
        }
    }
}

impl HittableList {
    /// Every object of the list is [`Hittable::plain`].
    pub open spec fn plain(self) -> bool
        decreases self, 0nat,
    {
        forall|i: int| 0 <= i < self.objects@.len() ==> (#[trigger] self.objects@[i]).plain()
    }

    /// A list of objects that hold no hierarchy and no medium draws no
    /// random numbers and has no box that could hide a hit.
    pub proof fn lemma_plain_passes(&self, ray: Ray, a: Fixed, b: Fixed)
        requires
            self.plain(),
        ensures
            self.deterministic(),
            self.boxes_pass(ray, a, b),
        decreases self, 0nat,
    {
        assert forall|i: int| 0 <= i < self.objects@.len() implies (
        #[trigger] self.objects@[i]).deterministic() && self.objects@[i].boxes_pass(ray, a, b) by {
            assert(self.objects@[i].plain());
            assert(decreases_to!(self => self.objects));
            assert(decreases_to!(self.objects => self.objects@));
            assert(decreases_to!(self.objects@ => self.objects@[i]));
            self.objects@[i].lemma_plain_passes(ray, a, b);
        }
    }
}

/// A list of spheres, rectangles, boxes and lists of such objects returns
/// the nearest hit across the whole collection, for every ray and window.
pub proof fn lemma_plain_list_nearest(list: HittableList, ray: Ray, t_min: Fixed, t_max: Fixed)
    requires
        list.plain(),
    ensures
        nearest_among(
            list.primitives_of_first(list.objects@.len()),
            list.primitives_of_first(list.objects@.len()).len(),
            ray,
            t_min,
            t_max,
            list.spec_hit(ray, t_min, t_max),
        ),
        list.spec_hit(ray, t_min, t_max) matches Some(r) ==> in_window(r.t, t_min, t_max),
{
    list.lemma_plain_passes(ray, t_min, t_max);
    lemma_list_nearest(list, ray, t_min, t_max);
}

/// A hierarchy that was built over spheres and rectangles whose boxes hide
/// no hit that counts passes [`Hittable::boxes_pass`], and is made of its
/// leaves.
pub proof fn lemma_built_tree_passes(node: BVH, n: nat, ray: Ray, a: Fixed, b: Fixed)
    requires
        node.well_formed(n),
        all_primitive(node.leaves(n)),
        all_boxes_catch(node.leaves(n), ray, a, b),
    ensures
        node.primitives() == node.leaves(n),
        node.boxes_pass(ray, a, b),
        node.deterministic(),
    decreases n,
{
    let leaves = node.leaves(n);
    lemma_tree_deterministic(node, n);
    if n <= 2 {
        assert(leaves[0] == node.left);
        assert(leaves[1] == node.right);
        assert(leaves[0].is_primitive());
        assert(leaves[1].is_primitive());
        assert(node.left.primitives() =~= seq![node.left]);
        assert(node.right.primitives() =~= seq![node.right]);
        assert(node.primitives() =~= leaves);
    } else {
        let l = node.left_node();
        let r = node.right_node();
        lemma_subtrees_inherit(node, n);
        assert(all_boxes_catch(l.leaves(n / 2), ray, a, b) && all_boxes_catch(
            r.leaves((n - n / 2) as nat),
            ray,
            a,
            b,
        ));
        lemma_built_tree_passes(l, n / 2, ray, a, b);
        lemma_built_tree_passes(r, (n - n / 2) as nat, ray, a, b);
        assert(node.left.primitives() == l.primitives());
        assert(node.right.primitives() == r.primitives());
        assert(node.left.boxes_pass(ray, a, b));
        assert(node.right.boxes_pass(ray, a, b));
    }
    assert forall|i: int, c: Fixed| 0 <= i < leaves.len() && c.raw <= b.raw implies ((
    #[trigger] leaves[i].spec_hit(ray, a, c)) matches Some(h) ==> ((c == b || h.t.raw < c.raw)
        ==> node.bounding_box.spec_hit(ray, a, c))) by {
        if let Some(h) = leaves[i].spec_hit(ray, a, c) {
            if c == b || h.t.raw < c.raw {
                assert(leaves[i].box_catches(ray, a, b));
                lemma_tree_box_encloses(node, n, ray, a, c, i);
            }
        }
    }
}

} // verus!
