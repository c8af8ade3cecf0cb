//! Bounding-volume hierarchy: a binary tree built once over a collection by
//! recursive partition along the widest axis, sorted by the low edge of each
//! object's box.  Traversal prunes by the exact slab test and shrinks the
//! range after a left-subtree hit, so it returns the same nearest hit as a
//! linear scan over the tree's leaves; that equivalence is proved below.
use vstd::prelude::*;
use crate::aabb::{Aabb, box_contains, box_inside, box_bounded, slab_hit, point_in_box_at, axis_ok};
use crate::hit::{HitRecord, ray_wf};
use crate::interval::INF;
use crate::object::{Object, BvhNode, HittableList, obj_wf, bbox_of, hit_spec, list_hit_from, lemma_hit_in_box, lemma_wf_list_index};
use crate::ray::Ray;
use crate::vec3::RAY_MAX;
use vstd::multiset::Multiset;

verus! {

/// The leaves of a hierarchy, in traversal order; any other object is its
/// own single leaf.
pub open spec fn leaves(o: Object) -> Seq<Object>
    decreases o,
{
    match o {
        Object::Node(n) => leaves(*n.left) + leaves(*n.right),
        _ => seq![o],
    }
}

/// Every leaf of a well-formed object is well formed and its box lies inside
/// the object's box.
pub proof fn lemma_leaves_wf(o: Object)
    requires
        obj_wf(o),
    ensures
        leaves(o).len() >= 1,
        forall|j: int|
            0 <= j < leaves(o).len() ==> obj_wf(#[trigger] leaves(o)[j]) && box_inside(
                bbox_of(leaves(o)[j]),
                bbox_of(o),
            ),
    decreases o,
{
    match o {
        Object::Node(n) => {
            lemma_leaves_wf(*n.left);
            lemma_leaves_wf(*n.right);
            let ll = leaves(*n.left);
            let lr = leaves(*n.right);
            assert forall|j: int|
                0 <= j < leaves(o).len() implies obj_wf(#[trigger] leaves(o)[j]) && box_inside(
                bbox_of(leaves(o)[j]),
                bbox_of(o),
            ) by {
                if j < ll.len() {
                    assert(leaves(o)[j] == ll[j]);
                } else {
                    assert(leaves(o)[j] == lr[j - ll.len()]);
                }
            }
        },
        _ => {
            assert(leaves(o) == seq![o]);
            assert(leaves(o)[0] == o);
        },
    }
}

/// When the slab test of an enclosing box fails, a scan of objects inside
/// that box finds nothing, over any subrange of the failed range.
proof fn lemma_scan_misses(
    objs: Seq<Object>,
    i: int,
    r: Ray,
    tmin: int,
    cur: int,
    nbox: Aabb,
    tmax: int,
)
    requires
        forall|j: int|
            0 <= j < objs.len() ==> obj_wf(#[trigger] objs[j]) && box_inside(
                bbox_of(objs[j]),
                nbox,
            ),
        !slab_hit(nbox, r, tmin, tmax),
        -(INF as int) <= tmin,
        cur <= tmax <= INF as int,
    ensures
        list_hit_from(objs, i, r, tmin, cur) is None,
    decreases objs.len() - i,
{
    if 0 <= i < objs.len() {
        lemma_hit_in_box(objs[i], r, tmin, cur);
        match hit_spec(objs[i], r, tmin, cur) {
            Some(h) => {
                assert(point_in_box_at(nbox, r, h.t as int));
                assert(false);
            },
            None => {
                lemma_scan_misses(objs, i + 1, r, tmin, cur, nbox, tmax);
            },
        }
    }
}

/// Scanning past the end of the first part of a concatenation is scanning
/// the second part.
proof fn lemma_scan_shift(a: Seq<Object>, b: Seq<Object>, k: int, r: Ray, tmin: int, cur: int)
    requires
        k >= 0,
    ensures
        list_hit_from(a + b, a.len() + k, r, tmin, cur) == list_hit_from(b, k, r, tmin, cur),
    decreases b.len() - k,
{
    if k < b.len() {
        assert((a + b)[a.len() + k] == b[k]);
        match hit_spec(b[k], r, tmin, cur) {
            Some(h) => {
                lemma_scan_shift(a, b, k + 1, r, tmin, h.t as int);
            },
            None => {
                lemma_scan_shift(a, b, k + 1, r, tmin, cur);
            },
        }
    }
}

/// A scan of a concatenation is the scan of the first part followed by a
/// scan of the second over the shrunken range.
proof fn lemma_scan_append(a: Seq<Object>, b: Seq<Object>, i: int, r: Ray, tmin: int, cur: int)
    requires
        0 <= i <= a.len(),
    ensures
        list_hit_from(a + b, i, r, tmin, cur) == (match list_hit_from(a, i, r, tmin, cur) {
            Some(h) => match list_hit_from(b, 0, r, tmin, h.t as int) {
                Some(h2) => Some(h2),
                None => Some(h),
            },
            None => list_hit_from(b, 0, r, tmin, cur),
        }),
    decreases a.len() - i,
{
    if i == a.len() {
        lemma_scan_shift(a, b, 0, r, tmin, cur);
        assert(list_hit_from(a, i, r, tmin, cur) is None);
    } else {
        assert((a + b)[i] == a[i]);
        match hit_spec(a[i], r, tmin, cur) {
            Some(h) => {
                lemma_scan_append(a, b, i + 1, r, tmin, h.t as int);
            },
            None => {
                lemma_scan_append(a, b, i + 1, r, tmin, cur);
            },
        }
    }
}

/// Bounding-volume traversal returns exactly the result of a linear scan
/// over the hierarchy's leaves: the nearest hit, with ties resolved the same
/// way in both.
pub proof fn lemma_bvh_matches_linear_scan(o: Object, r: Ray, tmin: int, tmax: int)
    requires
        obj_wf(o),
        -(INF as int) <= tmin,
        tmax <= INF as int,
    ensures
        hit_spec(o, r, tmin, tmax) == list_hit_from(leaves(o), 0, r, tmin, tmax),
    decreases o,
{
    match o {
        Object::Node(n) => {
            lemma_leaves_wf(o);
            if !slab_hit(n.bbox, r, tmin, tmax) {
                lemma_scan_misses(leaves(o), 0, r, tmin, tmax, n.bbox, tmax);
            } else {
                lemma_bvh_matches_linear_scan(*n.left, r, tmin, tmax);
                lemma_scan_append(leaves(*n.left), leaves(*n.right), 0, r, tmin, tmax);
                match hit_spec(*n.left, r, tmin, tmax) {
                    Some(hl) => {
                        lemma_hit_in_box(*n.left, r, tmin, tmax);
                        lemma_bvh_matches_linear_scan(*n.right, r, tmin, hl.t as int);
                    },
                    None => {
                        lemma_bvh_matches_linear_scan(*n.right, r, tmin, tmax);
                    },
                }
            }
        },
        _ => {
            assert(leaves(o) == seq![o]);
            assert(leaves(o)[0] == o);
            match hit_spec(o, r, tmin, tmax) {
                Some(h) => {
                    assert(list_hit_from(leaves(o), 1, r, tmin, h.t as int) is None);
                    assert(list_hit_from(leaves(o), 0, r, tmin, tmax) == Some(h));
                },
                None => {
                    assert(list_hit_from(leaves(o), 1, r, tmin, tmax) is None);
                    assert(list_hit_from(leaves(o), 0, r, tmin, tmax) is None);
                },
            }
        },
    }
}

/// The key objects are ordered by during construction: the low edge of the
/// bounding box along the chosen axis.
fn axis_key(o: &Object, axis: usize) -> (k: i64)
    ensures
        k == if axis == 1 {
            bbox_of(*o).y.min
        } else if axis == 2 {
            bbox_of(*o).z.min
        } else {
            bbox_of(*o).x.min
        },
{
    let b = o.bounding_box();
    if axis == 1 {
        b.y.min
    } else if axis == 2 {
        b.z.min
    } else {
        b.x.min
    }
}

/// Sort a collection by the low box edge along an axis (selection sort);
/// the result holds exactly the same objects.
fn sort_by_axis(objects: &mut Vec<Object>, axis: usize)
    ensures
        final(objects)@.to_multiset() == old(objects)@.to_multiset(),
        final(objects)@.len() == old(objects)@.len(),
{
    broadcast use vstd::seq_lib::group_to_multiset_ensures;

    let ghost total = objects@.to_multiset();
    let mut out: Vec<Object> = Vec::new();
    while objects.len() > 0
        invariant
            out@.to_multiset().add(objects@.to_multiset()) =~= total,
            out@.len() + objects@.len() == total.len(),
        decreases objects.len(),
    {
        let mut best: usize = 0;
        let mut j: usize = 1;
        while j < objects.len()
            invariant
                0 <= best < objects@.len(),
                objects@.len() > 0,
                j <= objects@.len(),
            decreases objects.len() - j,
        {
            if axis_key(&objects[j], axis) < axis_key(&objects[best], axis) {
                best = j;
            }
            j = j + 1;
        }
        let ghost objs_before = objects@;
        let ghost out_before = out@;
        let picked = objects.remove(best);
        out.push(picked);
        proof {
            broadcast use vstd::multiset::group_multiset_axioms;

            vstd::seq_lib::to_multiset_remove::<Object>(objs_before, best as int);
            vstd::seq_lib::to_multiset_build::<Object>(out_before, picked);
            assert(objects@ == objs_before.remove(best as int));
            assert(picked == objs_before[best as int]);
            assert(objects@.to_multiset() == objs_before.remove(best as int).to_multiset());
            assert(objects@.to_multiset() =~= objs_before.to_multiset().remove(picked));
            assert(out@ == out_before.push(picked));
            assert(out@.to_multiset() =~= out_before.to_multiset().insert(picked));
            assert(objs_before.to_multiset().count(picked) > 0) by {
                assert(objs_before.contains(picked));
                vstd::seq_lib::to_multiset_contains::<Object>(objs_before, picked);
            }
            assert(out@.to_multiset().add(objects@.to_multiset()) =~= total);
        }
    }
    proof {
        assert(objects@.to_multiset() =~= Multiset::<Object>::empty());
        assert(out@.to_multiset() =~= total);
        assert(out@.to_multiset().len() == out@.len());
        assert(total.len() == old(objects)@.to_multiset().len());
    }
    *objects = out;
}

/// An object of the built collection is among the hierarchy's leaves.
pub proof fn lemma_leaves_contain(o: Object, s: Seq<Object>, x: Object)
    requires
        leaves(o).to_multiset() == s.to_multiset(),
        s.contains(x),
    ensures
        leaves(o).contains(x),
        leaves(o).len() == s.len(),
{
    broadcast use vstd::seq_lib::group_to_multiset_ensures;

    assert(s.to_multiset().count(x) > 0);
    assert(leaves(o).to_multiset().count(x) > 0);
    assert(leaves(o).to_multiset().len() == leaves(o).len());
    assert(s.to_multiset().len() == s.len());
}

/// The hierarchy has exactly as many leaves as the collection it was built
/// over.
pub proof fn lemma_leaves_len(o: Object, s: Seq<Object>)
    requires
        leaves(o).to_multiset() == s.to_multiset(),
    ensures
        leaves(o).len() == s.len(),
{
    broadcast use vstd::seq_lib::group_to_multiset_ensures;

    assert(leaves(o).to_multiset().len() == leaves(o).len());
    assert(s.to_multiset().len() == s.len());
}

/// A multiset-equal sequence holds the same elements, so elementwise facts
/// carry over.
proof fn lemma_permuted_elements(s1: Seq<Object>, s2: Seq<Object>)
    requires
        s1.to_multiset() == s2.to_multiset(),
    ensures
        forall|j: int| 0 <= j < s2.len() ==> s1.contains(#[trigger] s2[j]),
{
    broadcast use vstd::seq_lib::group_to_multiset_ensures;

    assert forall|j: int| 0 <= j < s2.len() implies s1.contains(#[trigger] s2[j]) by {
        assert(s2.contains(s2[j]));
        assert(s2.to_multiset().count(s2[j]) > 0);
        assert(s1.to_multiset().count(s2[j]) > 0);
    }
}

/// Objects suitable as direct inputs of the builder: everything but an
/// already-built hierarchy node, well formed, with a bounded box.
pub open spec fn buildable(o: Object) -> bool {
    &&& obj_wf(o)
    &&& box_bounded(bbox_of(o), RAY_MAX as int)
    &&& !(o is Node)
}

/// The recursive partition: one object stands as its own subtree, two become
/// a node, more are sorted along the box's longest axis and split in half.
fn build(objects: Vec<Object>) -> (o: Object)
    requires
        objects@.len() >= 1,
        forall|j: int| 0 <= j < objects@.len() ==> #[trigger] buildable(objects@[j]),
    ensures
        obj_wf(o),
        box_bounded(bbox_of(o), RAY_MAX as int),
        leaves(o).to_multiset() == objects@.to_multiset(),
    decreases objects@.len(),
{
    broadcast use vstd::seq_lib::group_to_multiset_ensures;

    let mut objects = objects;
    let ghost orig = objects@;
    let n = objects.len();
    if n == 1 {
        let o = match objects.pop() {
            Some(o) => o,
            None => {
                proof {
                    assert(false);
                }
                unreached()
            },
        };
        proof {
            assert(o == orig[0]);
            assert(buildable(orig[0]));
            assert(leaves(o) =~= seq![o]);
            assert(orig =~= seq![o]);
        }
        return o;
    }
    // the split axis: the longest axis of the box enclosing everything
    let mut bbox = Aabb::empty();
    let mut i: usize = 0;
    while i < objects.len()
        invariant
            forall|j: int| 0 <= j < objects@.len() ==> #[trigger] buildable(objects@[j]),
            i >= 1 ==> box_bounded(bbox, RAY_MAX as int),
            i == 0 ==> bbox.x.min == INF && bbox.x.max == -INF && bbox.y.min == INF && bbox.y.max
                == -INF && bbox.z.min == INF && bbox.z.max == -INF,
            i <= objects@.len(),
            objects@.len() == n,
            n >= 2,
        decreases objects@.len() - i,
    {
        proof {
            assert(buildable(objects@[i as int]));
        }
        bbox = Aabb::new_boxes(&bbox, &objects[i].bounding_box());
        i = i + 1;
    }
    let axis = bbox.longest_axis();
    let ghost before_sort = objects@;
    let left_obj: Object;
    let right_obj: Object;
    if n == 2 {
        let b = match objects.pop() {
            Some(o) => o,
            None => {
                proof {
                    assert(false);
                }
                unreached()
            },
        };
        let a = match objects.pop() {
            Some(o) => o,
            None => {
                proof {
                    assert(false);
                }
                unreached()
            },
        };
        proof {
            assert(b == before_sort[1]);
            assert(a == before_sort[0]);
            assert(buildable(before_sort[0]));
            assert(buildable(before_sort[1]));
        }
        left_obj = a;
        right_obj = b;
        proof {
            assert(leaves(left_obj) =~= seq![left_obj]);
            assert(leaves(right_obj) =~= seq![right_obj]);
            assert(leaves(left_obj) + leaves(right_obj) =~= seq![left_obj, right_obj]);
            assert(before_sort =~= seq![left_obj, right_obj]);
        }
    } else {
        sort_by_axis(&mut objects, axis);
        proof {
            lemma_permuted_elements(before_sort, objects@);
            assert forall|j: int|
                0 <= j < objects@.len() implies #[trigger] buildable(objects@[j]) by {
                assert(before_sort.contains(objects@[j]));
                let i0 = choose|i0: int|
                    0 <= i0 < before_sort.len() && before_sort[i0] == objects@[j];
                assert(buildable(before_sort[i0]));
            }
        }
        let mid = n / 2;
        let ghost sorted = objects@;
        let right_vec = objects.split_off(mid);
        proof {
            assert(objects@ =~= sorted.subrange(0, mid as int));
            assert(right_vec@ =~= sorted.subrange(mid as int, n as int));
            assert forall|j: int|
                0 <= j < objects@.len() implies #[trigger] buildable(objects@[j]) by {
                assert(objects@[j] == sorted[j]);
            }
            assert forall|j: int|
                0 <= j < right_vec@.len() implies #[trigger] buildable(right_vec@[j]) by {
                assert(right_vec@[j] == sorted[mid + j]);
            }
            assert(sorted =~= objects@ + right_vec@);
            vstd::seq_lib::lemma_multiset_commutative(objects@, right_vec@);
        }
        let ghost left_part = objects@;
        let ghost right_part = right_vec@;
        left_obj = build(objects);
        right_obj = build(right_vec);
        proof {
            vstd::seq_lib::lemma_multiset_commutative(leaves(left_obj), leaves(right_obj));
            assert(leaves(left_obj).to_multiset().add(leaves(right_obj).to_multiset())
                =~= before_sort.to_multiset());
        }
    }
    let lb = left_obj.bounding_box();
    let rb = right_obj.bounding_box();
    let nb = Aabb::new_boxes(&lb, &rb);
    let node = Object::Node(
        BvhNode { left: Box::new(left_obj), right: Box::new(right_obj), bbox: nb },
    );
    proof {
        vstd::seq_lib::lemma_multiset_commutative(leaves(left_obj), leaves(right_obj));
    }
    node
}

impl BvhNode {
    /// Build a hierarchy over a collection's objects.  The result intersects
    /// rays exactly as a linear scan of the collection would (see
    /// lemma_bvh_matches_linear_scan); its leaves are exactly the collection's
    /// objects.
    pub fn new(list: HittableList) -> (o: Object)
        requires
            list.objects@.len() >= 1,
            forall|j: int| 0 <= j < list.objects@.len() ==> #[trigger] buildable(list.objects@[j]),
        ensures
            obj_wf(o),
            box_bounded(bbox_of(o), RAY_MAX as int),
            leaves(o).to_multiset() == list.objects@.to_multiset(),
    {
        build(list.objects)
    }
}

} // verus!
