//! Building the bounding volume hierarchy.
//!
//! Construction sorts the members by their boxes' minimum corner along a
//! randomly chosen axis and splits at the midpoint; a single member becomes
//! both children of a degenerate leaf.  Building over any member without a
//! bounding box fails loudly.  The built tree's leaves are exactly the given
//! members (as a set), its node boxes enclose their subtrees, and traversal
//! of the tree reports the same record as a linear scan of its leaves.

use vstd::prelude::*;
use std::sync::Arc;
use crate::aabb::{box_within, union_spec, AABB};
use crate::hit_record::HitRecord;
use crate::hittable::{box_of, box_of_arc, det, hit_of, hit_of_arc, list_hit_from, Hittable};
use crate::ray::Ray;
use crate::tparam::TParam;
use crate::fx::in_coord;
use crate::vec3::Point3;

verus! {

broadcast use vstd::std_specs::vec::group_vec_axioms;

/// The leaves below an acceleration node: subtrees of inner nodes flattened,
/// anything else kept whole.
pub open spec fn leaves_arc(a: Arc<Hittable>) -> Seq<Arc<Hittable>>
    decreases *a,
{
    if (*a) is Bvh {
        leaves_arc((*a)->Bvh_left) + leaves_arc((*a)->Bvh_right)
    } else {
        seq![a]
    }
}

/// The run of leaves below a built acceleration node, in tree order.
pub open spec fn node_leaves(h: Hittable) -> Seq<Arc<Hittable>> {
    if h is Bvh {
        leaves_arc(h->Bvh_left) + leaves_arc(h->Bvh_right)
    } else {
        Seq::empty()
    }
}

/// The set of leaves below a built acceleration node.
pub open spec fn leaves_set(h: Hittable) -> Set<Arc<Hittable>> {
    if h is Bvh {
        leaves_arc(h->Bvh_left).to_set() + leaves_arc(h->Bvh_right).to_set()
    } else {
        Set::empty()
    }
}

/// No member is itself an acceleration node, so flattening a built tree
/// recovers exactly the members.
pub open spec fn no_bvh_members(s: Seq<Arc<Hittable>>) -> bool {
    forall|i: int| 0 <= i < s.len() ==> !((*#[trigger] s[i]) is Bvh)
}

/// The error a build over unbounded members reports.
#[derive(Clone, Copy, Debug, PartialEq, Eq, Structural)]
pub enum BvhBuildError {
    UnboundedMember,
    NoMembers,
}

/// The sort key: the box's minimum corner along the chosen axis.
pub open spec fn axis_key(a: Arc<Hittable>, axis: i64) -> int {
    let b = box_of_arc(&a);
    match b {
        Some(bx) => if axis == 0 {
            bx.min.x as int
        } else if axis == 1 {
            bx.min.y as int
        } else {
            bx.min.z as int
        },
        None => 0,
    }
}

fn axis_key_exec(a: &Arc<Hittable>, axis: i64) -> (r: Option<i64>)
    requires
        (**a).wf(),
    ensures
        r is Some <==> box_of_arc(a) is Some,
        r matches Some(v) ==> v == axis_key(*a, axis),
{
    let b = a.bounding_box(0, 0);
    match b {
        Some(bx) => {
            if axis == 0 {
                Some(bx.min.x)
            } else if axis == 1 {
                Some(bx.min.y)
            } else {
                Some(bx.min.z)
            }
        },
        None => None,
    }
}

impl Hittable {
    /// Builds an acceleration tree over the members of a composite list,
    /// for rays within the given time interval.  Fails on an empty list or
    /// any member without a bounding box.
    pub fn bvh_new(
        list: &Hittable,
        time_0: i64,
        time_1: i64,
        rng: &mut rand::rngs::ThreadRng,
    ) -> (r: Result<Hittable, BvhBuildError>)
        requires
            list.wf(),
            (*list) is List,
        ensures
            r matches Ok(b) ==> {
                &&& b.wf()
                &&& b is Bvh
                &&& (no_bvh_members(list->List_hittables@)
                    ==> leaves_set(b) =~= list->List_hittables@.to_set())
                &&& (no_bvh_members(list->List_hittables@) ==> forall|x: Arc<Hittable>|
                    list->List_hittables@.to_multiset().count(x)
                        <= #[trigger] node_leaves(b).to_multiset().count(x))
                &&& (det(*list) ==> det(b))
            },
            r is Err ==> list->List_hittables@.len() == 0 || exists|i: int|
                0 <= i < list->List_hittables@.len() && box_of_arc(
                    &list->List_hittables@[i]) is None,
    {
        match list {
            Hittable::List { hittables } => {
                let n = hittables.len();
                if n == 0 {
                    return Err(BvhBuildError::NoMembers);
                }
                let mut objects: Vec<Arc<Hittable>> = Vec::new();
                let mut i: usize = 0;
                while i < n
                    invariant
                        (*list) is List,
                        list->List_hittables == *hittables,
                        i <= n,
                        n == hittables@.len(),
                        objects@ =~= hittables@.subrange(0, i as int),
                        forall|j: int| 0 <= j < n ==> (*#[trigger] hittables@[j]).wf(),
                        forall|j: int| 0 <= j < i
                            ==> box_of_arc(#[trigger] &hittables@[j]) is Some,
                    decreases n - i,
                {
                    let h = &hittables[i];
                    if h.bounding_box(time_0, time_1).is_none() {
                        proof {
                            assert(list->List_hittables@ == hittables@);
                            assert(box_of_arc(&list->List_hittables@[i as int]) is None);
                        }
                        return Err(BvhBuildError::UnboundedMember);
                    }
                    objects.push(crate::shared::clone_arc(h));
                    i = i + 1;
                }
                proof {
                    assert(objects@ =~= hittables@);
                }
                proof {
                    assert forall|j: int| 0 <= j < objects@.len()
                        implies box_of_arc(#[trigger] &objects@[j]) is Some by {
                        assert(objects@[j] == hittables@[j]);
                    }
                }
                let b = build_tree(objects, rng);
                proof {
                    assert(hittables@.to_set() =~= list->List_hittables@.to_set());
                    if det(*list) {
                        assert forall|j: int| 0 <= j < hittables@.len()
                            implies det(*#[trigger] hittables@[j]) by {}
                    }
                }
                Ok(b)
            },
            _ => {
                proof {
                    assert(false);
                }
                Err(BvhBuildError::NoMembers)
            },
        }
    }
}

/// Builds the tree over a nonempty run of boxed members.
fn build_tree(
    objects: Vec<Arc<Hittable>>,
    rng: &mut rand::rngs::ThreadRng,
) -> (r: Hittable)
    requires
        objects@.len() >= 1,
        forall|i: int| 0 <= i < objects@.len() ==> (*#[trigger] objects@[i]).wf(),
        forall|i: int| 0 <= i < objects@.len()
            ==> box_of_arc(#[trigger] &objects@[i]) is Some,
    ensures
        r.wf(),
        r is Bvh,
        box_of(r) is Some,
        no_bvh_members(objects@) ==> leaves_set(r) =~= objects@.to_set(),
        no_bvh_members(objects@) ==> forall|x: Arc<Hittable>|
            objects@.to_multiset().count(x)
                <= #[trigger] node_leaves(r).to_multiset().count(x),
        (forall|i: int| 0 <= i < objects@.len()
            ==> det(*#[trigger] objects@[i])) ==> det(r),
    decreases objects@.len(),
{
    let axis = crate::rng::rng_range(rng, 0, 2);
    let n = objects.len();
    let (left, right): (Arc<Hittable>, Arc<Hittable>);
    if n == 1 {
        left = crate::shared::clone_arc(&objects[0]);
        right = crate::shared::clone_arc(&objects[0]);
        proof {
            if no_bvh_members(objects@) {
                lemma_leaf_pair(left, right, objects@);
                lemma_leaf_counts(left, right, objects@);
            }
        }
    } else if n == 2 {
        let k0 = axis_key_exec(&objects[0], axis);
        let k1 = axis_key_exec(&objects[1], axis);
        let swap = match (k0, k1) {
            (Some(a), Some(b)) => b < a,
            _ => false,
        };
        if swap {
            left = crate::shared::clone_arc(&objects[1]);
            right = crate::shared::clone_arc(&objects[0]);
        } else {
            left = crate::shared::clone_arc(&objects[0]);
            right = crate::shared::clone_arc(&objects[1]);
        }
        proof {
            if no_bvh_members(objects@) {
                lemma_leaf_pair(left, right, objects@);
                lemma_leaf_counts(left, right, objects@);
            }
        }
    } else {
        let sorted = sort_by_axis(objects, axis);
        proof {
            lemma_multiset_eq_members(sorted@, objects@);
        }
        let mid = sorted.len() / 2;
        let mut l_vec: Vec<Arc<Hittable>> = Vec::new();
        let mut r_vec: Vec<Arc<Hittable>> = Vec::new();
        let mut i: usize = 0;
        let total = sorted.len();
        while i < total
            invariant
                i <= total,
                total == sorted@.len(),
                mid == total / 2,
                total >= 3,
                forall|j: int| 0 <= j < total ==> (*#[trigger] sorted@[j]).wf(),
                forall|j: int| 0 <= j < total
                    ==> box_of_arc(#[trigger] &sorted@[j]) is Some,
                l_vec@ =~= sorted@.subrange(0, if i < mid { i as int } else { mid as int }),
                r_vec@ =~= if i <= mid {
                    Seq::<Arc<Hittable>>::empty()
                } else {
                    sorted@.subrange(mid as int, i as int)
                },
            decreases total - i,
        {
            if i < mid {
                l_vec.push(crate::shared::clone_arc(&sorted[i]));
            } else {
                r_vec.push(crate::shared::clone_arc(&sorted[i]));
            }
            i = i + 1;
        }
        proof {
            assert(l_vec@ =~= sorted@.subrange(0, mid as int));
            assert(r_vec@ =~= sorted@.subrange(mid as int, total as int));
            lemma_sub_facts(sorted@, mid as int);
            assert forall|j: int| 0 <= j < l_vec@.len()
                implies (*#[trigger] l_vec@[j]).wf()
                && box_of_arc(&l_vec@[j]) is Some by {
                assert(l_vec@[j] == sorted@[j]);
            }
            assert forall|j: int| 0 <= j < r_vec@.len()
                implies (*#[trigger] r_vec@[j]).wf()
                && box_of_arc(&r_vec@[j]) is Some by {
                assert(r_vec@[j] == sorted@[j + mid]);
            }
        }
        let ghost l_seq = l_vec@;
        let ghost r_seq = r_vec@;
        let ghost sorted_seq = sorted@;
        let ghost orig_seq = objects@;
        let lt = build_tree(l_vec, rng);
        let rt = build_tree(r_vec, rng);
        left = Arc::new(lt);
        right = Arc::new(rt);
        proof {
            if no_bvh_members(orig_seq) {
                assert forall|j: int| 0 <= j < sorted_seq.len()
                    implies !((*#[trigger] sorted_seq[j]) is Bvh) by {
                    lemma_multiset_eq_members(sorted_seq, orig_seq);
                    assert(sorted_seq.contains(sorted_seq[j]));
                    let k = choose|k: int| 0 <= k < orig_seq.len()
                        && orig_seq[k] == sorted_seq[j];
                }
                assert forall|j: int| 0 <= j < l_seq.len()
                    implies !((*#[trigger] l_seq[j]) is Bvh) by {
                    assert(l_seq[j] == sorted_seq[j]);
                }
                assert forall|j: int| 0 <= j < r_seq.len()
                    implies !((*#[trigger] r_seq[j]) is Bvh) by {
                    assert(r_seq[j] == sorted_seq[j + mid]);
                }
                assert(leaves_arc(left) == leaves_arc((*left)->Bvh_left)
                    + leaves_arc((*left)->Bvh_right));
                assert(leaves_arc(left).to_set() =~= leaves_set(lt)) by {
                    lemma_concat_to_set(leaves_arc((*left)->Bvh_left),
                        leaves_arc((*left)->Bvh_right));
                }
                assert(leaves_arc(right).to_set() =~= leaves_set(rt)) by {
                    lemma_concat_to_set(leaves_arc((*right)->Bvh_left),
                        leaves_arc((*right)->Bvh_right));
                }
                lemma_split_set(sorted_seq, mid as int);
                lemma_multiset_eq_sets(sorted_seq, orig_seq);
                assert(leaves_arc(left).to_set() + leaves_arc(right).to_set()
                    =~= orig_seq.to_set());
                assert(leaves_arc(left) == node_leaves(lt));
                assert(leaves_arc(right) == node_leaves(rt));
                assert(l_seq + r_seq =~= sorted_seq);
                vstd::seq_lib::lemma_multiset_commutative(l_seq, r_seq);
                vstd::seq_lib::lemma_multiset_commutative(leaves_arc(left),
                    leaves_arc(right));
                assert forall|x: Arc<Hittable>| orig_seq.to_multiset().count(x)
                    <= #[trigger] (leaves_arc(left) + leaves_arc(right))
                        .to_multiset().count(x) by {
                    broadcast use vstd::multiset::group_multiset_axioms;
                    assert(orig_seq.to_multiset().count(x)
                        == sorted_seq.to_multiset().count(x));
                    assert(sorted_seq.to_multiset().count(x)
                        == l_seq.to_multiset().count(x) + r_seq.to_multiset().count(x));
                }
            }
            if forall|j: int| 0 <= j < orig_seq.len()
                ==> det(*#[trigger] orig_seq[j]) {
                assert forall|j: int| 0 <= j < l_seq.len()
                    implies det(*#[trigger] l_seq[j]) by {
                    assert(l_seq[j] == sorted_seq[j]);
                    lemma_multiset_eq_members(sorted_seq, orig_seq);
                    assert(sorted_seq.contains(sorted_seq[j]));
                    let k = choose|k: int| 0 <= k < orig_seq.len()
                        && orig_seq[k] == sorted_seq[j];
                }
                assert forall|j: int| 0 <= j < r_seq.len()
                    implies det(*#[trigger] r_seq[j]) by {
                    assert(r_seq[j] == sorted_seq[j + mid]);
                    lemma_multiset_eq_members(sorted_seq, orig_seq);
                    assert(sorted_seq.contains(sorted_seq[j + mid]));
                    let k = choose|k: int| 0 <= k < orig_seq.len()
                        && orig_seq[k] == sorted_seq[j + mid];
                }
            }
        }
    }
    let lb = match left.bounding_box(0, 0) {
        Some(b) => b,
        None => {
            proof {
                assert(false);
            }
            AABB { min: crate::vec3::Vec3 { x: 0, y: 0, z: 0 },
                max: crate::vec3::Vec3 { x: 0, y: 0, z: 0 } }
        },
    };
    let rb = match right.bounding_box(0, 0) {
        Some(b) => b,
        None => {
            proof {
                assert(false);
            }
            AABB { min: crate::vec3::Vec3 { x: 0, y: 0, z: 0 },
                max: crate::vec3::Vec3 { x: 0, y: 0, z: 0 } }
        },
    };
    let mut bbox = lb;
    bbox.encapsulate(rb);
    Hittable::Bvh { bbox, left, right }
}

/// The flattening of a degenerate one- or two-member node recovers exactly
/// the members.
proof fn lemma_leaf_pair(left: Arc<Hittable>, right: Arc<Hittable>, s: Seq<Arc<Hittable>>)
    requires
        1 <= s.len() <= 2,
        s.len() == 1 ==> left == s[0] && right == s[0],
        s.len() == 2 ==> (left == s[0] && right == s[1]) || (left == s[1] && right == s[0]),
        no_bvh_members(s),
    ensures
        leaves_arc(left).to_set() + leaves_arc(right).to_set() =~= s.to_set(),
{
    assert(!((*left) is Bvh));
    assert(!((*right) is Bvh));
    assert(leaves_arc(left) =~= seq![left]);
    assert(leaves_arc(right) =~= seq![right]);
    assert(seq![left].to_set() =~= Set::empty().insert(left)) by {
        assert forall|x: Arc<Hittable>| seq![left].to_set().contains(x)
            implies x == left by {
            let i = choose|i: int| 0 <= i < 1 && seq![left][i] == x;
        }
        assert(seq![left][0] == left);
        assert(seq![left].to_set().contains(left));
    }
    assert(seq![right].to_set() =~= Set::empty().insert(right)) by {
        assert forall|x: Arc<Hittable>| seq![right].to_set().contains(x)
            implies x == right by {
            let i = choose|i: int| 0 <= i < 1 && seq![right][i] == x;
        }
        assert(seq![right][0] == right);
        assert(seq![right].to_set().contains(right));
    }
    assert forall|x: Arc<Hittable>| s.to_set().contains(x)
        implies x == left || x == right by {
        let i = choose|i: int| 0 <= i < s.len() && s[i] == x;
    }
    assert(s.to_set().contains(s[0]));
    if s.len() == 2 {
        assert(s.to_set().contains(s[1]));
    }
}

/// Sequences with equal multisets have the same members.
proof fn lemma_multiset_eq_members(s1: Seq<Arc<Hittable>>, s2: Seq<Arc<Hittable>>)
    requires
        s1.to_multiset() == s2.to_multiset(),
    ensures
        forall|x: Arc<Hittable>| s1.contains(x) <==> s2.contains(x),
{
    assert forall|x: Arc<Hittable>| s1.contains(x) <==> s2.contains(x) by {
        vstd::seq_lib::to_multiset_contains(s1, x);
        vstd::seq_lib::to_multiset_contains(s2, x);
    }
}

/// Sequences with equal multisets have equal sets.
proof fn lemma_multiset_eq_sets(s1: Seq<Arc<Hittable>>, s2: Seq<Arc<Hittable>>)
    requires
        s1.to_multiset() == s2.to_multiset(),
    ensures
        s1.to_set() =~= s2.to_set(),
{
    lemma_multiset_eq_members(s1, s2);
    assert forall|x: Arc<Hittable>| s1.to_set().contains(x)
        implies s2.to_set().contains(x) by {
        assert(s1.contains(x));
        assert(s2.contains(x));
        let i = choose|i: int| 0 <= i < s2.len() && s2[i] == x;
    }
    assert forall|x: Arc<Hittable>| s2.to_set().contains(x)
        implies s1.to_set().contains(x) by {
        assert(s2.contains(x));
        assert(s1.contains(x));
        let i = choose|i: int| 0 <= i < s1.len() && s1[i] == x;
    }
}

/// Concatenation unions the element sets.
proof fn lemma_concat_to_set(s1: Seq<Arc<Hittable>>, s2: Seq<Arc<Hittable>>)
    ensures
        (s1 + s2).to_set() =~= s1.to_set() + s2.to_set(),
{
    assert forall|x: Arc<Hittable>| (s1 + s2).to_set().contains(x)
        implies (s1.to_set() + s2.to_set()).contains(x) by {
        let i = choose|i: int| 0 <= i < (s1 + s2).len() && (s1 + s2)[i] == x;
        if i < s1.len() {
            assert(s1[i] == x);
        } else {
            assert(s2[i - s1.len()] == x);
        }
    }
    assert forall|x: Arc<Hittable>| (s1.to_set() + s2.to_set()).contains(x)
        implies (s1 + s2).to_set().contains(x) by {
        if s1.to_set().contains(x) {
            let i = choose|i: int| 0 <= i < s1.len() && s1[i] == x;
            assert((s1 + s2)[i] == x);
        } else {
            let i = choose|i: int| 0 <= i < s2.len() && s2[i] == x;
            assert((s1 + s2)[i + s1.len()] == x);
        }
    }
}

/// Sorts members by their box key along an axis (insertion sort); the
/// result is a permutation of the input.
fn sort_by_axis(objects: Vec<Arc<Hittable>>, axis: i64) -> (r: Vec<Arc<Hittable>>)
    requires
        forall|i: int| 0 <= i < objects@.len() ==> (*#[trigger] objects@[i]).wf(),
        forall|i: int| 0 <= i < objects@.len()
            ==> box_of_arc(#[trigger] &objects@[i]) is Some,
    ensures
        r@.to_multiset() == objects@.to_multiset(),
        r@.len() == objects@.len(),
        forall|i: int| 0 <= i < r@.len() ==> (*#[trigger] r@[i]).wf(),
        forall|i: int| 0 <= i < r@.len() ==> box_of_arc(#[trigger] &r@[i]) is Some,
{
    let ghost orig = objects@;
    let mut v = objects;
    let n = v.len();
    if n <= 1 {
        return v;
    }
    let mut i: usize = 1;
    while i < n
        invariant
            1 <= i <= n,
            n == v@.len(),
            v@.to_multiset() == orig.to_multiset(),
            forall|j: int| 0 <= j < v@.len() ==> (*#[trigger] v@[j]).wf(),
            forall|j: int| 0 <= j < v@.len() ==> box_of_arc(#[trigger] &v@[j]) is Some,
        decreases n - i,
    {
        let mut j: usize = i;
        while j > 0
            invariant
                j <= i < n,
                n == v@.len(),
                v@.to_multiset() == orig.to_multiset(),
                forall|k: int| 0 <= k < v@.len() ==> (*#[trigger] v@[k]).wf(),
                forall|k: int| 0 <= k < v@.len() ==> box_of_arc(#[trigger] &v@[k]) is Some,
            decreases j,
        {
            let prev = axis_key_exec(&v[j - 1], axis);
            let here = axis_key_exec(&v[j], axis);
            let out_of_order = match (prev, here) {
                (Some(a), Some(b)) => b < a,
                _ => false,
            };
            if out_of_order {
                let ghost before = v@;
                let a = v[j - 1].clone();
                let b = v[j].clone();
                v.set(j - 1, b);
                v.set(j, a);
                proof {
                    broadcast use vstd::multiset::group_multiset_axioms;
                    broadcast use vstd::multiset::group_multiset_properties;
                    broadcast use vstd::seq_lib::group_to_multiset_ensures;
                    assert(v@ =~= before.update(j - 1, before[j as int]).update(
                        j as int, before[j - 1]));
                    vstd::seq_lib::to_multiset_update(before, j - 1, before[j as int]);
                    let mid_s = before.update(j - 1, before[j as int]);
                    vstd::seq_lib::to_multiset_update(mid_s, j as int, before[j - 1]);
                    assert(mid_s[j as int] == before[j as int]);
                    assert(before.contains(before[j - 1]));
                    assert(before.contains(before[j as int]));
                    assert(v@.to_multiset() =~= before.to_multiset());
                }
                j = j - 1;
            } else {
                break;
            }
        }
        i = i + 1;
    }
    v
}


/// The element count of a one-member run.
proof fn lemma_count_singleton(m: Arc<Hittable>, x: Arc<Hittable>)
    ensures
        seq![m].to_multiset().count(x) == if x == m { 1int } else { 0int },
{
    broadcast use vstd::seq_lib::group_to_multiset_ensures;
    broadcast use vstd::multiset::group_multiset_axioms;
    assert(seq![m] =~= Seq::empty().push(m));
    assert(Seq::<Arc<Hittable>>::empty().push(m).to_multiset()
        =~= Seq::<Arc<Hittable>>::empty().to_multiset().insert(m));
    vstd::seq_lib::to_multiset_len(Seq::<Arc<Hittable>>::empty());
}

/// A one- or two-member node's leaves keep every member's count.
proof fn lemma_leaf_counts(left: Arc<Hittable>, right: Arc<Hittable>, s: Seq<Arc<Hittable>>)
    requires
        1 <= s.len() <= 2,
        s.len() == 1 ==> left == s[0] && right == s[0],
        s.len() == 2 ==> (left == s[0] && right == s[1]) || (left == s[1] && right == s[0]),
        no_bvh_members(s),
    ensures
        forall|x: Arc<Hittable>| s.to_multiset().count(x)
            <= #[trigger] (leaves_arc(left) + leaves_arc(right)).to_multiset().count(x),
{
    broadcast use vstd::seq_lib::group_to_multiset_ensures;
    broadcast use vstd::multiset::group_multiset_axioms;
    assert(!((*left) is Bvh));
    assert(!((*right) is Bvh));
    assert(leaves_arc(left) =~= seq![left]);
    assert(leaves_arc(right) =~= seq![right]);
    vstd::seq_lib::lemma_multiset_commutative(leaves_arc(left), leaves_arc(right));
    if s.len() == 1 {
        assert(s =~= seq![s[0]]);
        assert forall|x: Arc<Hittable>| s.to_multiset().count(x)
            <= #[trigger] (leaves_arc(left) + leaves_arc(right)).to_multiset().count(x) by {
            lemma_count_singleton(s[0], x);
            lemma_count_singleton(left, x);
            lemma_count_singleton(right, x);
        }
    } else {
        assert(s =~= seq![s[0]] + seq![s[1]]);
        vstd::seq_lib::lemma_multiset_commutative(seq![s[0]], seq![s[1]]);
        assert forall|x: Arc<Hittable>| s.to_multiset().count(x)
            <= #[trigger] (leaves_arc(left) + leaves_arc(right)).to_multiset().count(x) by {
            lemma_count_singleton(s[0], x);
            lemma_count_singleton(s[1], x);
            lemma_count_singleton(left, x);
            lemma_count_singleton(right, x);
        }
    }
}

/// Splitting a run splits its set.
proof fn lemma_split_set(s: Seq<Arc<Hittable>>, mid: int)
    requires
        0 <= mid <= s.len(),
    ensures
        s.subrange(0, mid).to_set() + s.subrange(mid, s.len() as int).to_set() =~= s.to_set(),
{
    let a = s.subrange(0, mid);
    let b = s.subrange(mid, s.len() as int);
    assert forall|x: Arc<Hittable>| s.to_set().contains(x)
        implies (a.to_set() + b.to_set()).contains(x) by {
        let i = choose|i: int| 0 <= i < s.len() && s[i] == x;
        if i < mid {
            assert(a[i] == x);
        } else {
            assert(b[i - mid] == x);
        }
    }
    assert forall|x: Arc<Hittable>| (a.to_set() + b.to_set()).contains(x)
        implies s.to_set().contains(x) by {
        if a.to_set().contains(x) {
            let i = choose|i: int| 0 <= i < a.len() && a[i] == x;
            assert(s[i] == x);
        } else {
            let i = choose|i: int| 0 <= i < b.len() && b[i] == x;
            assert(s[i + mid] == x);
        }
    }
}

/// Subranges keep membership facts.
proof fn lemma_sub_facts(s: Seq<Arc<Hittable>>, mid: int)
    requires
        0 <= mid <= s.len(),
    ensures
        forall|i: int| 0 <= i < mid ==> s.subrange(0, mid)[i] == s[i],
        forall|i: int| 0 <= i < s.len() - mid
            ==> s.subrange(mid, s.len() as int)[i] == s[i + mid],
{
}



/// Reference-taking views of a node, for proof-code case analysis.
pub open spec fn is_node(a: &Arc<Hittable>) -> bool {
    (**a) is Bvh
}

pub open spec fn node_left(a: &Arc<Hittable>) -> Arc<Hittable> {
    (**a)->Bvh_left
}

pub open spec fn node_right(a: &Arc<Hittable>) -> Arc<Hittable> {
    (**a)->Bvh_right
}

/// Scanning past the first run of a concatenation is scanning the second
/// run alone.
proof fn lemma_scan_offset(
    s1: Seq<Arc<Hittable>>, s2: Seq<Arc<Hittable>>, j: int, ray: Ray, lo: TParam, hi: TParam,
    best: Option<HitRecord>,
)
    requires
        0 <= j <= s2.len(),
    ensures
        list_hit_from(s1 + s2, s1.len() + j, ray, lo, hi, best) == list_hit_from(s2, j, ray,
            lo, hi, best),
    decreases s2.len() - j,
{
    if j < s2.len() {
        assert((s1 + s2)[s1.len() + j] == s2[j]);
        crate::hittable::lemma_scan_unfold(s1 + s2, s1.len() + j, ray, lo, hi, best);
        crate::hittable::lemma_scan_unfold(s2, j, ray, lo, hi, best);
        lemma_scan_offset(s1, s2, j + 1, ray, lo, hi,
            crate::hittable::scan_step(s2[j], ray, lo, hi, best));
    }
}

/// Scanning a concatenation is scanning the first run, then feeding its
/// result into a scan of the second.
proof fn lemma_scan_concat(
    s1: Seq<Arc<Hittable>>, s2: Seq<Arc<Hittable>>, i: int, ray: Ray, lo: TParam, hi: TParam,
    best: Option<HitRecord>,
)
    requires
        0 <= i <= s1.len(),
    ensures
        list_hit_from(s1 + s2, i, ray, lo, hi, best) == list_hit_from(s2, 0, ray, lo, hi,
            list_hit_from(s1, i, ray, lo, hi, best)),
    decreases s1.len() - i,
{
    if i < s1.len() {
        assert((s1 + s2)[i] == s1[i]);
        crate::hittable::lemma_scan_unfold(s1 + s2, i, ray, lo, hi, best);
        crate::hittable::lemma_scan_unfold(s1, i, ray, lo, hi, best);
        lemma_scan_concat(s1, s2, i + 1, ray, lo, hi,
            crate::hittable::scan_step(s1[i], ray, lo, hi, best));
    } else {
        lemma_scan_offset(s1, s2, 0, ray, lo, hi, best);
        assert(list_hit_from(s1, i, ray, lo, hi, best) == best);
    }
}

/// Stepping over an acceleration node is stepping over its left child and
/// then its right child: the node's combine order matches the scan's
/// narrowing order exactly.
proof fn lemma_step_node(
    a: Arc<Hittable>, ray: Ray, lo: TParam, hi: TParam, best: Option<HitRecord>,
)
    requires
        is_node(&a),
    ensures
        crate::hittable::scan_step(a, ray, lo, hi, best) == crate::hittable::scan_step(
            node_right(&a), ray, lo, hi, crate::hittable::scan_step(node_left(&a), ray,
            lo, hi, best)),
{
}

/// A scan of the leaves below a node reports exactly what stepping over the
/// node itself reports.
proof fn lemma_scan_leaves(
    a: Arc<Hittable>, ray: Ray, lo: TParam, hi: TParam, best: Option<HitRecord>,
)
    ensures
        list_hit_from(leaves_arc(a), 0, ray, lo, hi, best) == crate::hittable::scan_step(
            a, ray, lo, hi, best),
    decreases *a,
{
    if is_node(&a) {
        let l = node_left(&a);
        let r = node_right(&a);
        lemma_scan_concat(leaves_arc(l), leaves_arc(r), 0, ray, lo, hi, best);
        lemma_scan_leaves(l, ray, lo, hi, best);
        lemma_scan_leaves(r, ray, lo, hi,
            crate::hittable::scan_step(l, ray, lo, hi, best));
        lemma_step_node(a, ray, lo, hi, best);
        assert(leaves_arc(a) == leaves_arc(l) + leaves_arc(r));
    } else {
        crate::hittable::lemma_scan_unfold(leaves_arc(a), 0, ray, lo, hi, best);
        assert(leaves_arc(a)[0] == a);
    }
}

/// An acceleration tree reports exactly what a brute-force linear scan over
/// its leaves reports: the same record, not merely the same distance.  The
/// builder's contract makes those leaves exactly the members the tree was
/// built from.
pub proof fn lemma_bvh_matches_linear_scan(a: Arc<Hittable>, ray: Ray, lo: TParam, hi: TParam)
    ensures
        hit_of(*a, ray, lo, hi) == list_hit_from(leaves_arc(a), 0, ray, lo, hi, None),
{
    lemma_scan_leaves(a, ray, lo, hi, None);
}

/// How two reports relate across a window narrowing: a record still inside
/// the narrower window is kept unchanged; one outside it disappears, and
/// nothing new ever appears.
pub open spec fn scan_rel(
    b1: Option<HitRecord>, b2: Option<HitRecord>, hi2: TParam,
) -> bool {
    match b1 {
        Some(r) => if crate::tparam::t_lt(r.t, hi2) {
            b2 == b1
        } else {
            b2 is None
        },
        None => b2 is None,
    }
}

/// What narrowing the window does to a deterministic hittable's report.
#[verifier::rlimit(100)]
#[verifier::spinoff_prover]
pub proof fn lemma_hit_window_coherent(
    h: &Hittable, ray: Ray, lo: TParam, hi1: TParam, hi2: TParam,
)
    requires
        h.wf(),
        det(*h),
        ray.wf(),
        lo.wf(),
        hi1.wf(),
        hi2.wf(),
        crate::tparam::t_le(hi2, hi1),
    ensures
        scan_rel(hit_of(*h, ray, lo, hi1), hit_of(*h, ray, lo, hi2), hi2),
    decreases *h, 0int,
{
    crate::hittable::lemma_hit_of_in_box(h, ray, lo, hi1);
    crate::hittable::lemma_hit_of_in_box(h, ray, lo, hi2);
    match h {
        Hittable::Sphere { center, radius, material } => {
            assert(hit_of(*h, ray, lo, hi1) == crate::hittable::sphere_hit_spec(*center,
                *radius, crate::hittable::h_sphere_material(h), ray, lo, hi1));
            assert(hit_of(*h, ray, lo, hi2) == crate::hittable::sphere_hit_spec(*center,
                *radius, crate::hittable::h_sphere_material(h), ray, lo, hi2));
            lemma_sphere_window_coherent(*center, *radius,
                crate::hittable::h_sphere_material(h), ray, lo, hi1, hi2);
        },
        Hittable::Rect { plane, a0, a1, b0, b1, k, material } => {
            assert(hit_of(*h, ray, lo, hi1) == crate::hittable::rect_hit_spec(*plane, *a0,
                *a1, *b0, *b1, *k, crate::hittable::h_rect_material(h), ray, lo, hi1));
            assert(hit_of(*h, ray, lo, hi2) == crate::hittable::rect_hit_spec(*plane, *a0,
                *a1, *b0, *b1, *k, crate::hittable::h_rect_material(h), ray, lo, hi2));
            lemma_rect_window_coherent(*plane, *a0, *a1, *b0, *b1, *k,
                crate::hittable::h_rect_material(h), ray, lo, hi1, hi2);
        },
        Hittable::List { hittables } => {
            lemma_scan_window_coherent(hittables@, 0, ray, lo, hi1, hi2, None, None);
        },
        Hittable::Bvh { bbox, left, right } => {
            lemma_hit_window_coherent(&**left, ray, lo, hi1, hi2);
            crate::hittable::lemma_hit_of_in_box(&**left, ray, lo, hi1);
            match hit_of_arc(left, ray, lo, hi1) {
                Some(l1) => {
                    assert(l1.t.wf());
                    if crate::tparam::t_lt(l1.t, hi2) {
                        crate::hittable::lemma_hit_of_in_box(&**right, ray, lo, l1.t);
                        if hit_of_arc(right, ray, lo, l1.t) is Some {
                            let rr = hit_of_arc(right, ray, lo, l1.t)->Some_0;
                            crate::tparam::lemma_t_lt_trans(rr.t, l1.t, hi2);
                        }
                    } else {
                        crate::hittable::lemma_hit_of_in_box(&**left, ray, lo, hi2);
                        lemma_hit_window_coherent(&**right, ray, lo, l1.t, hi2);
                        match hit_of_arc(right, ray, lo, l1.t) {
                            Some(r1) => {
                                if crate::tparam::t_lt(r1.t, hi2) {
                                } else {
                                }
                            },
                            None => {},
                        }
                    }
                },
                None => {
                    lemma_hit_window_coherent(&**right, ray, lo, hi1, hi2);
                },
            }
        },
        Hittable::Instance { hittable, transform, world_box } => {
            lemma_instance_window_coherent(hittable, *transform, *world_box, ray, lo, hi1,
                hi2);
        },
        Hittable::MovingInstance { hittable, transform_0, transform_1, time_0, time_1,
            world_box } => {
            let tr = crate::hittable::transform_at_spec(*transform_0, *transform_1,
                *time_0, *time_1, ray.time);
            lemma_instance_window_coherent(hittable, tr, *world_box, ray, lo, hi1, hi2);
        },
        Hittable::ConstantMedium { .. } => {},
    }
}

/// Window coherence for the shared instance semantics.
#[verifier::rlimit(100)]
#[verifier::spinoff_prover]
proof fn lemma_instance_window_coherent(
    child: &std::sync::Arc<Hittable>, tr: crate::transform::Transform,
    wbox: Option<AABB>, ray: Ray, lo: TParam, hi1: TParam, hi2: TParam,
)
    requires
        (**child).wf(),
        det(**child),
        ray.wf(),
        lo.wf(),
        hi1.wf(),
        hi2.wf(),
        crate::tparam::t_le(hi2, hi1),
    ensures
        scan_rel(crate::hittable::instance_hit_spec_arc(child, tr, wbox, ray, lo, hi1),
            crate::hittable::instance_hit_spec_arc(child, tr, wbox, ray, lo, hi2), hi2),
    decreases **child, 2int,
{
    let lray = crate::hittable::local_ray(tr, ray);
    if !lray.direction.is_zero() {
        assert(lray.wf());
        lemma_hit_window_coherent(&**child, lray, lo, hi1, hi2);
        match hit_of_arc(child, lray, lo, hi1) {
            Some(rec) => {
                let wn = crate::transform::fwd_vector_spec(tr, rec.normal);
                let wrec = HitRecord {
                    point: crate::hittable::at_point(ray, rec.t.num as int,
                        rec.t.den as int),
                    normal: wn,
                    material: rec.material,
                    t: rec.t,
                    u: rec.u,
                    v: rec.v,
                };
                if crate::tparam::t_lt(rec.t, hi2) {
                    assert(hit_of_arc(child, lray, lo, hi2) == Some(rec));
                    if !wn.is_zero() && crate::hittable::clip_ok(wbox, ray, rec.t) {
                        assert(crate::hittable::instance_hit_spec_arc(child, tr, wbox,
                            ray, lo, hi1) == Some(wrec));
                        assert(crate::hittable::instance_hit_spec_arc(child, tr, wbox,
                            ray, lo, hi2) == Some(wrec));
                    } else {
                        assert(crate::hittable::instance_hit_spec_arc(child, tr, wbox,
                            ray, lo, hi1) is None);
                        assert(crate::hittable::instance_hit_spec_arc(child, tr, wbox,
                            ray, lo, hi2) is None);
                    }
                } else {
                    assert(hit_of_arc(child, lray, lo, hi2) is None);
                    assert(crate::hittable::instance_hit_spec_arc(child, tr, wbox, ray,
                        lo, hi2) is None);
                }
            },
            None => {
                assert(hit_of_arc(child, lray, lo, hi2) is None);
            },
        }
    }
}

/// Narrowing the window commutes with the linear scan, up to `scan_rel`.
#[verifier::rlimit(100)]
#[verifier::spinoff_prover]
proof fn lemma_scan_window_coherent(
    s: Seq<Arc<Hittable>>, i: int, ray: Ray, lo: TParam, hi1: TParam, hi2: TParam,
    b1: Option<HitRecord>, b2: Option<HitRecord>,
)
    requires
        forall|j: int| 0 <= j < s.len() ==> (*#[trigger] s[j]).wf(),
        forall|j: int| 0 <= j < s.len() ==> det(*#[trigger] s[j]),
        ray.wf(),
        lo.wf(),
        hi1.wf(),
        hi2.wf(),
        crate::tparam::t_le(hi2, hi1),
        0 <= i <= s.len(),
        scan_rel(b1, b2, hi2),
        b1 matches Some(r) ==> r.t.wf() && crate::tparam::t_lt(r.t, hi1),
        b2 matches Some(r) ==> r.t.wf(),
    ensures
        scan_rel(list_hit_from(s, i, ray, lo, hi1, b1), list_hit_from(s, i, ray, lo, hi2,
            b2), hi2),
        list_hit_from(s, i, ray, lo, hi1, b1) matches Some(r)
            ==> r.t.wf() && crate::tparam::t_lt(r.t, hi1),
    decreases s, (s.len() - i) as nat, 2int,
{
    if 0 <= i < s.len() {
        let cur1 = match b1 {
            Some(b) => b.t,
            None => hi1,
        };
        let cur2 = match b2 {
            Some(b) => b.t,
            None => hi2,
        };
        crate::hittable::lemma_hit_of_in_box(&*s[i], ray, lo, cur1);
        crate::hittable::lemma_hit_of_in_box(&*s[i], ray, lo, cur2);
        lemma_hit_window_coherent(&*s[i], ray, lo, cur1, cur2);
        let r1 = hit_of_arc(&s[i], ray, lo, cur1);
        let r2 = hit_of_arc(&s[i], ray, lo, cur2);
        let nb1 = match r1 {
            Some(rec) => Some(rec),
            None => b1,
        };
        let nb2 = match r2 {
            Some(rec) => Some(rec),
            None => b2,
        };
        if b1 is Some && r1 is Some {
            crate::tparam::lemma_t_lt_trans(r1->Some_0.t, b1->Some_0.t, hi1);
            if crate::tparam::t_lt(b1->Some_0.t, hi2) {
                crate::tparam::lemma_t_lt_trans(r1->Some_0.t, b1->Some_0.t, hi2);
            }
        }
        assert(scan_rel(nb1, nb2, hi2));
        assert(nb1 matches Some(r) ==> r.t.wf() && crate::tparam::t_lt(r.t, hi1));
        crate::hittable::lemma_scan_unfold(s, i, ray, lo, hi1, b1);
        crate::hittable::lemma_scan_unfold(s, i, ray, lo, hi2, b2);
        assert(crate::hittable::scan_step(s[i], ray, lo, hi1, b1) == nb1);
        assert(crate::hittable::scan_step(s[i], ray, lo, hi2, b2) == nb2);
        lemma_scan_window_coherent(s, i + 1, ray, lo, hi1, hi2, nb1, nb2);
    }
}

/// A sphere candidate accepted under the narrow window is accepted under
/// the wide one, and acceptance under the wide window survives narrowing
/// exactly when the candidate stays strictly below the narrow bound.
proof fn lemma_sphere_cand_coherent(
    center: Point3, radius: i64, ray: Ray, lo: TParam, hi1: TParam, hi2: TParam, tn: int,
    td: int,
)
    requires
        lo.wf(),
        hi1.wf(),
        hi2.wf(),
        crate::tparam::t_le(hi2, hi1),
        td > 0,
    ensures
        crate::hittable::sphere_accepts(center, radius, ray, lo, hi2, tn, td)
            ==> crate::hittable::sphere_accepts(center, radius, ray, lo, hi1, tn, td),
        crate::hittable::sphere_accepts(center, radius, ray, lo, hi1, tn, td)
            && crate::tparam::rat_lt(tn, td, hi2.num as int, hi2.den as int)
            ==> crate::hittable::sphere_accepts(center, radius, ray, lo, hi2, tn, td),
        crate::hittable::sphere_accepts(center, radius, ray, lo, hi2, tn, td)
            ==> crate::tparam::rat_lt(tn, td, hi2.num as int, hi2.den as int),
{
    if crate::tparam::rat_lt(tn, td, hi2.num as int, hi2.den as int) {
        crate::tparam::lemma_rat_lt_le_trans(tn, td, hi2.num as int, hi2.den as int,
            hi1.num as int, hi1.den as int);
    }
}

/// Window coherence for a sphere's report.
#[verifier::rlimit(100)]
#[verifier::spinoff_prover]
proof fn lemma_sphere_window_coherent(
    center: Point3, radius: i64, mat: std::sync::Arc<crate::material::Material>, ray: Ray,
    lo: TParam, hi1: TParam, hi2: TParam,
)
    requires
        center.wf(),
        1 <= radius,
        in_coord(radius as int),
        ray.wf(),
        lo.wf(),
        hi1.wf(),
        hi2.wf(),
        crate::tparam::t_le(hi2, hi1),
    ensures
        scan_rel(crate::hittable::sphere_hit_spec(center, radius, mat, ray, lo, hi1),
            crate::hittable::sphere_hit_spec(center, radius, mat, ray, lo, hi2), hi2),
{
    crate::hittable::lemma_sphere_coeff_bounds(center, radius, ray);
            let delta = crate::hittable::sphere_delta(center, radius, ray);
            if delta >= 0 {
                let a = crate::hittable::sphere_a(ray);
                let hb = crate::hittable::sphere_hb(center, ray);
                let sq = crate::fx::sqrt_floor(delta as nat) as int;
                let t1 = -hb - sq;
                let t2 = -hb + sq;
                assert((t1 as i128) as int == t1);
                assert((t2 as i128) as int == t2);
                lemma_sphere_cand_coherent(center, radius, ray, lo, hi1, hi2, t1, a);
                lemma_sphere_cand_coherent(center, radius, ray, lo, hi1, hi2, t2, a);
                if !crate::tparam::rat_lt(t1, a, hi2.num as int, hi2.den as int) {
                    assert(!crate::tparam::rat_lt(t2, a, hi2.num as int, hi2.den as int))
                        by (nonlinear_arith)
                        requires
                            t1 <= t2,
                            a > 0,
                            hi2.den as int > 0,
                            !(t1 * (hi2.den as int) < (hi2.num as int) * a),
                    ;
                }
                let acc1h1 = crate::hittable::sphere_accepts(center, radius, ray, lo,
                    hi1, t1, a);
                let acc2h1 = crate::hittable::sphere_accepts(center, radius, ray, lo,
                    hi1, t2, a);
                let acc1h2 = crate::hittable::sphere_accepts(center, radius, ray, lo,
                    hi2, t1, a);
                let acc2h2 = crate::hittable::sphere_accepts(center, radius, ray, lo,
                    hi2, t2, a);
                let mat = mat;
                let rec1 = crate::hittable::sphere_record(center, radius, mat, ray, t1,
                    a);
                let rec2 = crate::hittable::sphere_record(center, radius, mat, ray, t2,
                    a);
                assert(rec1.t.num as int == t1 && rec1.t.den as int == a);
                assert(rec2.t.num as int == t2 && rec2.t.den as int == a);
                if acc1h1 {
                    assert(crate::hittable::sphere_hit_spec(center, radius, mat, ray, lo, hi1) == Some(rec1));
                    if crate::tparam::rat_lt(t1, a, hi2.num as int, hi2.den as int) {
                        assert(acc1h2);
                        assert(crate::tparam::t_lt(rec1.t, hi2));
                        assert(crate::hittable::sphere_hit_spec(center, radius, mat, ray, lo, hi2) == Some(rec1));
                    } else {
                        assert(!acc1h2 && !acc2h2);
                        assert(!crate::tparam::t_lt(rec1.t, hi2));
                        assert(crate::hittable::sphere_hit_spec(center, radius, mat, ray, lo, hi2) is None);
                    }
                } else if acc2h1 {
                    assert(crate::hittable::sphere_hit_spec(center, radius, mat, ray, lo, hi1) == Some(rec2));
                    assert(!acc1h2);
                    if crate::tparam::rat_lt(t2, a, hi2.num as int, hi2.den as int) {
                        assert(acc2h2);
                        assert(crate::tparam::t_lt(rec2.t, hi2));
                        assert(crate::hittable::sphere_hit_spec(center, radius, mat, ray, lo, hi2) == Some(rec2));
                    } else {
                        assert(!acc2h2);
                        assert(!crate::tparam::t_lt(rec2.t, hi2));
                        assert(crate::hittable::sphere_hit_spec(center, radius, mat, ray, lo, hi2) is None);
                    }
                } else {
                    assert(!acc1h2 && !acc2h2);
                    assert(crate::hittable::sphere_hit_spec(center, radius, mat, ray, lo, hi1) is None);
                    assert(crate::hittable::sphere_hit_spec(center, radius, mat, ray, lo, hi2) is None);
                }
            } else {
                assert(crate::hittable::sphere_hit_spec(center, radius, mat, ray, lo, hi1) is None);
                assert(crate::hittable::sphere_hit_spec(center, radius, mat, ray, lo, hi2) is None);
            }
        
}

/// Window coherence for a rectangle's report.
#[verifier::rlimit(100)]
#[verifier::spinoff_prover]
proof fn lemma_rect_window_coherent(
    plane: crate::hittable::Plane, a0: i64, a1: i64, b0: i64, b1: i64, k: i64,
    mat: std::sync::Arc<crate::material::Material>, ray: Ray, lo: TParam, hi1: TParam,
    hi2: TParam,
)
    requires
        ray.wf(),
        lo.wf(),
        hi1.wf(),
        hi2.wf(),
        in_coord(a0 as int),
        in_coord(a1 as int),
        in_coord(b0 as int),
        in_coord(b1 as int),
        in_coord(k as int),
        crate::tparam::t_le(hi2, hi1),
    ensures
        scan_rel(crate::hittable::rect_hit_spec(plane, a0, a1, b0, b1, k, mat, ray, lo,
            hi1), crate::hittable::rect_hit_spec(plane, a0, a1, b0, b1, k, mat, ray, lo,
            hi2), hi2),
{
    let dk = crate::hittable::plane_k(plane, ray.direction);
    let ok = crate::hittable::plane_k(plane, ray.origin);
    if dk != 0 {
        let tn = if dk > 0 { k - ok } else { ok - k };
        let td = if dk > 0 { dk } else { -dk };
        assert((tn as i128) as int == tn);
        assert((td as i128) as int == td);
        if crate::tparam::rat_lt(tn, td, hi2.num as int, hi2.den as int) {
            crate::tparam::lemma_rat_lt_le_trans(tn, td, hi2.num as int, hi2.den as int,
                hi1.num as int, hi1.den as int);
        }
        let rec = crate::hittable::rect_record(plane, a0, a1, b0, b1, mat, ray, tn, td);
        assert(rec.t.num as int == tn && rec.t.den as int == td);
    }
}

/// The linear scan reports a member's own full-window record, and the
/// nearest one: every other member's record lies no closer.
#[verifier::rlimit(100)]
#[verifier::spinoff_prover]
proof fn lemma_scan_min(
    s: Seq<Arc<Hittable>>, i: int, ray: Ray, lo: TParam, hi: TParam,
    best: Option<HitRecord>,
)
    requires
        forall|j: int| 0 <= j < s.len() ==> (*#[trigger] s[j]).wf(),
        forall|j: int| 0 <= j < s.len() ==> det(*#[trigger] s[j]),
        ray.wf(),
        lo.wf(),
        hi.wf(),
        0 <= i <= s.len(),
        best matches Some(b) ==> {
            &&& b.t.wf()
            &&& crate::tparam::t_lt(b.t, hi)
            &&& exists|j: int| 0 <= j < i && #[trigger] hit_of_arc(&s[j], ray, lo, hi)
                == Some(b)
            &&& forall|j: int| 0 <= j < i ==> ((#[trigger] hit_of_arc(&s[j], ray, lo, hi))
                matches Some(r) ==> crate::tparam::t_le(b.t, r.t))
        },
        best is None ==> forall|j: int| 0 <= j < i
            ==> (#[trigger] hit_of_arc(&s[j], ray, lo, hi)) is None,
    ensures
        list_hit_from(s, i, ray, lo, hi, best) matches Some(rec) ==> {
            &&& exists|j: int| 0 <= j < s.len() && #[trigger] hit_of_arc(&s[j], ray, lo,
                hi) == Some(rec)
            &&& forall|j: int| 0 <= j < s.len() ==> ((#[trigger] hit_of_arc(&s[j], ray, lo,
                hi)) matches Some(r) ==> crate::tparam::t_le(rec.t, r.t))
        },
        list_hit_from(s, i, ray, lo, hi, best) is None ==> forall|j: int|
            0 <= j < s.len() ==> (#[trigger] hit_of_arc(&s[j], ray, lo, hi)) is None,
    decreases s.len() - i,
{
    if i < s.len() {
        let cur = match best {
            Some(b) => b.t,
            None => hi,
        };
        crate::hittable::lemma_hit_of_in_box(&*s[i], ray, lo, cur);
        crate::hittable::lemma_hit_of_in_box(&*s[i], ray, lo, hi);
        let full_i = hit_of_arc(&s[i], ray, lo, hi);
        let r_i = hit_of_arc(&s[i], ray, lo, cur);
        crate::hittable::lemma_scan_unfold(s, i, ray, lo, hi, best);
        match best {
            Some(b) => {
                lemma_hit_window_coherent(&*s[i], ray, lo, hi, b.t);
                assert(scan_rel(full_i, r_i, b.t));
                match full_i {
                    Some(f) => {
                        if crate::tparam::t_lt(f.t, b.t) {
                            assert(r_i == Some(f));
                            crate::tparam::lemma_t_lt_trans(f.t, b.t, hi);
                            assert forall|j: int| 0 <= j <= i implies
                                ((#[trigger] hit_of_arc(&s[j], ray, lo, hi))
                                matches Some(r) ==> crate::tparam::t_le(f.t, r.t)) by {
                                if j < i {
                                    if hit_of_arc(&s[j], ray, lo, hi) is Some {
                                        crate::hittable::lemma_hit_of_in_box(&*s[j], ray,
                                            lo, hi);
                                        let r = hit_of_arc(&s[j], ray, lo, hi)->Some_0;
                                        crate::tparam::lemma_t_lt_le_trans(f.t, b.t, r.t);
                                    }
                                }
                            }
                            lemma_scan_min(s, i + 1, ray, lo, hi, Some(f));
                        } else {
                            assert(r_i is None);
                            lemma_scan_min(s, i + 1, ray, lo, hi, best);
                        }
                    },
                    None => {
                        assert(r_i is None);
                        lemma_scan_min(s, i + 1, ray, lo, hi, best);
                    },
                }
            },
            None => {
                assert(cur == hi);
                assert(r_i == full_i);
                match r_i {
                    Some(f) => {
                        lemma_scan_min(s, i + 1, ray, lo, hi, Some(f));
                    },
                    None => {
                        lemma_scan_min(s, i + 1, ray, lo, hi, None);
                    },
                }
            },
        }
    }
}

/// Scans over runs with the same member set report equally near hits: both
/// miss, or both report records at exactly the same ray parameter.
#[verifier::rlimit(100)]
#[verifier::spinoff_prover]
pub proof fn lemma_scan_same_members(
    s1: Seq<Arc<Hittable>>, s2: Seq<Arc<Hittable>>, ray: Ray, lo: TParam, hi: TParam,
)
    requires
        forall|j: int| 0 <= j < s1.len() ==> (*#[trigger] s1[j]).wf(),
        forall|j: int| 0 <= j < s1.len() ==> det(*#[trigger] s1[j]),
        forall|j: int| 0 <= j < s2.len() ==> (*#[trigger] s2[j]).wf(),
        forall|j: int| 0 <= j < s2.len() ==> det(*#[trigger] s2[j]),
        forall|x: Arc<Hittable>| s1.contains(x) <==> s2.contains(x),
        ray.wf(),
        lo.wf(),
        hi.wf(),
    ensures
        match (list_hit_from(s1, 0, ray, lo, hi, None), list_hit_from(s2, 0, ray, lo, hi,
            None)) {
            (Some(r1), Some(r2)) => crate::tparam::t_eq(r1.t, r2.t),
            (None, None) => true,
            _ => false,
        },
{
    lemma_scan_min(s1, 0, ray, lo, hi, None);
    lemma_scan_min(s2, 0, ray, lo, hi, None);
    let r1 = list_hit_from(s1, 0, ray, lo, hi, None);
    let r2 = list_hit_from(s2, 0, ray, lo, hi, None);
    match (r1, r2) {
        (Some(a), Some(b)) => {
            let i = choose|i: int| 0 <= i < s1.len() && #[trigger] hit_of_arc(&s1[i], ray,
                lo, hi) == Some(a);
            assert(s1.contains(s1[i]));
            assert(s2.contains(s1[i]));
            let i2 = choose|k: int| 0 <= k < s2.len() && s2[k] == s1[i];
            assert(hit_of_arc(&s2[i2], ray, lo, hi) == Some(a));
            assert(crate::tparam::t_le(b.t, a.t));
            let j = choose|j: int| 0 <= j < s2.len() && #[trigger] hit_of_arc(&s2[j], ray,
                lo, hi) == Some(b);
            assert(s2.contains(s2[j]));
            assert(s1.contains(s2[j]));
            let j1 = choose|k: int| 0 <= k < s1.len() && s1[k] == s2[j];
            assert(hit_of_arc(&s1[j1], ray, lo, hi) == Some(b));
            assert(crate::tparam::t_le(a.t, b.t));
        },
        (Some(a), None) => {
            let i = choose|i: int| 0 <= i < s1.len() && #[trigger] hit_of_arc(&s1[i], ray,
                lo, hi) == Some(a);
            assert(s2.contains(s1[i]));
            let i2 = choose|k: int| 0 <= k < s2.len() && s2[k] == s1[i];
            assert(hit_of_arc(&s2[i2], ray, lo, hi) is None);
            assert(false);
        },
        (None, Some(b)) => {
            let j = choose|j: int| 0 <= j < s2.len() && #[trigger] hit_of_arc(&s2[j], ray,
                lo, hi) == Some(b);
            assert(s1.contains(s2[j]));
            let j1 = choose|k: int| 0 <= k < s1.len() && s1[k] == s2[j];
            assert(hit_of_arc(&s1[j1], ray, lo, hi) is None);
            assert(false);
        },
        (None, None) => {},
    }
}

/// An acceleration tree reports a hit at exactly the parameter the
/// brute-force scan of any run with the same member set reports, or both
/// miss: traversal order and tree shape cannot change the reported
/// distance.
pub proof fn lemma_bvh_reports_closest(
    a: Arc<Hittable>, members: Seq<Arc<Hittable>>, ray: Ray, lo: TParam, hi: TParam,
)
    requires
        forall|j: int| 0 <= j < leaves_arc(a).len()
            ==> (*#[trigger] leaves_arc(a)[j]).wf(),
        forall|j: int| 0 <= j < leaves_arc(a).len()
            ==> det(*#[trigger] leaves_arc(a)[j]),
        forall|j: int| 0 <= j < members.len() ==> (*#[trigger] members[j]).wf(),
        forall|j: int| 0 <= j < members.len() ==> det(*#[trigger] members[j]),
        forall|x: Arc<Hittable>| leaves_arc(a).contains(x) <==> members.contains(x),
        ray.wf(),
        lo.wf(),
        hi.wf(),
    ensures
        match (hit_of_arc(&a, ray, lo, hi), list_hit_from(members, 0, ray, lo, hi, None)) {
            (Some(r1), Some(r2)) => crate::tparam::t_eq(r1.t, r2.t),
            (None, None) => true,
            _ => false,
        },
{
    lemma_bvh_matches_linear_scan(a, ray, lo, hi);
    lemma_scan_same_members(leaves_arc(a), members, ray, lo, hi);
}
} // verus!
